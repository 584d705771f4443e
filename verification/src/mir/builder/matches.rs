//! How matches are lowered.

use crate::collections::map_get;
use crate::ids::{BlockId, ExprId, PathId, NESTING_LIMIT};
#[allow(unused_imports)]
use crate::mir::builder::counted::Edges;
#[allow(unused_imports)]
use crate::mir::builder::expressions::{recursion, Lower};
use crate::mir::builder::state::{Builder, Case, Cases, Constructor, DecisionTree};
#[allow(unused_imports)]
use crate::mir::builder::state::Lowering;
use crate::mir::{Instruction, TerminatorInstruction, Type, Value};
#[allow(unused_imports)]
use crate::mir::{Operation, Terminator};
use vstd::prelude::*;

verus! {

/// What the tag of a value is where a case matches it. A range is never tested by its tag.
pub open spec fn case_key(constructor: Constructor) -> Option<u32> {
    match constructor {
        Constructor::False | Constructor::Unit => Some(0),
        Constructor::True => Some(1),
        Constructor::Int(value) => Some(value as u32),
        Constructor::Variant(index) => Some(index),
        Constructor::Range(_, _) => None,
    }
}

fn find_case_key(constructor: Constructor) -> (key: Option<u32>)
    ensures
        key == case_key(constructor),
{
    match constructor {
        Constructor::False => Some(0),
        Constructor::Unit => Some(0),
        Constructor::True => Some(1),
        Constructor::Int(value) => Some(value as u32),
        Constructor::Variant(index) => Some(index),
        Constructor::Range(_, _) => None,
    }
}

/// The cases of a list.
pub open spec fn cases_of(list: Seq<&Case>) -> Seq<Case> {
    list.map_values(|case: &Case| *case)
}

impl Cases {
    fn push_onto<'b>(&'b self, list: &mut Vec<&'b Case>)
        ensures
            cases_of(final(list)@) == cases_of(old(list)@) + self.items(),
        decreases self,
    {
        match self {
            Cases::Nil => {
                assert(cases_of(list@) =~= cases_of(old(list)@) + self.items());
            },
            Cases::Cons(case, rest) => {
                let ghost before = list@;
                list.push(&**case);
                assert(cases_of(list@) =~= cases_of(before).push(**case));
                rest.push_onto(list);
                assert(cases_of(list@) =~= cases_of(before) + self.items());
            },
        }
    }

    /// The cases, in order.
    pub fn list(&self) -> (list: Vec<&Case>)
        ensures
            cases_of(list@) == self.items(),
    {
        let mut list: Vec<&Case> = Vec::new();
        self.push_onto(&mut list);
        assert(cases_of(list@) =~= self.items());
        list
    }
}

impl Lowering {
    /// A block for each of the first `count` cases.
    #[verifier::opaque]
    pub open spec fn with_keyed_blocks(self, cases: Seq<Case>, count: int) -> (Edges, Lowering)
        decreases count,
    {
        if count <= 0 {
            (Seq::empty(), self)
        } else {
            let (edges, made) = self.with_keyed_blocks(cases, count - 1);
            let (key, made) = match case_key(cases[count - 1].constructor) {
                Some(key) => (key, made),
                None => (0, made.fails()),
            };
            let (block, made) = made.with_block(Seq::empty());
            (edges.push((key, (block, None))), made)
        }
    }

    /// The first `count` payloads of a variant bound to the variables of a case.
    #[verifier::opaque]
    pub open spec fn payloads_bound(
        self,
        variant: Value,
        typ: Type,
        arguments: Seq<PathId>,
        count: int,
    ) -> Lowering
        decreases count,
    {
        if count <= 0 {
            self
        } else {
            let made = self.payloads_bound(variant, typ, arguments, count - 1);
            match self.answers.context@.path_origin(arguments[count - 1]) {
                Some(origin) => {
                    let field_type = match typ.fields() {
                        Some(fields) => if count - 1 < fields.len() {
                            fields[count - 1]
                        } else {
                            Type::error()
                        },
                        None => Type::error(),
                    };
                    let (field, made) = made.pushed(
                        Operation::IndexTuple { tuple: variant, index: (count - 1) as u32 },
                        field_type,
                    );
                    made.with_variable(origin, field)
                },
                None => made,
            }
        }
    }

    /// This state in the block of a case, with the variables of the case bound. Only a variant has
    /// payloads.
    #[verifier::opaque]
    pub open spec fn case_entered(
        self,
        block: BlockId,
        value: Value,
        constructor: Constructor,
        arguments: Seq<PathId>,
    ) -> Lowering {
        let made = self.switched_to(block);
        if arguments.len() == 0 {
            made
        } else {
            match constructor {
                Constructor::Variant(index) => {
                    let (variant, made) = made.variant_of(value, index);
                    made.payloads_bound(
                        variant,
                        made.value_type(variant),
                        arguments,
                        arguments.len() as int,
                    )
                },
                _ => made.fails(),
            }
        }
    }

    /// The value that is matched, its tag, and the blocks of the cases and of the end.
    #[verifier::opaque]
    pub open spec fn switch_entered(self, tag: PathId, cases: Seq<Case>, match_expr: ExprId) -> (
        (Value, Value, BlockId, Edges, BlockId),
        Lowering,
    ) {
        let (value, made) = self.variable_made(tag);
        let (value, made) = made.dereferenced(value, self.path_type(tag));
        let (int_value, made) = made.tag_of(value);
        let start = made.block;
        let (edges, made) = made.with_keyed_blocks(cases, cases.len() as int);
        let (end, made) = made.with_block(seq![made.layout(made.expr_type(match_expr))]);
        ((value, int_value, start, edges, end), made)
    }

    /// The tests of a match.
    pub open spec fn tree_lowered(
        self,
        lower: Lower,
        tree: DecisionTree,
        match_expr: ExprId,
        depth: nat,
    ) -> (Value, Lowering)
        decreases depth, 0nat, 0int,
    {
        if depth == 0 {
            (Value::Error, self.fails())
        } else {
            match tree {
                DecisionTree::Success(expr) => lower(self, expr),
                DecisionTree::Failure => (Value::Error, self),
                DecisionTree::Guard { condition, success, otherwise } => self.guard_lowered(
                    lower,
                    condition,
                    success,
                    *otherwise,
                    match_expr,
                    (depth - 1) as nat,
                ),
                DecisionTree::Switch(tag, cases, otherwise) => self.switch_lowered(
                    lower,
                    tag,
                    cases.items(),
                    otherwise,
                    match_expr,
                    (depth - 1) as nat,
                ),
            }
        }
    }

    /// A test of a condition, with what is tested where it fails.
    pub open spec fn guard_lowered(
        self,
        lower: Lower,
        condition: ExprId,
        success: ExprId,
        otherwise: DecisionTree,
        match_expr: ExprId,
        depth: nat,
    ) -> (Value, Lowering)
        decreases depth, 1nat, 0int,
    {
        let (then, made) = self.with_block(Seq::empty());
        let (else_, made) = made.with_block(Seq::empty());
        let (end, made) = made.with_block(seq![made.layout(made.expr_type(match_expr))]);
        let (cond, made) = lower(made, condition);
        let made = made.terminated(Terminator::If { cond, then, else_, end: else_ }).switched_to(
            then,
        );
        let (value, made) = lower(made, success);
        let made = made.terminated(Terminator::Jmp(end, Some(value))).switched_to(else_);
        let (value, made) = made.tree_lowered(lower, otherwise, match_expr, depth);
        let made = made.terminated(Terminator::Jmp(end, Some(value))).switched_to(end);
        (Value::Parameter(end, 0), made)
    }

    /// The first `count` cases of a switch.
    pub open spec fn cases_lowered(
        self,
        lower: Lower,
        value: Value,
        cases: Seq<Case>,
        edges: Edges,
        end: BlockId,
        match_expr: ExprId,
        count: int,
        depth: nat,
    ) -> Lowering
        decreases depth, 1nat, count,
    {
        if count <= 0 {
            self
        } else {
            let made = self.cases_lowered(
                lower,
                value,
                cases,
                edges,
                end,
                match_expr,
                count - 1,
                depth,
            );
            let case = cases[count - 1];
            let (result, made) = made.case_entered(
                edges[count - 1].1.0,
                value,
                case.constructor,
                case.arguments@,
            ).tree_lowered(lower, case.body, match_expr, depth);
            made.terminated(Terminator::Jmp(end, Some(result)))
        }
    }

    /// What a switch does where no case matches.
    pub open spec fn otherwise_lowered(
        self,
        lower: Lower,
        otherwise: Option<Box<DecisionTree>>,
        end: BlockId,
        match_expr: ExprId,
        depth: nat,
    ) -> Lowering
        decreases depth, 1nat, 0int,
    {
        match otherwise {
            Some(tree) => {
                let (result, made) = self.tree_lowered(lower, *tree, match_expr, depth);
                made.terminated(Terminator::Jmp(end, Some(result)))
            },
            None => self.terminated(Terminator::Unreachable),
        }
    }

    /// A switch on the tag of a variable.
    pub open spec fn switch_lowered(
        self,
        lower: Lower,
        tag: PathId,
        cases: Seq<Case>,
        otherwise: Option<Box<DecisionTree>>,
        match_expr: ExprId,
        depth: nat,
    ) -> (Value, Lowering)
        decreases depth, 2nat, 0int,
    {
        let ((value, int_value, start, edges, end), made) = self.switch_entered(
            tag,
            cases,
            match_expr,
        );
        let made = made.cases_lowered(
            lower,
            value,
            cases,
            edges,
            end,
            match_expr,
            cases.len() as int,
            depth,
        );
        let (block, made) = made.with_block(Seq::empty());
        let made = made.switched_to(block).otherwise_lowered(
            lower,
            otherwise,
            end,
            match_expr,
            depth,
        );
        let made = made.switched_to(start).terminated(
            Terminator::Switch { int_value, cases: edges, otherwise: (block, None), end },
        ).switched_to(end);
        (Value::Parameter(end, 0), made)
    }

    /// A match: the variable it is on is defined, and tested. One without tests is an error that
    /// was reported before.
    #[verifier::opaque]
    pub open spec fn match_lowered(self, lower: Lower, expr: ExprId) -> (Value, Lowering) {
        if self.answers.decision_trees@.contains_key(expr) {
            let (define, tree) = self.answers.decision_trees@[expr];
            lower(self, define).1.tree_lowered(lower, tree, expr, NESTING_LIMIT as nat)
        } else {
            (Value::Error, self)
        }
    }
}

impl<'a> Builder<'a> {
    fn push_keyed_blocks(&mut self, cases: &Vec<&Case>) -> (edges: Vec<
        (u32, (BlockId, Option<Value>)),
    >)
        ensures
            (edges@, final(self)@) == old(self)@.with_keyed_blocks(
                cases_of(cases@),
                cases@.len() as int,
            ),
            edges@.len() == cases@.len(),
    {
        let mut edges: Vec<(u32, (BlockId, Option<Value>))> = Vec::new();
        let mut i: usize = 0;
        proof {
            reveal(Lowering::with_keyed_blocks);
        }
        while i < cases.len()
            invariant
                i <= cases.len(),
                edges@.len() == i,
                (edges@, self@) == old(self)@.with_keyed_blocks(cases_of(cases@), i as int),
            decreases cases.len() - i,
        {
            proof {
                reveal(Lowering::with_keyed_blocks);
            }
            assert(cases_of(cases@)[i as int] == *cases@[i as int]);
            let key: u32 = match find_case_key(cases[i].constructor) {
                Some(key) => key,
                None => {
                    self.fail();
                    0
                },
            };
            let block = self.push_block_no_params();
            edges.push((key, (block, None)));
            i += 1;
        }
        edges
    }

    fn tuple_field_type(typ: &Type, index: usize) -> (field: Type)
        ensures
            field == (match typ.fields() {
                Some(fields) => if index < fields.len() {
                    fields[index as int]
                } else {
                    Type::error()
                },
                None => Type::error(),
            }),
    {
        match typ.tuple_fields() {
            Some(fields) => {
                if index < fields.len() {
                    fields[index].clone()
                } else {
                    Type::Primitive(crate::mir::PrimitiveType::Error)
                }
            },
            None => Type::Primitive(crate::mir::PrimitiveType::Error),
        }
    }

    fn bind_payloads(&mut self, variant: Value, typ: &Type, arguments: &Vec<PathId>)
        ensures
            final(self)@ == old(self)@.payloads_bound(
                variant,
                *typ,
                arguments@,
                arguments@.len() as int,
            ),
    {
        let mut i: usize = 0;
        let answers = self.answers;
        proof {
            reveal(Lowering::payloads_bound);
        }
        while i < arguments.len()
            invariant
                i <= arguments.len(),
                *answers == old(self)@.answers,
                self@ == old(self)@.payloads_bound(variant, *typ, arguments@, i as int),
            decreases arguments.len() - i,
        {
            proof {
                reveal(Lowering::payloads_bound);
            }
            match answers.context.path_origin(arguments[i]) {
                Some(origin) => {
                    let field_type = Self::tuple_field_type(typ, i);
                    let field = self.push_instruction(
                        Instruction::IndexTuple { tuple: variant, index: i as u32 },
                        field_type,
                    );
                    self.define_variable(origin, field);
                },
                None => {},
            }
            i += 1;
        }
    }

    fn enter_case(
        &mut self,
        block: BlockId,
        value: Value,
        constructor: Constructor,
        arguments: &Vec<PathId>,
    )
        ensures
            final(self)@ == old(self)@.case_entered(block, value, constructor, arguments@),
    {
        proof {
            reveal(Lowering::case_entered);
        }
        self.switch_to_block(block);
        if arguments.len() > 0 {
            match constructor {
                Constructor::Variant(index) => {
                    let variant = self.extract_variant(value, index);
                    let typ = self.type_of_value(&variant);
                    self.bind_payloads(variant, &typ, arguments);
                },
                _ => {
                    self.fail();
                },
            }
        }
    }

    fn enter_switch(&mut self, tag: PathId, cases: &Vec<&Case>, match_expr: ExprId) -> (entered: (
        Value,
        Value,
        BlockId,
        Vec<(u32, (BlockId, Option<Value>))>,
        BlockId,
    ))
        ensures
            (
                (entered.0, entered.1, entered.2, entered.3@, entered.4),
                final(self)@,
            ) == old(self)@.switch_entered(tag, cases_of(cases@), match_expr),
            entered.3@.len() == cases@.len(),
    {
        proof {
            reveal(Lowering::switch_entered);
        }
        let typ = self.type_of_path(tag);
        let value = self.variable(tag);
        let value = self.deref_if_shared(value, &typ);
        let int_value = self.extract_tag_value(value);
        let start = self.current_block;
        let edges = self.push_keyed_blocks(cases);
        let end = self.push_end_block(match_expr);
        (value, int_value, start, edges, end)
    }

    /// Add the block that all the outcomes of a match go to.
    fn push_end_block(&mut self, match_expr: ExprId) -> (end: BlockId)
        ensures
            (end, final(self)@) == old(self)@.with_block(
                seq![old(self)@.layout(old(self)@.expr_type(match_expr))],
            ),
    {
        let mut types: Vec<Type> = Vec::new();
        types.push(self.expr_layout(match_expr));
        assert(types@ =~= seq![self@.layout(self@.expr_type(match_expr))]);
        self.push_block(types)
    }

    fn decision_tree(
        &mut self,
        tree: &DecisionTree,
        match_expr: ExprId,
        depth: u64,
        nesting: u64,
    ) -> (value: Value)
        ensures
            (value, final(self)@) == old(self)@.tree_lowered(
                recursion(depth as nat),
                *tree,
                match_expr,
                nesting as nat,
            ),
        decreases depth, 1nat, nesting, 0nat,
    {
        if nesting == 0 {
            self.fail();
            return Value::Error;
        }
        match tree {
            DecisionTree::Success(expr) => self.expression(*expr, depth),
            DecisionTree::Failure => Value::Error,
            DecisionTree::Guard { condition, success, otherwise } => self.match_if_guard(
                *condition,
                *success,
                otherwise,
                match_expr,
                depth,
                nesting - 1,
            ),
            DecisionTree::Switch(tag, cases, otherwise) => self.switch(
                *tag,
                cases,
                otherwise,
                match_expr,
                depth,
                nesting - 1,
            ),
        }
    }

    fn match_if_guard(
        &mut self,
        condition: ExprId,
        success: ExprId,
        otherwise: &DecisionTree,
        match_expr: ExprId,
        depth: u64,
        nesting: u64,
    ) -> (value: Value)
        ensures
            (value, final(self)@) == old(self)@.guard_lowered(
                recursion(depth as nat),
                condition,
                success,
                *otherwise,
                match_expr,
                nesting as nat,
            ),
        decreases depth, 1nat, nesting, 1nat,
    {
        let then = self.push_block_no_params();
        let else_ = self.push_block_no_params();
        let end = self.push_end_block(match_expr);
        let cond = self.expression(condition, depth);
        self.terminate_block(TerminatorInstruction::If { cond, then, else_, end: else_ });
        self.switch_to_block(then);
        let value = self.expression(success, depth);
        self.terminate_with_jump(end, Some(value));
        self.switch_to_block(else_);
        let value = self.decision_tree(otherwise, match_expr, depth, nesting);
        self.terminate_with_jump(end, Some(value));
        self.switch_to_block(end);
        Value::Parameter(end, 0)
    }

    fn lower_cases(
        &mut self,
        value: Value,
        cases: &Vec<&Case>,
        edges: &Vec<(u32, (BlockId, Option<Value>))>,
        end: BlockId,
        match_expr: ExprId,
        depth: u64,
        nesting: u64,
    )
        requires
            edges@.len() == cases@.len(),
        ensures
            final(self)@ == old(self)@.cases_lowered(
                recursion(depth as nat),
                value,
                cases_of(cases@),
                edges@,
                end,
                match_expr,
                cases@.len() as int,
                nesting as nat,
            ),
        decreases depth, 1nat, nesting, 1nat,
    {
        let mut i: usize = 0;
        while i < cases.len()
            invariant
                i <= cases.len(),
                edges@.len() == cases@.len(),
                self@ == old(self)@.cases_lowered(
                    recursion(depth as nat),
                    value,
                    cases_of(cases@),
                    edges@,
                    end,
                    match_expr,
                    i as int,
                    nesting as nat,
                ),
            decreases cases.len() - i,
        {
            assert(cases_of(cases@)[i as int] == *cases@[i as int]);
            let case = cases[i];
            self.enter_case(edges[i].1.0, value, case.constructor, &case.arguments);
            let result = self.decision_tree(&case.body, match_expr, depth, nesting);
            self.terminate_with_jump(end, Some(result));
            i += 1;
        }
    }

    fn lower_otherwise(
        &mut self,
        otherwise: &Option<Box<DecisionTree>>,
        end: BlockId,
        match_expr: ExprId,
        depth: u64,
        nesting: u64,
    )
        ensures
            final(self)@ == old(self)@.otherwise_lowered(
                recursion(depth as nat),
                *otherwise,
                end,
                match_expr,
                nesting as nat,
            ),
        decreases depth, 1nat, nesting, 1nat,
    {
        match otherwise {
            Some(tree) => {
                let result = self.decision_tree(tree, match_expr, depth, nesting);
                self.terminate_with_jump(end, Some(result));
            },
            None => {
                self.terminate_block(TerminatorInstruction::Unreachable);
            },
        }
    }

    fn switch(
        &mut self,
        tag: PathId,
        cases: &Cases,
        otherwise: &Option<Box<DecisionTree>>,
        match_expr: ExprId,
        depth: u64,
        nesting: u64,
    ) -> (value: Value)
        ensures
            (value, final(self)@) == old(self)@.switch_lowered(
                recursion(depth as nat),
                tag,
                cases.items(),
                *otherwise,
                match_expr,
                nesting as nat,
            ),
        decreases depth, 1nat, nesting, 2nat,
    {
        let list = cases.list();
        let (value, int_value, start, edges, end) = self.enter_switch(tag, &list, match_expr);
        assert(cases_of(list@).len() == list@.len());
        self.lower_cases(value, &list, &edges, end, match_expr, depth, nesting);
        let block = self.push_block_no_params();
        self.switch_to_block(block);
        self.lower_otherwise(otherwise, end, match_expr, depth, nesting);
        self.switch_to_block(start);
        self.terminate_block(
            TerminatorInstruction::Switch {
                int_value,
                cases: edges,
                otherwise: (block, None),
                end,
            },
        );
        self.switch_to_block(end);
        Value::Parameter(end, 0)
    }

    /// Lower a match.
    pub fn match_(&mut self, expr: ExprId, depth: u64) -> (value: Value)
        ensures
            (value, final(self)@) == old(self)@.match_lowered(recursion(depth as nat), expr),
        decreases depth, 2nat, 0nat, 0nat,
    {
        proof {
            reveal(Lowering::match_lowered);
        }
        let answers = self.answers;
        match map_get(&answers.decision_trees, expr) {
            Some((define, tree)) => {
                self.expression(*define, depth);
                self.decision_tree(tree, expr, depth, NESTING_LIMIT)
            },
            None => Value::Error,
        }
    }
}

} // verus!

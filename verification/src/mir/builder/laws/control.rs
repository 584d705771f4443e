//! Where control goes in lowered code.

#[allow(unused_imports)]
use crate::cst::ExprForm;
#[allow(unused_imports)]
use crate::ids::{BlockId, ExprId, NameId};
#[allow(unused_imports)]
use crate::mir::builder::expressions::Lower;
#[allow(unused_imports)]
use crate::mir::builder::laws::{
    a_loop_is_left, carried, cases_keep, counting_up, definition_grew, keeps, keeps_case_entered,
    keeps_dereferenced, keeps_fails, keeps_payloads_bound, keeps_pushed, keeps_switched_to,
    keeps_tag_of, keeps_terminated, keeps_tree_lowered, keeps_variable_made, keeps_variant_of,
    keeps_with_block, keeps_with_keyed_blocks, keeps_with_local, keeps_with_parameter, kept,
    kept_is_reflexive, kept_is_transitive, left, others_stay, settled, settled_is_reflexive,
    settled_is_transitive,
};
#[allow(unused_imports)]
use crate::mir::builder::state::{Case, Constructor, DecisionTree, Lowering};
#[allow(unused_imports)]
use crate::mir::{BlockState, IntConstant, Operation, PrimitiveType, Terminator, Type, Value};
#[allow(unused_imports)]
use crate::types::IntegerKind;
use vstd::prelude::*;

verus! {

/// What values are while code runs: which booleans hold, and which number an integer is.
pub struct Meaning {
    pub holds: spec_fn(Value) -> bool,
    pub number: spec_fn(Value) -> int,
}

/// The place of the first edge for `number`.
pub open spec fn edge_for(edges: Seq<(u32, (BlockId, Option<Value>))>, number: int) -> Option<int>
    decreases edges.len(),
{
    if edges.len() == 0 {
        None
    } else if edges[0].0 == number {
        Some(0)
    } else {
        match edge_for(edges.drop_first(), number) {
            Some(i) => Some(i + 1),
            None => None,
        }
    }
}

/// The block that control goes to at the end of a block, if it goes on.
pub open spec fn successor(terminator: Terminator, meaning: Meaning) -> Option<BlockId> {
    match terminator {
        Terminator::Jmp(block, _) => Some(block),
        Terminator::If { cond, then, else_, .. } => Some(
            if (meaning.holds)(cond) {
                then
            } else {
                else_
            },
        ),
        Terminator::Switch { int_value, cases, otherwise, .. } => match edge_for(
            cases,
            (meaning.number)(int_value),
        ) {
            Some(i) => Some(cases[i].1.0),
            None => Some(otherwise.0),
        },
        Terminator::Unreachable | Terminator::Return(_) | Terminator::Result(_) => None,
    }
}

/// The value that a jump hands to the block it goes to.
pub open spec fn handed_over(terminator: Terminator) -> Option<Value> {
    match terminator {
        Terminator::Jmp(_, value) => value,
        _ => None,
    }
}

impl Lowering {
    /// How the block ends, if it does.
    pub open spec fn end_of(self, block: BlockId) -> Option<Terminator> {
        match self.function {
            Some(function) => if block < function.blocks.len() {
                function.blocks[block as int].terminator
            } else {
                None
            },
            None => None,
        }
    }

    /// Control goes from `block` to `next`.
    pub open spec fn goes(self, block: BlockId, meaning: Meaning, next: BlockId) -> bool {
        self.end_of(block) matches Some(end) && successor(end, meaning) == Some(next)
    }

    /// Control goes from `block` to `next`, whatever values are.
    pub open spec fn always_goes(self, block: BlockId, next: BlockId) -> bool {
        forall|meaning: Meaning| #[trigger] self.goes(block, meaning, next)
    }

    /// Control goes from `block` to `next`, whatever values are, with `value` handed over.
    pub open spec fn hands_over(self, block: BlockId, value: Value, next: BlockId) -> bool {
        self.always_goes(block, next) && handed_over(self.end_of(block).unwrap()) == Some(value)
    }

    /// Control goes from `block` to one of two blocks: to `holds` where `value` holds, and to
    /// `fails` where it does not.
    pub open spec fn branches(
        self,
        block: BlockId,
        value: Value,
        holds: BlockId,
        fails: BlockId,
    ) -> bool {
        forall|meaning: Meaning|
            #![trigger self.goes(block, meaning, holds)]
            #![trigger self.goes(block, meaning, fails)]
            if (meaning.holds)(value) {
                self.goes(block, meaning, holds)
            } else {
                self.goes(block, meaning, fails)
            }
    }

    /// The current block is there, nothing is in it, and it has no end.
    pub open spec fn is_at_a_start(self) -> bool {
        self.has_block() && self.current().instructions.len() == 0 && !self.is_terminated()
    }

    /// The current block is there, and can be gone on with.
    pub open spec fn is_running(self) -> bool {
        self.has_block() && !self.is_terminated()
    }

    /// The code of `self` is part of that of `after`.
    pub open spec fn is_part_of(self, after: Lowering) -> bool {
        match (self.function, after.function) {
            (Some(before), Some(after)) => definition_grew(before, after),
            _ => false,
        }
    }

    /// This state, in other code and at another block.
    pub open spec fn moved_to(self, other: Lowering) -> Lowering {
        Lowering { function: other.function, block: other.block, ..self }
    }

    pub(crate) proof fn a_block_is_added(self, types: Seq<Type>)
        requires
            self.function is Some,
            self.with_block(types).1.is_numbered(),
        ensures
            ({
                let (block, after) = self.with_block(types);
                let blocks = self.function.unwrap().blocks;
                &&& kept(self, after)
                &&& block == blocks.len()
                &&& after == self.moved_to(after)
                &&& after.block == self.block
                &&& after.function is Some
                &&& after.function.unwrap().blocks == blocks.push(
                    BlockState {
                        parameter_types: types,
                        instructions: Seq::empty(),
                        terminator: None,
                    },
                )
            }),
    {
        reveal(Lowering::with_block);
        keeps_with_block(self, types);
    }

    pub(crate) proof fn a_block_ends(self, terminator: Terminator)
        requires
            self.has_block(),
        ensures
            ({
                let after = self.terminated(terminator);
                let blocks = self.function.unwrap().blocks;
                &&& kept(self, after)
                &&& after == self.moved_to(after)
                &&& after.block == self.block
                &&& after.function is Some
                &&& after.function.unwrap().blocks == if self.is_terminated() {
                    blocks
                } else {
                    blocks.update(
                        self.block as int,
                        BlockState { terminator: Some(terminator), ..self.current() },
                    )
                }
                &&& after.is_terminated()
            }),
    {
        reveal(Lowering::terminated);
        keeps_terminated(self, terminator);
    }

    /// A block that is not the current one stays as it is.
    pub(crate) proof fn a_block_stays(self, after: Lowering, block: int)
        requires
            kept(self, after),
            settled(self, after),
            self.has_block(),
            after.is_numbered(),
            0 <= block < self.block_count(),
            block != self.block,
        ensures
            after.function is Some,
            self.block_count() <= after.block_count(),
            after.has_block(),
            after.block == self.block || after.block >= self.block_count(),
            after.function.unwrap().blocks[block] == self.function.unwrap().blocks[block],
    {
        reveal(kept);
        reveal(left);
    }

    pub(crate) proof fn a_walk_goes_on(self, after: Lowering)
        requires
            kept(self, after),
            settled(self, after),
            self.has_block(),
            after.is_numbered(),
        ensures
            after.function is Some,
            self.block_count() <= after.block_count(),
            after.has_block(),
            after.block == self.block || after.block >= self.block_count(),
            self.is_part_of(after),
    {
        reveal(kept);
        reveal(left);
    }

    /// A block that ended ends so in all that follows.
    pub(crate) proof fn an_end_stays(self, after: Lowering, block: BlockId)
        requires
            kept(self, after),
            self.end_of(block) is Some,
        ensures
            after.end_of(block) == self.end_of(block),
    {
        reveal(kept);
        let before = self.function.unwrap().blocks[block as int];
        assert(crate::mir::builder::laws::block_grew(
            before,
            after.function.unwrap().blocks[block as int],
        ));
    }

    pub(crate) proof fn kept_code_is_part(self, after: Lowering)
        requires
            kept(self, after),
            self.function is Some,
        ensures
            self.is_part_of(after),
            self.block_count() <= after.block_count(),
            after.is_numbered() ==> self.is_numbered(),
    {
        reveal(kept);
    }

    /// A loop tests its condition first, runs its body where the condition holds and tests it
    /// again, and is left where it does not. `break` goes to where the loop is left, and `continue`
    /// to the test. Gives the states in which the condition and the body are lowered.
    pub proof fn law_a_loop_repeats_while_its_condition_holds(self, lower: Lower, expr: ExprId) -> (
        stages: (Lowering, Lowering))
        requires
            keeps(lower),
            self.is_running(),
            self.answers.context@.expr(expr) is While,
            self.inner_lowered(lower, expr).1.is_numbered(),
        ensures
            ({
                let condition = self.answers.context@.expr(expr)->While_condition;
                let body = self.answers.context@.expr(expr)->While_body;
                let (testing, running) = stages;
                let (value, after) = self.inner_lowered(lower, expr);
                let (cond, tested) = lower(testing, condition);
                let done = lower(running, body).1;
                &&& value == Value::Unit
                &&& testing == self.moved_to(testing)
                &&& running == (Lowering {
                    loop_targets: self.loop_targets.push((testing.block, after.block)),
                    ..tested.moved_to(running)
                })
                &&& after.loop_targets == self.loop_targets
                &&& testing.is_at_a_start()
                &&& running.is_at_a_start()
                &&& after.is_at_a_start()
                &&& testing.block != after.block && running.block != after.block && testing.block
                    != running.block
                &&& tested.is_part_of(after)
                &&& done.is_part_of(after)
                &&& after.always_goes(self.block, testing.block)
                &&& tested.is_running() ==> after.branches(
                    tested.block,
                    cond,
                    running.block,
                    after.block,
                )
                &&& done.is_running() ==> after.always_goes(done.block, testing.block)
            }),
    {
        broadcast use {kept_is_reflexive, kept_is_transitive, keeps_switched_to};

        reveal(Lowering::inner_lowered);
        reveal(Lowering::while_lowered);
        let condition = self.answers.context@.expr(expr)->While_condition;
        let body = self.answers.context@.expr(expr)->While_body;
        let after = self.inner_lowered(lower, expr).1;
        let (header, one) = self.with_block(Seq::empty());
        let (block, two) = one.with_block(Seq::empty());
        let (exit, three) = two.with_block(Seq::empty());
        keeps_with_block(self, Seq::empty());
        keeps_with_block(one, Seq::empty());
        keeps_with_block(two, Seq::empty());
        let entry = Terminator::Jmp(header, None);
        let jumped = three.terminated(entry);
        keeps_terminated(three, entry);
        let testing = jumped.switched_to(header);
        let (cond, tested) = lower(testing, condition);
        let test = Terminator::If { cond, then: block, else_: exit, end: exit };
        let decided = tested.terminated(test);
        keeps_terminated(tested, test);
        let inside = decided.switched_to(block);
        let running = inside.with_loop(header, exit);
        a_loop_is_left(lower, inside, header, exit, body);
        let done = lower(running, body).1;
        let left = done.without_loop();
        let back = left.terminated(entry);
        keeps_terminated(left, entry);
        counting_up(self, one);
        counting_up(one, after);
        counting_up(two, after);
        counting_up(three, after);
        counting_up(tested, after);
        counting_up(left, after);
        self.a_block_is_added(Seq::empty());
        one.a_block_is_added(Seq::empty());
        two.a_block_is_added(Seq::empty());
        three.a_block_ends(entry);
        jumped.an_end_stays(after, self.block);
        testing.a_block_stays(tested, block as int);
        testing.a_block_stays(tested, exit as int);
        tested.a_block_ends(test);
        tested.kept_code_is_part(after);
        decided.an_end_stays(after, tested.block);
        running.a_block_stays(done, exit as int);
        left.a_block_ends(entry);
        left.kept_code_is_part(after);
        back.an_end_stays(after, done.block);
        assert(running.loop_targets == self.loop_targets.push((header, exit))
            && after.loop_targets == self.loop_targets) by {
            reveal(kept);
            reveal(carried);
        }
        (testing, running)
    }
}

/// `exprs` are lowered one after the other: `states` are those before each of them, and the one
/// behind the last, and `values` are what they give.
pub open spec fn is_chain(
    lower: Lower,
    exprs: Seq<ExprId>,
    states: Seq<Lowering>,
    values: Seq<Value>,
) -> bool {
    &&& states.len() == exprs.len() + 1
    &&& values.len() == exprs.len()
    &&& forall|i: int|
        #![trigger exprs[i]]
        0 <= i < exprs.len() ==> lower(states[i], exprs[i]) == (values[i], states[i + 1])
}

/// `exprs` are lowered one after the other, from `first` to `last`, and give `values`.
pub open spec fn are_run(
    lower: Lower,
    exprs: Seq<ExprId>,
    first: Lowering,
    last: Lowering,
    values: Seq<Value>,
) -> bool {
    exists|states: Seq<Lowering>| #[trigger]
        is_chain(lower, exprs, states, values) && states[0] == first && states.last() == last
}

impl Lowering {
    proof fn all_are_run(self, lower: Lower, exprs: Seq<ExprId>, count: int)
        requires
            0 <= count <= exprs.len(),
        ensures
            are_run(
                lower,
                exprs.take(count),
                self,
                self.all_lowered(lower, exprs, count).1,
                self.all_lowered(lower, exprs, count).0,
            ),
        decreases count,
    {
        reveal_with_fuel(Lowering::all_lowered, 2);
        if count > 0 {
            self.all_are_run(lower, exprs, count - 1);
            let (values, made) = self.all_lowered(lower, exprs, count - 1);
            let earlier = exprs.take(count - 1);
            let states = choose|states: Seq<Lowering>| #[trigger]
                is_chain(lower, earlier, states, values) && states[0] == self && states.last()
                    == made;
            let (value, next) = lower(made, exprs[count - 1]);
            let more = states.push(next);
            let given = values.push(value);
            let now = exprs.take(count);
            assert forall|i: int|
                #![trigger now[i]]
                0 <= i < now.len() implies lower(more[i], now[i]) == (given[i], more[i + 1]) by {
                if i < count - 1 {
                    assert(earlier[i] == now[i]);
                }
            }
            assert(is_chain(lower, now, more, given));
        } else {
            assert(is_chain(lower, exprs.take(0), seq![self], Seq::<Value>::empty()));
        }
    }

    /// Expressions that are lowered together are lowered one after the other, in the order they are
    /// listed in, and give their values in that order.
    pub proof fn law_expressions_run_in_order(self, lower: Lower, exprs: Seq<ExprId>)
        ensures
            ({
                let (values, after) = self.all_lowered(lower, exprs, exprs.len() as int);
                are_run(lower, exprs, self, after, values)
            }),
    {
        self.all_are_run(lower, exprs, exprs.len() as int);
        assert(exprs.take(exprs.len() as int) =~= exprs);
    }

    /// The items of a sequence run one after the other, and its value is that of the last.
    pub proof fn law_a_sequence_runs_its_items(self, lower: Lower, expr: ExprId) -> (values: Seq<
        Value,
    >)
        requires
            self.answers.context@.expr(expr) is Sequence,
        ensures
            ({
                let items = self.answers.context@.expr(expr)->Sequence_0;
                let (value, after) = self.inner_lowered(lower, expr);
                &&& are_run(lower, items, self, after, values)
                &&& value == if items.len() == 0 {
                    Value::Unit
                } else {
                    values.last()
                }
            }),
    {
        reveal(Lowering::inner_lowered);
        reveal(Lowering::sequence_lowered);
        let items = self.answers.context@.expr(expr)->Sequence_0;
        self.law_expressions_run_in_order(lower, items);
        self.all_lowered(lower, items, items.len() as int).0
    }

    /// The last instruction of the current block.
    pub open spec fn last_operation(self) -> Option<Operation> {
        if self.has_block() && self.current().instructions.len() > 0
            && self.current().instructions.last() < self.function.unwrap().instructions.len() {
            Some(
                self.function.unwrap().instructions[self.current().instructions.last() as int],
            )
        } else {
            None
        }
    }

    /// The current block of `after` is that of this state with one more instruction, which gives
    /// `value`, and nothing else changed.
    pub open spec fn does(self, operation: Operation, value: Value, after: Lowering) -> bool {
        &&& after == self.moved_to(after)
        &&& after.block == self.block
        &&& after.function is Some
        &&& after.function.unwrap().instructions == self.function.unwrap().instructions.push(
            operation,
        )
        &&& value == Value::InstructionResult(
            self.function.unwrap().instructions.len() as u32,
        )
        &&& after.function.unwrap().blocks == self.function.unwrap().blocks.update(
            self.block as int,
            BlockState {
                instructions: self.current().instructions.push(
                    self.function.unwrap().instructions.len() as u32,
                ),
                ..self.current()
            },
        )
    }

    pub(crate) proof fn pushing_does(self, operation: Operation, typ: Type)
        requires
            self.is_running(),
        ensures
            self.does(operation, self.pushed(operation, typ).0, self.pushed(operation, typ).1),
            self.pushed(operation, typ).1.is_running(),
    {
        reveal(Lowering::pushed);
    }

    /// An array is made of the values of its elements, which run one after the other.
    pub proof fn law_an_array_holds_its_elements(self, lower: Lower, expr: ExprId) -> (ready: (
        Seq<Value>,
        Lowering,
    ))
        requires
            self.answers.context@.expr(expr) is ArrayLiteral,
        ensures
            ({
                let elements = self.answers.context@.expr(expr)->ArrayLiteral_0;
                let (values, filled) = ready;
                let (value, after) = self.inner_lowered(lower, expr);
                &&& are_run(lower, elements, self, filled, values)
                &&& filled.is_running() ==> filled.does(
                    Operation::MakeArray(values),
                    value,
                    after,
                )
            }),
    {
        reveal(Lowering::inner_lowered);
        reveal(Lowering::array_lowered);
        let elements = self.answers.context@.expr(expr)->ArrayLiteral_0;
        self.law_expressions_run_in_order(lower, elements);
        let (values, filled) = self.all_lowered(lower, elements, elements.len() as int);
        if filled.is_running() {
            filled.pushing_does(
                Operation::MakeArray(values),
                self.layout(self.expr_type(expr)),
            );
        }
        (values, filled)
    }

    /// A `break` leaves the innermost loop, and a `continue` starts it anew, once the drops of the
    /// scopes it leaves have run.
    pub proof fn law_break_leaves_and_continue_repeats(self, lower: Lower, expr: ExprId) -> (ready: (
        Seq<Value>,
        Lowering,
    ))
        requires
            keeps(lower),
            self.loop_targets.len() > 0,
            self.answers.context@.expr(expr) is Break || self.answers.context@.expr(
                expr,
            ) is Continue,
        ensures
            ({
                let context = self.answers.context@;
                let drops = if context.pre_exit_drops.contains_key(expr) {
                    context.pre_exit_drops[expr]
                } else {
                    Seq::empty()
                };
                let (values, dropped) = ready;
                let after = self.inner_lowered(lower, expr).1;
                let (again, out) = self.loop_targets.last();
                &&& are_run(lower, drops, self, dropped, values)
                &&& dropped.is_running() ==> after.always_goes(
                    dropped.block,
                    if context.expr(expr) is Break {
                        out
                    } else {
                        again
                    },
                )
                &&& dropped.is_part_of(after) || dropped.function is None
            }),
    {
        broadcast use crate::mir::builder::laws::keeps_all_lowered;

        reveal(Lowering::inner_lowered);
        reveal(Lowering::exit_lowered);
        let context = self.answers.context@;
        let drops = crate::cst::ContextState::drops_in(context.pre_exit_drops, expr);
        self.law_expressions_run_in_order(lower, drops);
        let (values, dropped) = self.all_lowered(lower, drops, drops.len() as int);
        assert(kept(self, dropped));
        assert(dropped.loop_targets == self.loop_targets) by {
            reveal(kept);
            reveal(carried);
        }
        let (again, out) = self.loop_targets.last();
        let jump = Terminator::Jmp(
            if context.expr(expr) is Break {
                out
            } else {
                again
            },
            None,
        );
        keeps_terminated(dropped, jump);
        if dropped.function is Some {
            dropped.kept_code_is_part(dropped.terminated(jump));
        }
        if dropped.is_running() {
            dropped.a_block_ends(jump);
        }
        (values, dropped)
    }

    /// A `return` returns the value of its expression, once the drops of the scopes it leaves have
    /// run.
    pub proof fn law_a_return_returns_its_value(self, lower: Lower, expr: ExprId) -> (ready: (
        Seq<Value>,
        Lowering,
    ))
        requires
            self.answers.context@.expr(expr) is Return,
        ensures
            ({
                let context = self.answers.context@;
                let expression = context.expr(expr)->Return_expression;
                let drops = if context.pre_exit_drops.contains_key(expression) {
                    context.pre_exit_drops[expression]
                } else {
                    Seq::empty()
                };
                let (values, dropped) = ready;
                let (value, evaluated) = lower(self, expression);
                let after = self.inner_lowered(lower, expr).1;
                &&& are_run(lower, drops, evaluated, dropped, values)
                &&& dropped.is_running() ==> after.end_of(dropped.block) == Some(
                    Terminator::Return(value),
                )
            }),
    {
        reveal(Lowering::inner_lowered);
        reveal(Lowering::return_lowered);
        let context = self.answers.context@;
        let expression = context.expr(expr)->Return_expression;
        let drops = crate::cst::ContextState::drops_in(context.pre_exit_drops, expression);
        let (value, evaluated) = lower(self, expression);
        evaluated.law_expressions_run_in_order(lower, drops);
        let (values, dropped) = evaluated.all_lowered(lower, drops, drops.len() as int);
        if dropped.is_running() {
            dropped.a_block_ends(Terminator::Return(value));
        }
        (values, dropped)
    }

    /// An `if` evaluates its condition, runs its first branch where the condition holds and the
    /// other one where it does not, and goes on behind both with the value of the branch that ran.
    /// Gives the states in which the branches are lowered.
    pub proof fn law_an_if_runs_the_branch_of_its_condition(self, lower: Lower, expr: ExprId) -> (
        stages: (Lowering, Lowering))
        requires
            keeps(lower),
            self.is_running(),
            self.answers.context@.expr(expr) matches ExprForm::If { else_expr, .. } && else_expr
                is Some,
            self.inner_lowered(lower, expr).1.is_numbered(),
        ensures
            ({
                let form = self.answers.context@.expr(expr);
                let (first, second) = stages;
                let (value, after) = self.inner_lowered(lower, expr);
                let (cond, tested) = lower(self, form->If_condition);
                let (then_value, then_done) = lower(first, form->If_then_expr);
                let (else_value, else_done) = lower(second, form->If_else_expr.unwrap());
                &&& first == tested.moved_to(first)
                &&& second == then_done.moved_to(second)
                &&& first.is_at_a_start()
                &&& second.is_at_a_start()
                &&& after.is_at_a_start()
                &&& first.block != second.block && first.block != after.block && second.block
                    != after.block
                &&& tested.is_part_of(after)
                &&& then_done.is_part_of(after)
                &&& else_done.is_part_of(after)
                &&& tested.is_running() ==> after.branches(
                    tested.block,
                    cond,
                    first.block,
                    second.block,
                )
                &&& then_done.is_running() ==> after.hands_over(
                    then_done.block,
                    then_value,
                    after.block,
                )
                &&& else_done.is_running() ==> after.hands_over(
                    else_done.block,
                    else_value,
                    after.block,
                )
                &&& value == Value::Parameter(after.block, 0)
                &&& after.current().parameter_types.len() == 1
            }),
    {
        broadcast use {kept_is_reflexive, kept_is_transitive, keeps_switched_to};

        reveal(Lowering::inner_lowered);
        reveal(Lowering::if_lowered);
        let form = self.answers.context@.expr(expr);
        let after = self.inner_lowered(lower, expr).1;
        let none = Seq::<Type>::empty();
        let (cond, tested) = lower(self, form->If_condition);
        let (then, one) = tested.with_block(none);
        let (else_, two) = one.with_block(none);
        let (end, three) = two.with_block(none);
        keeps_with_block(tested, none);
        keeps_with_block(one, none);
        keeps_with_block(two, none);
        let test = Terminator::If { cond, then, else_, end };
        let decided = three.terminated(test);
        keeps_terminated(three, test);
        let first = decided.switched_to(then);
        let (then_value, then_done) = lower(first, form->If_then_expr);
        let jump = Terminator::Jmp(end, Some(then_value));
        let jumped = then_done.terminated(jump);
        keeps_terminated(then_done, jump);
        let second = jumped.switched_to(else_);
        let (else_value, else_done) = lower(second, form->If_else_expr.unwrap());
        let last = Terminator::Jmp(end, Some(else_value));
        let joined = else_done.terminated(last);
        keeps_terminated(else_done, last);
        let ended = joined.switched_to(end);
        let layout = self.layout(self.expr_type(expr));
        keeps_with_parameter(ended, layout);
        assert(after == ended.with_parameter(layout));
        counting_up(tested, after);
        counting_up(one, after);
        counting_up(two, after);
        counting_up(three, after);
        counting_up(then_done, after);
        counting_up(else_done, after);
        self.a_walk_goes_on(tested);
        tested.a_block_is_added(none);
        one.a_block_is_added(none);
        two.a_block_is_added(none);
        three.a_block_ends(test);
        tested.kept_code_is_part(after);
        decided.an_end_stays(after, tested.block);
        first.a_block_stays(then_done, else_ as int);
        first.a_block_stays(then_done, end as int);
        then_done.a_block_ends(jump);
        then_done.kept_code_is_part(after);
        jumped.an_end_stays(after, then_done.block);
        second.a_block_stays(else_done, end as int);
        else_done.a_block_ends(last);
        else_done.kept_code_is_part(after);
        joined.an_end_stays(after, else_done.block);
        reveal(Lowering::with_parameter);
        (first, second)
    }

    /// An `if` without `else` runs its branch where its condition holds. Where it does not, only the
    /// drops of that edge run, if there are any. Gives the state in which the branch is lowered, and
    /// those around the drops.
    pub proof fn law_an_if_without_else_may_run_nothing(self, lower: Lower, expr: ExprId) -> (
        stages: (Lowering, Lowering, Lowering, Seq<Value>))
        requires
            keeps(lower),
            self.is_running(),
            self.answers.context@.expr(expr) matches ExprForm::If { else_expr, .. } && else_expr
                is None,
            self.inner_lowered(lower, expr).1.is_numbered(),
        ensures
            ({
                let context = self.answers.context@;
                let form = context.expr(expr);
                let (first, edge, dropped, values) = stages;
                let (value, after) = self.inner_lowered(lower, expr);
                let (cond, tested) = lower(self, form->If_condition);
                let then_done = lower(first, form->If_then_expr).1;
                &&& first == tested.moved_to(first)
                &&& first.is_at_a_start()
                &&& after.is_at_a_start()
                &&& first.block != after.block
                &&& tested.is_part_of(after)
                &&& then_done.is_part_of(after)
                &&& then_done.is_running() ==> after.always_goes(then_done.block, after.block)
                &&& value == Value::Unit
                &&& if context.implicit_else_drops.contains_key(expr) {
                    &&& edge == then_done.moved_to(edge)
                    &&& edge.is_at_a_start()
                    &&& edge.block != first.block && edge.block != after.block
                    &&& are_run(lower, context.implicit_else_drops[expr], edge, dropped, values)
                    &&& dropped.is_part_of(after)
                    &&& tested.is_running() ==> after.branches(
                        tested.block,
                        cond,
                        first.block,
                        edge.block,
                    )
                    &&& dropped.is_running() ==> after.always_goes(dropped.block, after.block)
                } else {
                    tested.is_running() ==> after.branches(
                        tested.block,
                        cond,
                        first.block,
                        after.block,
                    )
                }
            }),
    {
        broadcast use {
            kept_is_reflexive,
            kept_is_transitive,
            keeps_switched_to,
            crate::mir::builder::laws::keeps_all_lowered,
        };

        reveal(Lowering::inner_lowered);
        reveal(Lowering::if_lowered);
        let context = self.answers.context@;
        let form = context.expr(expr);
        let after = self.inner_lowered(lower, expr).1;
        let none = Seq::<Type>::empty();
        let has_drops = context.implicit_else_drops.contains_key(expr);
        let (cond, tested) = lower(self, form->If_condition);
        let (then, one) = tested.with_block(none);
        let (else_, two) = one.with_block(none);
        let (end, three) = if has_drops {
            two.with_block(none)
        } else {
            (else_, two)
        };
        keeps_with_block(tested, none);
        keeps_with_block(one, none);
        keeps_with_block(two, none);
        let test = Terminator::If { cond, then, else_, end };
        let decided = three.terminated(test);
        keeps_terminated(three, test);
        let first = decided.switched_to(then);
        let then_done = lower(first, form->If_then_expr).1;
        let jump = Terminator::Jmp(end, None);
        let jumped = then_done.terminated(jump);
        keeps_terminated(then_done, jump);
        let edge = jumped.switched_to(else_);
        let drops = context.implicit_else_drops[expr];
        let (values, dropped) = edge.all_lowered(lower, drops, drops.len() as int);
        let joined = dropped.terminated(jump);
        keeps_terminated(dropped, jump);
        counting_up(tested, after);
        counting_up(one, after);
        counting_up(two, after);
        counting_up(three, after);
        counting_up(then_done, after);
        self.a_walk_goes_on(tested);
        tested.a_block_is_added(none);
        one.a_block_is_added(none);
        if has_drops {
            two.a_block_is_added(none);
        }
        three.a_block_ends(test);
        tested.kept_code_is_part(after);
        decided.an_end_stays(after, tested.block);
        first.a_block_stays(then_done, else_ as int);
        first.a_block_stays(then_done, end as int);
        then_done.a_block_ends(jump);
        then_done.kept_code_is_part(after);
        jumped.an_end_stays(after, then_done.block);
        if has_drops {
            edge.law_expressions_run_in_order(lower, drops);
            counting_up(dropped, after);
            edge.a_block_stays(dropped, end as int);
            dropped.a_block_ends(jump);
            dropped.kept_code_is_part(after);
            joined.an_end_stays(after, dropped.block);
        }
        (first, edge, dropped, values)
    }
}

/// The constant is the number one, of the given kind.
pub open spec fn is_one(constant: IntConstant, kind: IntegerKind) -> bool {
    match (kind, constant) {
        (IntegerKind::I8, IntConstant::I8(n)) => n == 1,
        (IntegerKind::I16, IntConstant::I16(n)) => n == 1,
        (IntegerKind::I32, IntConstant::I32(n)) => n == 1,
        (IntegerKind::I64, IntConstant::I64(n)) => n == 1,
        (IntegerKind::Isz, IntConstant::Isz(n)) => n == 1,
        (IntegerKind::U8, IntConstant::U8(n)) => n == 1,
        (IntegerKind::U16, IntConstant::U16(n)) => n == 1,
        (IntegerKind::U32, IntConstant::U32(n)) => n == 1,
        (IntegerKind::U64, IntConstant::U64(n)) => n == 1,
        (IntegerKind::Usz, IntConstant::Usz(n)) => n == 1,
        _ => false,
    }
}

/// The comparison of two numbers of the kind that holds where the first is lower.
pub open spec fn lower_than(kind: IntegerKind, first: Value, second: Value) -> Operation {
    match kind {
        IntegerKind::I8
        | IntegerKind::I16
        | IntegerKind::I32
        | IntegerKind::I64
        | IntegerKind::Isz => Operation::LessSigned(first, second),
        IntegerKind::U8
        | IntegerKind::U16
        | IntegerKind::U32
        | IntegerKind::U64
        | IntegerKind::Usz => Operation::LessUnsigned(first, second),
    }
}

/// What the tag of a value is where the case is the one of the value.
pub open spec fn tag_number(constructor: Constructor) -> Option<int> {
    match constructor {
        Constructor::False => Some(0),
        Constructor::True => Some(1),
        Constructor::Unit => Some(0),
        Constructor::Int(value) => Some(value as u32 as int),
        Constructor::Variant(index) => Some(index as int),
        Constructor::Range(_, _) => None,
    }
}

proof fn the_first_edge_is_taken(
    edges: Seq<(u32, (BlockId, Option<Value>))>,
    number: int,
    index: int,
)
    requires
        0 <= index <= edges.len(),
        forall|i: int| 0 <= i < index ==> (#[trigger] edges[i]).0 != number,
        index < edges.len() ==> edges[index].0 == number,
    ensures
        edge_for(edges, number) == if index < edges.len() {
            Some(index)
        } else {
            None
        },
    decreases edges.len(),
{
    if index > 0 {
        let rest = edges.drop_first();
        assert(edges[0].0 != number);
        assert forall|i: int| 0 <= i < index - 1 implies (#[trigger] rest[i]).0 != number by {
            assert(rest[i] == edges[i + 1]);
        }
        the_first_edge_is_taken(rest, number, index - 1);
    }
}

impl Lowering {
    /// A loop over a range evaluates its bounds in order, and starts its variable at the first.
    /// It runs its body where the variable is lower than the second, counts the variable up by one
    /// and tests it again, and is left where it is not. `break` goes to where the loop is left, and
    /// `continue` to where it counts. Gives the states in which it tests, in which the body is
    /// lowered and in which it counts.
    pub proof fn law_a_loop_counts_through_its_range(
        self,
        lower: Lower,
        expr: ExprId,
        kind: IntegerKind,
    ) -> (stages: (Lowering, Lowering, Lowering))
        requires
            keeps(lower),
            self.is_running(),
            self.answers.context@.expr(expr) matches ExprForm::For { start, .. } && self.layout(
                self.expr_type(start),
            ) == Type::Primitive(PrimitiveType::Int(kind)),
            lower(
                lower(self, self.answers.context@.expr(expr)->For_start).1,
                self.answers.context@.expr(expr)->For_end,
            ).1.is_running(),
            self.inner_lowered(lower, expr).1.is_numbered(),
        ensures
            ({
                let form = self.answers.context@.expr(expr);
                let variable = form->For_variable;
                let (testing, running, counting) = stages;
                let (value, after) = self.inner_lowered(lower, expr);
                let (first, at_first) = lower(self, form->For_start);
                let (last, ready) = lower(at_first, form->For_end);
                let current = Value::Parameter(testing.block, 0);
                let done = lower(running, form->For_body).1;
                &&& value == Value::Unit
                &&& after.loop_targets == self.loop_targets
                &&& testing == (Lowering {
                    locals: ready.locals.insert(variable, current),
                    ..ready.moved_to(testing)
                })
                &&& testing.is_at_a_start()
                &&& testing.current().parameter_types == seq![
                    Type::Primitive(PrimitiveType::Int(kind)),
                ]
                &&& after.hands_over(ready.block, first, testing.block)
                &&& exists|tested: Lowering, cond: Value|
                    {
                        &&& #[trigger] testing.does(
                            lower_than(kind, current, last),
                            cond,
                            tested,
                        )
                        &&& tested.is_part_of(after)
                        &&& after.branches(testing.block, cond, running.block, after.block)
                        &&& running == (Lowering {
                            loop_targets: self.loop_targets.push((counting.block, after.block)),
                            ..tested.moved_to(running)
                        })
                    }
                &&& running.is_at_a_start()
                &&& counting.is_at_a_start()
                &&& after.is_at_a_start()
                &&& done.is_part_of(after)
                &&& done.is_running() ==> after.always_goes(done.block, counting.block)
                &&& exists|counted: Lowering, next: Value, one: IntConstant|
                    {
                        &&& #[trigger] counting.does(
                            Operation::AddInt(current, Value::Integer(one)),
                            next,
                            counted,
                        )
                        &&& is_one(one, kind)
                        &&& counted.is_part_of(after)
                        &&& after.hands_over(counting.block, next, testing.block)
                    }
            }),
    {
        broadcast use {kept_is_reflexive, kept_is_transitive, keeps_switched_to};

        reveal(Lowering::inner_lowered);
        reveal(Lowering::for_lowered);
        reveal(Lowering::counted_loop);
        let form = self.answers.context@.expr(expr);
        let variable = form->For_variable;
        let after = self.inner_lowered(lower, expr).1;
        let typ = Type::Primitive(PrimitiveType::Int(kind));
        let none = Seq::<Type>::empty();
        let (first, at_first) = lower(self, form->For_start);
        let (last, ready) = lower(at_first, form->For_end);
        let (header, one) = ready.with_block(seq![typ]);
        let (block, two) = one.with_block(none);
        let (step, three) = two.with_block(none);
        let (exit, four) = three.with_block(none);
        keeps_with_block(ready, seq![typ]);
        keeps_with_block(one, none);
        keeps_with_block(two, none);
        keeps_with_block(three, none);
        let current = Value::Parameter(header, 0);
        let named = four.with_local(variable, current);
        keeps_with_local(four, variable, current);
        let entry = Terminator::Jmp(header, Some(first));
        let jumped = named.terminated(entry);
        keeps_terminated(named, entry);
        let testing = jumped.switched_to(header);
        let less = lower_than(kind, current, last);
        let (cond, tested) = testing.pushed(less, Type::boolean());
        keeps_pushed(testing, less, Type::boolean());
        let test = Terminator::If { cond, then: block, else_: exit, end: exit };
        let decided = tested.terminated(test);
        keeps_terminated(tested, test);
        let inside = decided.switched_to(block);
        let running = inside.with_loop(step, exit);
        a_loop_is_left(lower, inside, step, exit, form->For_body);
        let done = lower(running, form->For_body).1;
        let left = done.without_loop();
        let jump = Terminator::Jmp(step, None);
        let worked = left.terminated(jump);
        keeps_terminated(left, jump);
        let counting = worked.switched_to(step);
        let unit = crate::mir::builder::patterns::constant(
            crate::cst::Integer { magnitude: 1, negative: false },
            kind,
        );
        let add = Operation::AddInt(current, Value::Integer(unit));
        let (next, counted) = counting.pushed(add, typ);
        keeps_pushed(counting, add, typ);
        let back = Terminator::Jmp(header, Some(next));
        let repeated = counted.terminated(back);
        keeps_terminated(counted, back);
        assert(after == repeated.switched_to(exit));
        counting_up(ready, after);
        counting_up(at_first, after);
        counting_up(one, after);
        counting_up(two, after);
        counting_up(three, after);
        counting_up(four, after);
        counting_up(tested, after);
        counting_up(left, after);
        counting_up(counted, after);
        ready.a_block_is_added(seq![typ]);
        one.a_block_is_added(none);
        two.a_block_is_added(none);
        three.a_block_is_added(none);
        named.a_block_ends(entry);
        jumped.an_end_stays(after, ready.block);
        testing.pushing_does(less, Type::boolean());
        tested.a_block_ends(test);
        tested.kept_code_is_part(after);
        decided.an_end_stays(after, header);
        running.a_block_stays(done, step as int);
        running.a_block_stays(done, exit as int);
        left.a_block_ends(jump);
        left.kept_code_is_part(after);
        worked.an_end_stays(after, done.block);
        counting.pushing_does(add, typ);
        counted.a_block_ends(back);
        counted.kept_code_is_part(after);
        repeated.an_end_stays(after, step);
        assert(running.loop_targets == self.loop_targets.push((step, exit)) && after.loop_targets
            == self.loop_targets) by {
            reveal(kept);
            reveal(carried);
        }
        assert(is_one(unit, kind)) by {
            one_is_one(kind);
        }
        (testing, running, counting)
    }

    /// A guarded case runs where its guard holds, and the tests that remain are made where it does
    /// not. Control goes on behind both, with the value of what ran. Gives the states in which the
    /// guard, the case and the remaining tests are lowered.
    pub proof fn law_a_guarded_case_runs_where_its_guard_holds(
        self,
        lower: Lower,
        tree: DecisionTree,
        match_expr: ExprId,
        depth: nat,
    ) -> (stages: (Lowering, Lowering, Lowering))
        requires
            keeps(lower),
            depth > 0,
            self.is_running(),
            tree is Guard,
            self.tree_lowered(lower, tree, match_expr, depth).1.is_numbered(),
        ensures
            ({
                let (testing, chosen, remaining) = stages;
                let (value, after) = self.tree_lowered(lower, tree, match_expr, depth);
                let (cond, tested) = lower(testing, tree->condition);
                let (found, found_done) = lower(chosen, tree->success);
                let (other, other_done) = remaining.tree_lowered(
                    lower,
                    *tree->otherwise,
                    match_expr,
                    (depth - 1) as nat,
                );
                &&& testing == self.moved_to(testing)
                &&& testing.block == self.block
                &&& testing.current() == self.current()
                &&& chosen == tested.moved_to(chosen)
                &&& remaining == found_done.moved_to(remaining)
                &&& chosen.is_at_a_start()
                &&& remaining.is_at_a_start()
                &&& after.is_at_a_start()
                &&& chosen.block != remaining.block && chosen.block != after.block
                    && remaining.block != after.block
                &&& tested.is_part_of(after)
                &&& found_done.is_part_of(after)
                &&& other_done.is_part_of(after)
                &&& tested.is_running() ==> after.branches(
                    tested.block,
                    cond,
                    chosen.block,
                    remaining.block,
                )
                &&& found_done.is_running() ==> after.hands_over(
                    found_done.block,
                    found,
                    after.block,
                )
                &&& other_done.is_running() ==> after.hands_over(
                    other_done.block,
                    other,
                    after.block,
                )
                &&& value == Value::Parameter(after.block, 0)
                &&& after.current().parameter_types.len() == 1
            }),
    {
        broadcast use {kept_is_reflexive, kept_is_transitive, keeps_switched_to};

        reveal_with_fuel(Lowering::tree_lowered, 2);
        reveal_with_fuel(Lowering::guard_lowered, 2);
        let inner = (depth - 1) as nat;
        let none = Seq::<Type>::empty();
        let after = self.tree_lowered(lower, tree, match_expr, depth).1;
        let (condition, success, otherwise) = match tree {
            DecisionTree::Guard { condition, success, otherwise } => (
                condition,
                success,
                *otherwise,
            ),
            _ => (0, 0, tree),
        };
        assert(after == self.guard_lowered(
            lower,
            condition,
            success,
            otherwise,
            match_expr,
            inner,
        ).1);
        let (then, one) = self.with_block(none);
        let (else_, two) = one.with_block(none);
        let types = seq![two.layout(two.expr_type(match_expr))];
        let (end, testing) = two.with_block(types);
        keeps_with_block(self, none);
        keeps_with_block(one, none);
        keeps_with_block(two, types);
        let (cond, tested) = lower(testing, condition);
        let test = Terminator::If { cond, then, else_, end: else_ };
        let decided = tested.terminated(test);
        keeps_terminated(tested, test);
        let chosen = decided.switched_to(then);
        let (found, found_done) = lower(chosen, success);
        let jump = Terminator::Jmp(end, Some(found));
        let jumped = found_done.terminated(jump);
        keeps_terminated(found_done, jump);
        let remaining = jumped.switched_to(else_);
        keeps_tree_lowered(remaining, lower, otherwise, match_expr, inner);
        let (other, other_done) = remaining.tree_lowered(lower, otherwise, match_expr, inner);
        let last = Terminator::Jmp(end, Some(other));
        let joined = other_done.terminated(last);
        keeps_terminated(other_done, last);
        assert(after == joined.switched_to(end));
        counting_up(one, after);
        counting_up(two, after);
        counting_up(testing, after);
        counting_up(tested, after);
        counting_up(found_done, after);
        counting_up(other_done, after);
        self.a_block_is_added(none);
        one.a_block_is_added(none);
        two.a_block_is_added(types);
        testing.a_block_stays(tested, then as int);
        testing.a_block_stays(tested, else_ as int);
        testing.a_block_stays(tested, end as int);
        tested.a_block_ends(test);
        tested.kept_code_is_part(after);
        decided.an_end_stays(after, tested.block);
        chosen.a_block_stays(found_done, else_ as int);
        chosen.a_block_stays(found_done, end as int);
        found_done.a_block_ends(jump);
        found_done.kept_code_is_part(after);
        jumped.an_end_stays(after, found_done.block);
        remaining.a_block_stays(other_done, end as int);
        other_done.a_block_ends(last);
        other_done.kept_code_is_part(after);
        joined.an_end_stays(after, other_done.block);
        (testing, chosen, remaining)
    }

    proof fn keyed_blocks_are_added(self, cases: Seq<Case>, count: int)
        requires
            self.function is Some,
            0 <= count <= cases.len(),
            self.with_keyed_blocks(cases, count).1.is_numbered(),
        ensures
            ({
                let (edges, after) = self.with_keyed_blocks(cases, count);
                let blocks = self.function.unwrap().blocks;
                &&& kept(self, after)
                &&& edges.len() == count
                &&& after.function is Some
                &&& after.block == self.block
                &&& after.locals == self.locals
                &&& after.block_count() == self.block_count() + count
                &&& forall|b: int|
                    0 <= b < self.block_count() ==> #[trigger] after.function.unwrap().blocks[b]
                        == blocks[b]
                &&& forall|i: int|
                    0 <= i < count ==> {
                        &&& (#[trigger] edges[i]).1.0 == self.block_count() + i
                        &&& tag_number(cases[i].constructor) matches Some(number) ==> edges[i].0
                            == number
                    }
                &&& forall|b: int|
                    self.block_count() <= b < after.block_count() ==> {
                        &&& (#[trigger] after.function.unwrap().blocks[b]).instructions.len() == 0
                        &&& after.function.unwrap().blocks[b].terminator is None
                    }
            }),
        decreases count,
    {
        broadcast use {kept_is_reflexive, kept_is_transitive, keeps_fails, keeps_with_block};

        reveal_with_fuel(Lowering::with_keyed_blocks, 2);
        keeps_with_keyed_blocks(self, cases, count);
        if count > 0 {
            let (edges, made) = self.with_keyed_blocks(cases, count - 1);
            keeps_with_keyed_blocks(self, cases, count - 1);
            let ready = match crate::mir::builder::matches::case_key(
                cases[count - 1].constructor,
            ) {
                Some(_) => made,
                None => made.fails(),
            };
            let after = ready.with_block(Seq::empty()).1;
            counting_up(made, ready);
            counting_up(ready, after);
            self.keyed_blocks_are_added(cases, count - 1);
            ready.a_block_is_added(Seq::empty());
        }
    }

    proof fn cases_leave_others(
        self,
        lower: Lower,
        value: Value,
        cases: Seq<Case>,
        edges: Seq<(u32, (BlockId, Option<Value>))>,
        end: BlockId,
        match_expr: ExprId,
        count: int,
        depth: nat,
    )
        requires
            keeps(lower),
            0 <= count <= cases.len(),
            self.function is Some,
            0 <= end - cases.len(),
            end < self.block_count(),
            forall|i: int|
                0 <= i < cases.len() ==> (#[trigger] edges[i]).1.0 == end - cases.len() + i,
            self.cases_lowered(
                lower,
                value,
                cases,
                edges,
                end,
                match_expr,
                count,
                depth,
            ).is_numbered(),
        ensures
            ({
                let after = self.cases_lowered(
                    lower,
                    value,
                    cases,
                    edges,
                    end,
                    match_expr,
                    count,
                    depth,
                );
                let low = end - cases.len();
                &&& kept(self, after)
                &&& after.function is Some
                &&& self.block_count() <= after.block_count()
                &&& forall|b: int|
                    0 <= b < self.block_count() && !(low <= b < low + count) ==> (
                    #[trigger] after.function.unwrap().blocks[b]) == self.function.unwrap().blocks[b]
            }),
        decreases count,
    {
        broadcast use {
            kept_is_reflexive,
            kept_is_transitive,
            settled_is_transitive,
            settled_is_reflexive,
            keeps_switched_to,
            keeps_variant_of,
            keeps_payloads_bound,
            keeps_fails,
            keeps_terminated,
        };

        reveal_with_fuel(Lowering::cases_lowered, 2);
        if count > 0 {
            let made = self.cases_lowered(
                lower,
                value,
                cases,
                edges,
                end,
                match_expr,
                count - 1,
                depth,
            );
            let after = self.cases_lowered(
                lower,
                value,
                cases,
                edges,
                end,
                match_expr,
                count,
                depth,
            );
            let case = cases[count - 1];
            let block = edges[count - 1].1.0;
            let inside = made.switched_to(block);
            let entered = made.case_entered(block, value, case.constructor, case.arguments@);
            assert(kept(inside, entered) && settled(inside, entered)) by {
                reveal(Lowering::case_entered);
            }
            keeps_tree_lowered(entered, lower, case.body, match_expr, depth);
            let (result, done) = entered.tree_lowered(lower, case.body, match_expr, depth);
            let jump = Terminator::Jmp(end, Some(result));
            assert(after == done.terminated(jump));
            counting_up(made, after);
            counting_up(done, after);
            self.cases_leave_others(
                lower,
                value,
                cases,
                edges,
                end,
                match_expr,
                count - 1,
                depth,
            );
            inside.a_walk_goes_on(done);
            done.a_block_ends(jump);
            let low = end - cases.len();
            assert forall|b: int|
                0 <= b < self.block_count() && !(low <= b < low + count) implies (
            #[trigger] after.function.unwrap().blocks[b]) == self.function.unwrap().blocks[b] by {
                inside.a_block_stays(done, b);
                assert(made.function.unwrap().blocks[b] == self.function.unwrap().blocks[b]);
            }
        }
    }

    proof fn one_case_is_lowered(
        self,
        lower: Lower,
        value: Value,
        cases: Seq<Case>,
        edges: Seq<(u32, (BlockId, Option<Value>))>,
        end: BlockId,
        match_expr: ExprId,
        count: int,
        depth: nat,
        index: int,
    )
        requires
            keeps(lower),
            0 <= index < count <= cases.len(),
            self.function is Some,
        ensures
            kept(
                self.cases_lowered(
                    lower,
                    value,
                    cases,
                    edges,
                    end,
                    match_expr,
                    index + 1,
                    depth,
                ),
                self.cases_lowered(lower, value, cases, edges, end, match_expr, count, depth),
            ),
        decreases count,
    {
        broadcast use {
            kept_is_reflexive,
            kept_is_transitive,
            keeps_case_entered,
            keeps_terminated,
        };

        reveal_with_fuel(Lowering::cases_lowered, 2);
        if index + 1 < count {
            self.one_case_is_lowered(
                lower,
                value,
                cases,
                edges,
                end,
                match_expr,
                count - 1,
                depth,
                index,
            );
            let made = self.cases_lowered(
                lower,
                value,
                cases,
                edges,
                end,
                match_expr,
                count - 1,
                depth,
            );
            let case = cases[count - 1];
            let entered = made.case_entered(
                edges[count - 1].1.0,
                value,
                case.constructor,
                case.arguments@,
            );
            keeps_tree_lowered(entered, lower, case.body, match_expr, depth);
        }
    }

    /// A switch tests the tag of its variable. The first case of that tag runs, with the payloads of
    /// the value bound, and where there is none, what is otherwise to be tested is; where there is
    /// nothing of that kind either, control does not get there. Control goes on behind all cases,
    /// with the value of what ran. Gives the state in which the tag was read, the states in which
    /// the case at `index` starts and is lowered, and the one for what is otherwise to be tested.
    pub proof fn law_a_switch_runs_the_case_of_its_tag(
        self,
        lower: Lower,
        tree: DecisionTree,
        match_expr: ExprId,
        depth: nat,
        index: int,
    ) -> (stages: (Lowering, Lowering, Lowering, Lowering))
        requires
            keeps(lower),
            depth > 0,
            self.is_running(),
            tree matches DecisionTree::Switch(_, cases, _) && 0 <= index < cases.items().len(),
            self.tree_lowered(lower, tree, match_expr, depth).1.is_numbered(),
        ensures
            ({
                let (tagged, starting, inside, rest) = stages;
                let inner = (depth - 1) as nat;
                let (tag, cases, otherwise) = (
                    tree->Switch_0,
                    tree->Switch_1.items(),
                    tree->Switch_2,
                );
                let (value, after) = self.tree_lowered(lower, tree, match_expr, depth);
                let (held, read) = self.variable_made(tag);
                let (whole, opened) = read.dereferenced(held, self.path_type(tag));
                let (number, _) = opened.tag_of(whole);
                let case = cases[index];
                let (found, done) = inside.tree_lowered(lower, case.body, match_expr, inner);
                &&& tagged == opened.tag_of(whole).1
                &&& tagged.is_part_of(after)
                &&& starting.is_at_a_start()
                &&& inside == starting.case_entered(
                    starting.block,
                    whole,
                    case.constructor,
                    case.arguments@,
                )
                &&& done.is_part_of(after)
                &&& done.is_running() ==> after.hands_over(done.block, found, after.block)
                &&& rest.is_at_a_start()
                &&& match otherwise {
                    Some(tree) => {
                        let (other, other_done) = rest.tree_lowered(
                            lower,
                            *tree,
                            match_expr,
                            inner,
                        );
                        &&& other_done.is_part_of(after)
                        &&& other_done.is_running() ==> after.hands_over(
                            other_done.block,
                            other,
                            after.block,
                        )
                    },
                    None => after.end_of(rest.block) == Some(Terminator::Unreachable),
                }
                &&& tagged.is_running() ==> forall|meaning: Meaning|
                    #![trigger after.goes(tagged.block, meaning, starting.block)]
                    #![trigger after.goes(tagged.block, meaning, rest.block)]
                    {
                        let n = (meaning.number)(number);
                        &&& tag_number(case.constructor) == Some(n) && (forall|j: int|
                            0 <= j < index ==> {
                                let other = tag_number((#[trigger] cases[j]).constructor);
                                other is Some && other != Some(n)
                            }) ==> after.goes(tagged.block, meaning, starting.block)
                        &&& (forall|j: int|
                            0 <= j < cases.len() ==> {
                                let other = tag_number((#[trigger] cases[j]).constructor);
                                other is Some && other != Some(n)
                            }) ==> after.goes(tagged.block, meaning, rest.block)
                    }
                &&& after.is_at_a_start()
                &&& value == Value::Parameter(after.block, 0)
                &&& after.current().parameter_types.len() == 1
            }),
    {
        broadcast use {
            kept_is_reflexive,
            kept_is_transitive,
            settled_is_transitive,
            settled_is_reflexive,
            keeps_switched_to,
            keeps_variant_of,
            keeps_payloads_bound,
            keeps_fails,
            keeps_terminated,
            keeps_with_block,
        };

        reveal_with_fuel(Lowering::tree_lowered, 2);
        reveal_with_fuel(Lowering::switch_lowered, 2);
        reveal_with_fuel(Lowering::otherwise_lowered, 2);
        let inner = (depth - 1) as nat;
        let (tag, cases, otherwise) = (tree->Switch_0, tree->Switch_1.items(), tree->Switch_2);
        let count = cases.len() as int;
        let after = self.tree_lowered(lower, tree, match_expr, depth).1;
        let (held, read) = self.variable_made(tag);
        let (whole, opened) = read.dereferenced(held, self.path_type(tag));
        let (number, tagged) = opened.tag_of(whole);
        keeps_variable_made(self, tag);
        keeps_dereferenced(read, held, self.path_type(tag));
        keeps_tag_of(opened, whole);
        assert(kept(self, tagged) && settled(self, tagged));
        let ((value, int_value, start, edges, end), entered) = self.switch_entered(
            tag,
            cases,
            match_expr,
        );
        let (own_edges, keyed) = tagged.with_keyed_blocks(cases, count);
        let types = seq![keyed.layout(keyed.expr_type(match_expr))];
        assert(value == whole && int_value == number && start == tagged.block && edges == own_edges
            && (end, entered) == keyed.with_block(types)) by {
            reveal(Lowering::switch_entered);
        }
        keeps_with_keyed_blocks(tagged, cases, count);
        cases_keep(entered, lower, value, cases, edges, end, match_expr, count, inner);
        let made = entered.cases_lowered(
            lower,
            value,
            cases,
            edges,
            end,
            match_expr,
            count,
            inner,
        );
        let (block, added) = made.with_block(Seq::empty());
        let rest = added.switched_to(block);
        let other = rest.otherwise_lowered(lower, otherwise, end, match_expr, inner);
        match otherwise {
            Some(tree) => {
                keeps_tree_lowered(rest, lower, *tree, match_expr, inner);
                let (result, other_done) = rest.tree_lowered(lower, *tree, match_expr, inner);
                assert(other == other_done.terminated(Terminator::Jmp(end, Some(result))));
            },
            None => {
                assert(other == rest.terminated(Terminator::Unreachable));
            },
        }
        assert(kept(rest, other) && settled(rest, other));
        let switch = Terminator::Switch {
            int_value,
            cases: edges,
            otherwise: (block, None),
            end,
        };
        let turned = other.switched_to(start);
        let ended = turned.terminated(switch);
        assert(after == ended.switched_to(end));
        counting_up(tagged, after);
        counting_up(keyed, after);
        counting_up(entered, after);
        counting_up(made, after);
        counting_up(added, after);
        counting_up(other, after);
        self.a_walk_goes_on(tagged);
        tagged.keyed_blocks_are_added(cases, count);
        keyed.a_block_is_added(types);
        let low = tagged.block_count();
        assert(end == low + count);
        entered.cases_leave_others(
            lower,
            value,
            cases,
            edges,
            end,
            match_expr,
            count,
            inner,
        );
        made.a_block_is_added(Seq::empty());
        rest.a_block_stays(other, start as int);
        rest.a_block_stays(other, end as int);
        assert(made.function.unwrap().blocks[end as int]
            == entered.function.unwrap().blocks[end as int]);
        assert(made.function.unwrap().blocks[start as int]
            == entered.function.unwrap().blocks[start as int]);
        turned.a_block_ends(switch);
        tagged.kept_code_is_part(after);
        match otherwise {
            Some(tree) => {
                let (result, other_done) = rest.tree_lowered(lower, *tree, match_expr, inner);
                let jump = Terminator::Jmp(end, Some(result));
                counting_up(other_done, after);
                rest.a_walk_goes_on(other_done);
                other_done.a_block_ends(jump);
                other_done.kept_code_is_part(after);
                other.an_end_stays(after, other_done.block);
            },
            None => {
                rest.a_block_ends(Terminator::Unreachable);
                other.an_end_stays(after, block);
            },
        }
        let earlier = entered.cases_lowered(
            lower,
            value,
            cases,
            edges,
            end,
            match_expr,
            index,
            inner,
        );
        let through = entered.cases_lowered(
            lower,
            value,
            cases,
            edges,
            end,
            match_expr,
            index + 1,
            inner,
        );
        entered.one_case_is_lowered(
            lower,
            value,
            cases,
            edges,
            end,
            match_expr,
            count,
            inner,
            index,
        );
        let case = cases[index];
        let starting = earlier.switched_to(edges[index].1.0);
        let inside = earlier.case_entered(
            edges[index].1.0,
            value,
            case.constructor,
            case.arguments@,
        );
        assert(kept(starting, inside) && settled(starting, inside) && inside
            == starting.case_entered(
            starting.block,
            whole,
            case.constructor,
            case.arguments@,
        )) by {
            reveal(Lowering::case_entered);
        }
        keeps_tree_lowered(inside, lower, case.body, match_expr, inner);
        let (found, done) = inside.tree_lowered(lower, case.body, match_expr, inner);
        let jump = Terminator::Jmp(end, Some(found));
        assert(through == done.terminated(jump)) by {
            reveal_with_fuel(Lowering::cases_lowered, 2);
        }
        cases_keep(entered, lower, value, cases, edges, end, match_expr, index, inner);
        counting_up(through, after);
        counting_up(done, after);
        counting_up(earlier, after);
        entered.cases_leave_others(
            lower,
            value,
            cases,
            edges,
            end,
            match_expr,
            index,
            inner,
        );
        assert(starting.is_at_a_start()) by {
            let b = edges[index].1.0 as int;
            assert(b == low + index);
            assert(entered.function.unwrap().blocks[b] == keyed.function.unwrap().blocks[b]);
            assert(earlier.function.unwrap().blocks[b] == entered.function.unwrap().blocks[b]);
        }
        starting.a_walk_goes_on(done);
        done.a_block_ends(jump);
        done.kept_code_is_part(after);
        through.an_end_stays(after, done.block);
        if tagged.is_running() {
            assert(keyed.function.unwrap().blocks[start as int]
                == tagged.function.unwrap().blocks[start as int]);
            assert(!turned.is_terminated());
            ended.an_end_stays(after, start);
            assert forall|meaning: Meaning|
                #![trigger after.goes(tagged.block, meaning, starting.block)]
                #![trigger after.goes(tagged.block, meaning, rest.block)]
                {
                    let n = (meaning.number)(number);
                    &&& tag_number(case.constructor) == Some(n) && (forall|j: int|
                        0 <= j < index ==> {
                            let other = tag_number((#[trigger] cases[j]).constructor);
                            other is Some && other != Some(n)
                        }) ==> after.goes(tagged.block, meaning, starting.block)
                    &&& (forall|j: int|
                        0 <= j < cases.len() ==> {
                            let other = tag_number((#[trigger] cases[j]).constructor);
                            other is Some && other != Some(n)
                        }) ==> after.goes(tagged.block, meaning, rest.block)
                } by {
                let n = (meaning.number)(number);
                if tag_number(case.constructor) == Some(n) && (forall|j: int|
                    0 <= j < index ==> {
                        let other = tag_number((#[trigger] cases[j]).constructor);
                        other is Some && other != Some(n)
                    }) {
                    assert forall|j: int| 0 <= j < index implies (#[trigger] edges[j]).0 != n by {
                        assert(tag_number(cases[j].constructor) is Some);
                    }
                    the_first_edge_is_taken(edges, n, index);
                }
                if forall|j: int|
                    0 <= j < cases.len() ==> {
                        let other = tag_number((#[trigger] cases[j]).constructor);
                        other is Some && other != Some(n)
                    } {
                    assert forall|j: int| 0 <= j < count implies (#[trigger] edges[j]).0 != n by {
                        assert(tag_number(cases[j].constructor) is Some);
                    }
                    the_first_edge_is_taken(edges, n, count);
                }
            }
        }
        (tagged, starting, inside, rest)
    }
}

proof fn one_is_one(kind: IntegerKind)
    ensures
        is_one(
            crate::mir::builder::patterns::constant(
                crate::cst::Integer { magnitude: 1, negative: false },
                kind,
            ),
            kind,
        ),
{
    let m: u64 = 1;
    assert(m as i8 == 1 && m as i16 == 1 && m as i32 == 1 && m as i64 == 1) by (bit_vector)
        requires
            m == 1,
    ;
    assert(m as isize == 1 && m as usize == 1) by (bit_vector)
        requires
            m == 1,
    ;
    assert(m as u8 == 1 && m as u16 == 1 && m as u32 == 1) by (bit_vector)
        requires
            m == 1,
    ;
}

} // verus!

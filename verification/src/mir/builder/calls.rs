//! How calls are lowered.

use crate::collections::map_get;
#[allow(unused_imports)]
use crate::collections::lookup;
use crate::cst::{copy_ids, Argument, Expr};
#[allow(unused_imports)]
use crate::cst::ExprForm;
use crate::database::AbilityKind;
use crate::ids::{ExprId, InstructionId, Origin, PathId, NESTING_LIMIT};
#[allow(unused_imports)]
use crate::mir::builder::expressions::{recursion, Lower};
use crate::mir::builder::places::list_argument_exprs;
#[allow(unused_imports)]
use crate::mir::builder::places::exprs_of;
use crate::mir::builder::state::{Builder, TCType};
#[allow(unused_imports)]
use crate::mir::builder::state::Lowering;
use crate::mir::{BorrowPair, Instruction, PrimitiveType, TerminatorInstruction, Type, Value};
#[allow(unused_imports)]
use crate::mir::{Operation, Pair, Terminator};
use vstd::prelude::*;

verus! {

/// A handle that is released after the call it is passed to, and the retain the release balances.
pub type Pending = (Value, ExprId, Option<InstructionId>);

/// The instruction that gives a value.
pub open spec fn instruction_id(value: Value) -> Option<InstructionId> {
    match value {
        Value::InstructionResult(id) => Some(id),
        _ => None,
    }
}

fn find_instruction_id(value: Value) -> (id: Option<InstructionId>)
    ensures
        id == instruction_id(value),
{
    match value {
        Value::InstructionResult(id) => Some(id),
        _ => None,
    }
}

/// How many of the first `count` arguments are written at the call.
pub open spec fn explicit_count(arguments: Seq<Argument>, count: int) -> int
    decreases count,
{
    if count <= 0 {
        0
    } else if arguments[count - 1].is_implicit {
        explicit_count(arguments, count - 1)
    } else {
        explicit_count(arguments, count - 1) + 1
    }
}

/// The positions of the implicit ones of the first `count` arguments.
pub open spec fn implicit_places(arguments: Seq<Argument>, count: int) -> Seq<u32>
    decreases count,
{
    if count <= 0 {
        Seq::empty()
    } else if arguments[count - 1].is_implicit {
        implicit_places(arguments, count - 1).push((count - 1) as u32)
    } else {
        implicit_places(arguments, count - 1)
    }
}

/// The parameter at `index` of those that are written borrows.
pub open spec fn borrows(mask: Option<Seq<bool>>, index: int) -> bool {
    match mask {
        Some(mask) => 0 <= index < mask.len() && mask[index],
        None => false,
    }
}

impl Lowering {
    /// Which parameters of a callee borrow, if the callee is known and some do.
    pub open spec fn callee_mask(self, callee: ExprId) -> Option<Seq<bool>> {
        match self.answers.context@.expr(callee) {
            ExprForm::Variable(path) => match self.answers.context@.path_origin(path) {
                Some(Origin::TopLevelDefinition(name)) => match lookup(
                    self.answers.borrowed_params@,
                    name,
                ) {
                    Some(mask) => if mask@.len() == 0 {
                        None
                    } else {
                        Some(mask@)
                    },
                    None => None,
                },
                _ => None,
            },
            _ => None,
        }
    }

    /// An implicit argument is an impl without constraints: a callee cannot suspend through it.
    pub open spec fn is_pure_static(self, expr: ExprId) -> bool {
        match self.answers.context@.expr(expr) {
            ExprForm::Variable(path) => match self.answers.context@.path_origin(path) {
                Some(Origin::TopLevelDefinition(_)) => match self.follow(self.expr_type(expr)) {
                    TCType::Function(_) => false,
                    _ => true,
                },
                _ => false,
            },
            _ => false,
        }
    }

    pub open spec fn implicits_are_pure(self, arguments: Seq<Argument>) -> bool {
        forall|i: int|
            #![trigger arguments[i]]
            0 <= i < arguments.len() && arguments[i].is_implicit ==> self.is_pure_static(
                arguments[i].expr,
            )
    }

    pub open spec fn is_release_callee(self, callee: ExprId) -> bool {
        match self.answers.context@.expr(callee) {
            ExprForm::Variable(path) => self.is_release_path(path),
            _ => false,
        }
    }

    /// What is done with the count of an argument. A callee owns what it is passed, so a handle
    /// read from a place is retained; a parameter that borrows leaves it to the caller to release
    /// the handle again. A call of a release function takes a count and retains nothing.
    #[verifier::opaque]
    pub open spec fn argument_counted(
        self,
        argument: Argument,
        value: Value,
        borrowed: bool,
        pure: bool,
        is_release: bool,
    ) -> (Option<Pending>, Lowering) {
        if is_release || argument.is_implicit {
            (None, self)
        } else if borrowed && self.shared_target(self.expr_type(argument.expr)) is Some {
            if !self.is_place(argument.expr) {
                (Some((value, argument.expr, None)), self)
            } else if pure {
                (None, self)
            } else {
                let (retain, made) = self.pushed(Operation::RcRetain(value), Type::unit());
                (Some((value, argument.expr, instruction_id(retain))), made)
            }
        } else {
            (None, self.retained_if_place(argument.expr, value))
        }
    }

    /// The values of the first `count` arguments, and what is released after the call.
    #[verifier::opaque]
    pub open spec fn arguments_lowered(
        self,
        lower: Lower,
        function: Value,
        callee: ExprId,
        arguments: Seq<Argument>,
        mask: Option<Seq<bool>>,
        pure: bool,
        is_release: bool,
        count: int,
    ) -> (Seq<Value>, Seq<Pending>, Lowering)
        decreases count,
    {
        if count <= 0 {
            (Seq::empty(), Seq::empty(), self)
        } else {
            let (values, pending, made) = self.arguments_lowered(
                lower,
                function,
                callee,
                arguments,
                mask,
                pure,
                is_release,
                count - 1,
            );
            let argument = arguments[count - 1];
            let (value, made) = lower(made, argument.expr);
            let (more, made) = made.argument_counted(
                argument,
                value,
                borrows(mask, explicit_count(arguments, count - 1)),
                pure,
                is_release,
            );
            let pending = match more {
                Some(more) => pending.push(more),
                None => pending,
            };
            let (value, made) = made.coerced(value, function, callee, count - 1);
            (values.push(value), pending, made)
        }
    }

    /// The first `count` of what is released after a call. A retain and its release are noted as
    /// a pair, to be taken out where the call turns out not to need them.
    #[verifier::opaque]
    pub open spec fn releases_made(
        self,
        pending: Seq<Pending>,
        call: Option<InstructionId>,
        implicit_args: Seq<u32>,
        count: int,
    ) -> Lowering
        decreases count,
    {
        if count <= 0 {
            self
        } else {
            let made = self.releases_made(pending, call, implicit_args, count - 1);
            let (value, expr, retain) = pending[count - 1];
            let (release, made) = made.expr_released(value, expr);
            match (retain, call, release) {
                (
                    Some(retain),
                    Some(call),
                    Some(Value::InstructionResult(release_call)),
                ) => made.with_borrow_pair(Pair { retain, release_call, call, implicit_args }),
                _ => made,
            }
        }
    }

    /// What a call of `function` gives.
    pub open spec fn call_layout(self, function: Value, typ: Type) -> Type {
        match self.value_type(function).returned() {
            Some(returned) => returned,
            None => typ,
        }
    }

    /// A call that is no call of a method.
    #[verifier::opaque]
    pub open spec fn plain_call_lowered(
        self,
        lower: Lower,
        callee: ExprId,
        arguments: Seq<Argument>,
        typ: Type,
        diverges: bool,
    ) -> (Value, Lowering) {
        let is_release = self.is_release_callee(callee);
        let mask = if is_release {
            None
        } else {
            self.callee_mask(callee)
        };
        let pure = mask is Some && self.implicits_are_pure(arguments);
        let implicit_args = if is_release {
            Seq::empty()
        } else {
            implicit_places(arguments, arguments.len() as int)
        };
        let (function, made) = lower(self, callee);
        let (values, pending, made) = made.arguments_lowered(
            lower,
            function,
            callee,
            arguments,
            mask,
            pure,
            is_release,
            arguments.len() as int,
        );
        let (values, made) = made.with_evidence(callee, function, values);
        let typ = if diverges {
            Type::unit()
        } else {
            made.call_layout(function, typ)
        };
        let (value, made) = made.called(function, values, typ);
        (
            value,
            if diverges {
                made.terminated(Terminator::Unreachable)
            } else {
                made.releases_made(
                    pending,
                    instruction_id(value),
                    implicit_args,
                    pending.len() as int,
                )
            },
        )
    }

    /// The capability of a `Drop` call, and `frees` with the environments its impls made behind
    /// it.
    pub open spec fn drop_capability(
        self,
        lower: Lower,
        expr: ExprId,
        frees: Seq<Value>,
        depth: nat,
    ) -> (Value, Seq<Value>, Lowering)
        decreases depth, 0nat, 0int,
    {
        if depth == 0 {
            (Value::Error, frees, self.fails())
        } else {
            match self.answers.context@.expr(expr) {
                ExprForm::Call { function: callee, arguments } => {
                    let (function, made) = lower(self, callee);
                    let (values, frees, made) = made.drop_arguments(
                        lower,
                        function,
                        callee,
                        arguments,
                        frees,
                        arguments.len() as int,
                        (depth - 1) as nat,
                    );
                    made.capability_applied(function, callee, values, frees, expr)
                },
                _ => {
                    let (value, made) = lower(self, expr);
                    (value, frees, made)
                },
            }
        }
    }

    pub open spec fn drop_arguments(
        self,
        lower: Lower,
        function: Value,
        callee: ExprId,
        arguments: Seq<Argument>,
        frees: Seq<Value>,
        count: int,
        depth: nat,
    ) -> (Seq<Value>, Seq<Value>, Lowering)
        decreases depth, 1nat, count,
    {
        if count <= 0 {
            (Seq::empty(), frees, self)
        } else {
            let (values, frees, made) = self.drop_arguments(
                lower,
                function,
                callee,
                arguments,
                frees,
                count - 1,
                depth,
            );
            let (value, frees, made) = made.drop_capability(
                lower,
                arguments[count - 1].expr,
                frees,
                depth,
            );
            let (value, made) = made.coerced(value, function, callee, count - 1);
            (values.push(value), frees, made)
        }
    }

    /// The capability an impl makes of its own capabilities.
    #[verifier::opaque]
    pub open spec fn capability_applied(
        self,
        function: Value,
        callee: ExprId,
        values: Seq<Value>,
        frees: Seq<Value>,
        expr: ExprId,
    ) -> (Value, Seq<Value>, Lowering) {
        let (values, made) = self.with_evidence(callee, function, values);
        let typ = made.call_layout(function, made.layout(made.expr_type(expr)));
        let (capability, made) = made.called(function, values, typ);
        let (frees, made) = match made.value_type(capability).fields() {
            Some(fields) => made.capability_environments(
                capability,
                fields,
                frees,
                fields.len() as int,
            ),
            None => (frees, made),
        };
        (capability, frees, made)
    }

    /// The values of the first `count` arguments of a method, and what is freed after a `Drop`.
    #[verifier::opaque]
    pub open spec fn method_arguments(
        self,
        lower: Lower,
        arguments: Seq<Argument>,
        is_drop: bool,
        count: int,
    ) -> (Seq<Value>, Seq<Value>, Lowering)
        decreases count,
    {
        if count <= 0 {
            (Seq::empty(), Seq::empty(), self)
        } else {
            let (values, frees, made) = self.method_arguments(
                lower,
                arguments,
                is_drop,
                count - 1,
            );
            let argument = arguments[count - 1];
            if is_drop && argument.is_implicit {
                let (value, frees, made) = made.drop_capability(
                    lower,
                    argument.expr,
                    frees,
                    NESTING_LIMIT as nat,
                );
                (values.push(value), frees, made)
            } else {
                let (value, made) = lower(made, argument.expr);
                (
                    values.push(value),
                    frees,
                    if argument.is_implicit {
                        made
                    } else {
                        made.retained_if_place(argument.expr, value)
                    },
                )
            }
        }
    }

    /// The method is that of `Drop`.
    pub open spec fn is_drop_method(self, path: PathId, kind: AbilityKind) -> bool {
        kind == AbilityKind::Trait && match self.answers.context@.path_origin(path) {
            Some(Origin::TopLevelDefinition(name)) => self.is_prelude_drop(name.top_level_item),
            _ => false,
        }
    }

    /// A call of a method of a capability.
    #[verifier::opaque]
    pub open spec fn method_call_lowered(
        self,
        lower: Lower,
        callee: ExprId,
        path: PathId,
        method: (u32, u32, AbilityKind),
        arguments: Seq<Argument>,
        expr: ExprId,
        typ: Type,
        diverges: bool,
    ) -> (Value, Lowering) {
        let (operation, index, kind) = method;
        let (values, frees, made) = self.method_arguments(
            lower,
            arguments,
            self.is_drop_method(path, kind),
            arguments.len() as int,
        );
        let (value, made) = match kind {
            AbilityKind::Trait => made.trait_method_called(
                callee,
                operation,
                index,
                values,
                typ,
                diverges,
            ),
            AbilityKind::Effect => made.operation_called(
                callee,
                operation,
                index,
                values,
                typ,
                diverges,
            ),
            AbilityKind::NotAbility => (Value::Error, made.fails()),
        };
        (
            value,
            if diverges {
                made
            } else {
                let made = made.all_freed(frees, frees.len() as int);
                if self.is_extract_method(path) {
                    made.value_retained(value, made.follow(made.expr_type(expr)))
                } else {
                    made
                }
            },
        )
    }

    /// A call of an operation of the target.
    #[verifier::opaque]
    pub open spec fn intrinsic_lowered(
        self,
        lower: Lower,
        operation: u32,
        arguments: Seq<Argument>,
        expr: ExprId,
    ) -> (Value, Lowering) {
        let layout = self.layout(self.expr_type(expr));
        let (values, made) = self.all_lowered(
            lower,
            exprs_of(arguments),
            arguments.len() as int,
        );
        made.pushed(Operation::Intrinsic { operation, arguments: values }, layout)
    }

    /// A call.
    #[verifier::opaque]
    pub open spec fn call_lowered(
        self,
        lower: Lower,
        callee: ExprId,
        arguments: Seq<Argument>,
        expr: ExprId,
    ) -> (Value, Lowering) {
        if self.answers.intrinsics@.contains_key(expr) {
            self.intrinsic_lowered(lower, self.answers.intrinsics@[expr], arguments, expr)
        } else {
            let diverges = self.callee_diverges(callee);
            let typ = if diverges {
                Type::unit()
            } else {
                self.layout(self.expr_type(expr))
            };
            match self.answers.context@.expr(callee) {
                ExprForm::Variable(path) => {
                    let (method, made) = self.ability_method(path);
                    match method {
                        Some(method) => made.method_call_lowered(
                            lower,
                            callee,
                            path,
                            method,
                            arguments,
                            expr,
                            typ,
                            diverges,
                        ),
                        None => made.plain_call_lowered(lower, callee, arguments, typ, diverges),
                    }
                },
                _ => self.plain_call_lowered(lower, callee, arguments, typ, diverges),
            }
        }
    }
}

fn list_implicit_places(arguments: &Vec<Argument>) -> (places: Vec<u32>)
    ensures
        places@ == implicit_places(arguments@, arguments@.len() as int),
{
    let mut places: Vec<u32> = Vec::new();
    let mut i: usize = 0;
    while i < arguments.len()
        invariant
            i <= arguments.len(),
            places@ == implicit_places(arguments@, i as int),
        decreases arguments.len() - i,
    {
        if arguments[i].is_implicit {
            places.push(i as u32);
        }
        i += 1;
    }
    places
}

impl<'a> Builder<'a> {
    /// Which parameters of a callee borrow, if the callee is known and some do.
    pub fn borrowed_param_mask_of_callee(&self, callee: ExprId) -> (mask: Option<&'a Vec<bool>>)
        ensures
            match mask {
                Some(mask) => self@.callee_mask(callee) == Some(mask@),
                None => self@.callee_mask(callee) is None,
            },
    {
        let answers = self.answers;
        match answers.context.expr(callee) {
            Expr::Variable(path) => match answers.context.path_origin(*path) {
                Some(Origin::TopLevelDefinition(name)) => match answers.borrowed_params.get(&name) {
                    Some(mask) => {
                        if mask.len() == 0 {
                            None
                        } else {
                            Some(mask)
                        }
                    },
                    None => None,
                },
                _ => None,
            },
            _ => None,
        }
    }

    /// Whether an implicit argument is an impl without constraints.
    pub fn implicit_is_pure_static(&self, expr: ExprId) -> (pure: bool)
        ensures
            pure == self@.is_pure_static(expr),
    {
        match self.answers.context.expr(expr) {
            Expr::Variable(path) => match self.answers.context.path_origin(*path) {
                Some(Origin::TopLevelDefinition(_)) => {
                    let typ = self.type_of_expr(expr);
                    match self.follow(&typ) {
                        TCType::Function(_) => false,
                        _ => true,
                    }
                },
                _ => false,
            },
            _ => false,
        }
    }

    fn check_implicits_are_pure(&self, arguments: &Vec<Argument>) -> (pure: bool)
        ensures
            pure == self@.implicits_are_pure(arguments@),
    {
        let mut i: usize = 0;
        while i < arguments.len()
            invariant
                i <= arguments.len(),
                forall|j: int|
                    #![trigger arguments@[j]]
                    0 <= j < i && arguments@[j].is_implicit ==> self@.is_pure_static(
                        arguments@[j].expr,
                    ),
            decreases arguments.len() - i,
        {
            if arguments[i].is_implicit && !self.implicit_is_pure_static(arguments[i].expr) {
                assert(arguments@[i as int].is_implicit);
                return false;
            }
            i += 1;
        }
        true
    }

    fn callee_is_release(&self, callee: ExprId) -> (release: bool)
        ensures
            release == self@.is_release_callee(callee),
    {
        match self.answers.context.expr(callee) {
            Expr::Variable(path) => self.path_is_release(*path),
            _ => false,
        }
    }

    fn count_argument(
        &mut self,
        argument: Argument,
        value: Value,
        borrowed: bool,
        pure: bool,
        is_release: bool,
    ) -> (pending: Option<Pending>)
        ensures
            (pending, final(self)@) == old(self)@.argument_counted(
                argument,
                value,
                borrowed,
                pure,
                is_release,
            ),
    {
        proof {
            reveal(Lowering::argument_counted);
        }
        if is_release || argument.is_implicit {
            return None;
        }
        let typ = self.type_of_expr(argument.expr);
        if borrowed && self.shared_release_target(&typ).is_some() {
            if !self.is_place(argument.expr) {
                Some((value, argument.expr, None))
            } else if pure {
                None
            } else {
                let retain = self.push_instruction(
                    Instruction::RcRetain(value),
                    Type::Primitive(PrimitiveType::Unit),
                );
                Some((value, argument.expr, find_instruction_id(retain)))
            }
        } else {
            self.retain_if_shared_place(argument.expr, value);
            None
        }
    }

    fn lower_arguments(
        &mut self,
        function: Value,
        callee: ExprId,
        arguments: &Vec<Argument>,
        mask: Option<&Vec<bool>>,
        pure: bool,
        is_release: bool,
        depth: u64,
    ) -> (result: (Vec<Value>, Vec<Pending>))
        ensures
            (result.0@, result.1@, final(self)@) == old(self)@.arguments_lowered(
                recursion(depth as nat),
                function,
                callee,
                arguments@,
                match mask {
                    Some(mask) => Some(mask@),
                    None => None,
                },
                pure,
                is_release,
                arguments@.len() as int,
            ),
        decreases depth, 1nat, 0nat, 0nat,
    {
        let mut values: Vec<Value> = Vec::new();
        let mut pending: Vec<Pending> = Vec::new();
        let mut explicit: usize = 0;
        let mut i: usize = 0;
        let ghost spec_mask = match mask {
            Some(mask) => Some(mask@),
            None => None,
        };
        proof {
            reveal(Lowering::arguments_lowered);
        }
        while i < arguments.len()
            invariant
                i <= arguments.len(),
                explicit <= i,
                explicit == explicit_count(arguments@, i as int),
                spec_mask == (match mask {
                    Some(mask) => Some(mask@),
                    None => None,
                }),
                (values@, pending@, self@) == old(self)@.arguments_lowered(
                    recursion(depth as nat),
                    function,
                    callee,
                    arguments@,
                    spec_mask,
                    pure,
                    is_release,
                    i as int,
                ),
            decreases arguments.len() - i,
        {
            proof {
                reveal(Lowering::arguments_lowered);
            }
            let argument = arguments[i];
            let value = self.expression(argument.expr, depth);
            let borrowed = match mask {
                Some(mask) => explicit < mask.len() && mask[explicit],
                None => false,
            };
            match self.count_argument(argument, value, borrowed, pure, is_release) {
                Some(more) => {
                    pending.push(more);
                },
                None => {},
            }
            let value = self.coerce_argument_evidence(value, function, callee, i);
            values.push(value);
            if !argument.is_implicit {
                explicit += 1;
            }
            i += 1;
        }
        (values, pending)
    }

    fn make_releases(
        &mut self,
        pending: &Vec<Pending>,
        call: Option<InstructionId>,
        implicit_args: &Vec<u32>,
    )
        ensures
            final(self)@ == old(self)@.releases_made(
                pending@,
                call,
                implicit_args@,
                pending@.len() as int,
            ),
    {
        let mut i: usize = 0;
        proof {
            reveal(Lowering::releases_made);
        }
        while i < pending.len()
            invariant
                i <= pending.len(),
                self@ == old(self)@.releases_made(pending@, call, implicit_args@, i as int),
            decreases pending.len() - i,
        {
            proof {
                reveal(Lowering::releases_made);
            }
            let (value, expr, retain) = pending[i];
            let release = self.emit_shared_release_for_expr(value, expr);
            match (retain, call, release) {
                (Some(retain), Some(call), Some(Value::InstructionResult(release_call))) => {
                    self.push_borrow_pair(
                        BorrowPair {
                            retain,
                            release_call,
                            call,
                            implicit_args: copy_ids(implicit_args),
                        },
                    );
                },
                _ => {},
            }
            i += 1;
        }
    }

    fn find_call_layout(&self, function: &Value, typ: Type) -> (layout: Type)
        ensures
            layout == self@.call_layout(*function, typ),
    {
        match self.type_of_value(function).function_return_type() {
            Some(returned) => returned,
            None => typ,
        }
    }

    fn plain_call(
        &mut self,
        callee: ExprId,
        arguments: &Vec<Argument>,
        typ: Type,
        diverges: bool,
        depth: u64,
    ) -> (value: Value)
        ensures
            (value, final(self)@) == old(self)@.plain_call_lowered(
                recursion(depth as nat),
                callee,
                arguments@,
                typ,
                diverges,
            ),
        decreases depth, 2nat, 0nat, 0nat,
    {
        proof {
            reveal(Lowering::plain_call_lowered);
        }
        let is_release = self.callee_is_release(callee);
        let mask = if is_release {
            None
        } else {
            self.borrowed_param_mask_of_callee(callee)
        };
        let pure = mask.is_some() && self.check_implicits_are_pure(arguments);
        let implicit_args = if is_release {
            Vec::new()
        } else {
            list_implicit_places(arguments)
        };
        let function = self.expression(callee, depth);
        let (values, pending) = self.lower_arguments(
            function,
            callee,
            arguments,
            mask,
            pure,
            is_release,
            depth,
        );
        let values = self.append_evidence_argument(callee, function, values);
        let typ = if diverges {
            Type::Primitive(PrimitiveType::Unit)
        } else {
            self.find_call_layout(&function, typ)
        };
        let value = self.emit_call(function, values, typ);
        if diverges {
            self.terminate_block(TerminatorInstruction::Unreachable);
        } else {
            self.make_releases(&pending, find_instruction_id(value), &implicit_args);
        }
        value
    }

    /// Lower the capability of a `Drop` call. An impl that is applied to capabilities makes the
    /// environments of its methods anew: they are put behind `frees`.
    fn lower_drop_capability(
        &mut self,
        expr: ExprId,
        frees: Vec<Value>,
        depth: u64,
        nesting: u64,
    ) -> (result: (Value, Vec<Value>))
        ensures
            (result.0, result.1@, final(self)@) == old(self)@.drop_capability(
                recursion(depth as nat),
                expr,
                frees@,
                nesting as nat,
            ),
        decreases depth, 1nat, nesting, 0nat,
    {
        if nesting == 0 {
            self.fail();
            return (Value::Error, frees);
        }
        let answers = self.answers;
        match answers.context.expr(expr) {
            Expr::Call { function: callee, arguments } => {
                let function = self.expression(*callee, depth);
                let (values, frees) = self.lower_drop_arguments(
                    function,
                    *callee,
                    arguments,
                    frees,
                    depth,
                    nesting - 1,
                );
                self.apply_capability(function, *callee, values, frees, expr)
            },
            _ => {
                let value = self.expression(expr, depth);
                (value, frees)
            },
        }
    }

    fn lower_drop_arguments(
        &mut self,
        function: Value,
        callee: ExprId,
        arguments: &Vec<Argument>,
        frees: Vec<Value>,
        depth: u64,
        nesting: u64,
    ) -> (result: (Vec<Value>, Vec<Value>))
        ensures
            (result.0@, result.1@, final(self)@) == old(self)@.drop_arguments(
                recursion(depth as nat),
                function,
                callee,
                arguments@,
                frees@,
                arguments@.len() as int,
                nesting as nat,
            ),
        decreases depth, 1nat, nesting, 1nat,
    {
        let ghost before = frees@;
        let mut frees = frees;
        let mut values: Vec<Value> = Vec::new();
        let mut i: usize = 0;
        while i < arguments.len()
            invariant
                i <= arguments.len(),
                (values@, frees@, self@) == old(self)@.drop_arguments(
                    recursion(depth as nat),
                    function,
                    callee,
                    arguments@,
                    before,
                    i as int,
                    nesting as nat,
                ),
            decreases arguments.len() - i,
        {
            let (value, more) = self.lower_drop_capability(
                arguments[i].expr,
                frees,
                depth,
                nesting,
            );
            frees = more;
            let value = self.coerce_argument_evidence(value, function, callee, i);
            values.push(value);
            i += 1;
        }
        (values, frees)
    }

    fn apply_capability(
        &mut self,
        function: Value,
        callee: ExprId,
        values: Vec<Value>,
        frees: Vec<Value>,
        expr: ExprId,
    ) -> (result: (Value, Vec<Value>))
        ensures
            (result.0, result.1@, final(self)@) == old(self)@.capability_applied(
                function,
                callee,
                values@,
                frees@,
                expr,
            ),
    {
        proof {
            reveal(Lowering::capability_applied);
        }
        let values = self.append_evidence_argument(callee, function, values);
        let layout = self.expr_layout(expr);
        let typ = self.find_call_layout(&function, layout);
        let capability = self.emit_call(function, values, typ);
        let frees = self.collect_capability_environments(capability, frees);
        (capability, frees)
    }

    fn lower_method_arguments(
        &mut self,
        arguments: &Vec<Argument>,
        is_drop: bool,
        depth: u64,
    ) -> (result: (Vec<Value>, Vec<Value>))
        ensures
            (result.0@, result.1@, final(self)@) == old(self)@.method_arguments(
                recursion(depth as nat),
                arguments@,
                is_drop,
                arguments@.len() as int,
            ),
        decreases depth, 2nat, 0nat, 0nat,
    {
        let mut values: Vec<Value> = Vec::new();
        let mut frees: Vec<Value> = Vec::new();
        let mut i: usize = 0;
        proof {
            reveal(Lowering::method_arguments);
        }
        while i < arguments.len()
            invariant
                i <= arguments.len(),
                (values@, frees@, self@) == old(self)@.method_arguments(
                    recursion(depth as nat),
                    arguments@,
                    is_drop,
                    i as int,
                ),
            decreases arguments.len() - i,
        {
            proof {
                reveal(Lowering::method_arguments);
            }
            let argument = arguments[i];
            if is_drop && argument.is_implicit {
                let (value, more) = self.lower_drop_capability(
                    argument.expr,
                    frees,
                    depth,
                    NESTING_LIMIT,
                );
                frees = more;
                values.push(value);
            } else {
                let value = self.expression(argument.expr, depth);
                if !argument.is_implicit {
                    self.retain_if_shared_place(argument.expr, value);
                }
                values.push(value);
            }
            i += 1;
        }
        (values, frees)
    }

    fn method_is_drop(&self, path: PathId, kind: AbilityKind) -> (drop: bool)
        ensures
            drop == self@.is_drop_method(path, kind),
    {
        match kind {
            AbilityKind::Trait => match self.answers.context.path_origin(path) {
                Some(Origin::TopLevelDefinition(name)) => self.is_prelude_drop_trait(
                    name.top_level_item,
                ),
                _ => false,
            },
            _ => false,
        }
    }

    fn method_call(
        &mut self,
        callee: ExprId,
        path: PathId,
        method: (u32, u32, AbilityKind),
        arguments: &Vec<Argument>,
        expr: ExprId,
        typ: Type,
        diverges: bool,
        depth: u64,
    ) -> (value: Value)
        ensures
            (value, final(self)@) == old(self)@.method_call_lowered(
                recursion(depth as nat),
                callee,
                path,
                method,
                arguments@,
                expr,
                typ,
                diverges,
            ),
        decreases depth, 3nat, 0nat, 0nat,
    {
        proof {
            reveal(Lowering::method_call_lowered);
        }
        let (operation, index, kind) = method;
        let is_drop = self.method_is_drop(path, kind);
        let is_extract = self.path_is_extract_method(path);
        let (values, frees) = self.lower_method_arguments(arguments, is_drop, depth);
        let value = match kind {
            AbilityKind::Trait => self.emit_trait_method_call(
                callee,
                operation,
                index,
                values,
                typ,
                diverges,
            ),
            AbilityKind::Effect => self.emit_effect_op_call(
                callee,
                operation,
                index,
                values,
                typ,
                diverges,
            ),
            AbilityKind::NotAbility => {
                self.fail();
                Value::Error
            },
        };
        if !diverges {
            self.emit_frees(&frees);
            if is_extract {
                let typ = self.type_of_expr(expr);
                let followed = self.follow(&typ).clone();
                self.retain_inline_value(value, &followed);
            }
        }
        value
    }

    fn lower_intrinsic(
        &mut self,
        operation: u32,
        arguments: &Vec<Argument>,
        expr: ExprId,
        depth: u64,
    ) -> (value: Value)
        ensures
            (value, final(self)@) == old(self)@.intrinsic_lowered(
                recursion(depth as nat),
                operation,
                arguments@,
                expr,
            ),
        decreases depth, 2nat, 0nat, 0nat,
    {
        proof {
            reveal(Lowering::intrinsic_lowered);
        }
        let layout = self.expr_layout(expr);
        let exprs = list_argument_exprs(arguments);
        let values = self.lower_all(&exprs, depth);
        self.push_instruction(Instruction::Intrinsic { operation, arguments: values }, layout)
    }

    /// Lower a call.
    pub fn call(&mut self, callee: ExprId, arguments: &Vec<Argument>, expr: ExprId, depth: u64) -> (value:
        Value)
        ensures
            (value, final(self)@) == old(self)@.call_lowered(
                recursion(depth as nat),
                callee,
                arguments@,
                expr,
            ),
        decreases depth, 4nat, 0nat, 0nat,
    {
        proof {
            reveal(Lowering::call_lowered);
        }
        let answers = self.answers;
        match map_get(&answers.intrinsics, expr) {
            Some(operation) => {
                return self.lower_intrinsic(*operation, arguments, expr, depth);
            },
            None => {},
        }
        let diverges = self.callee_diverges(callee);
        let typ = if diverges {
            Type::Primitive(PrimitiveType::Unit)
        } else {
            self.expr_layout(expr)
        };
        match answers.context.expr(callee) {
            Expr::Variable(path) => match self.try_resolve_ability_method(*path) {
                Some(method) => self.method_call(
                    callee,
                    *path,
                    method,
                    arguments,
                    expr,
                    typ,
                    diverges,
                    depth,
                ),
                None => self.plain_call(callee, arguments, typ, diverges, depth),
            },
            _ => self.plain_call(callee, arguments, typ, diverges, depth),
        }
    }
}

} // verus!

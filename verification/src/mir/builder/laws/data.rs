//! What lowered code computes, and in which order.

#[allow(unused_imports)]
use crate::cst::{Argument, ContextState, ExprForm, Integer, Literal, PatternForm};
#[allow(unused_imports)]
use crate::ids::{ExprId, NameId, Origin, PathId, PatternId, NESTING_LIMIT};
#[allow(unused_imports)]
use crate::mir::builder::expressions::Lower;
#[allow(unused_imports)]
use crate::mir::builder::laws::control::{are_run, is_chain};
#[allow(unused_imports)]
use crate::mir::builder::laws::{keeps, kept, INSTRUCTION_LIMIT};
#[allow(unused_imports)]
use crate::mir::builder::places::{exprs_of, values_of};
#[allow(unused_imports)]
use crate::mir::builder::state::Lowering;
#[allow(unused_imports)]
use crate::mir::{IntConstant, Operation, PrimitiveType, Terminator, Type, Value};
#[allow(unused_imports)]
use crate::types::IntegerKind;
use vstd::prelude::*;

verus! {

/// The number a constant is.
pub open spec fn number_of(constant: IntConstant) -> int {
    match constant {
        IntConstant::I8(n) => n as int,
        IntConstant::I16(n) => n as int,
        IntConstant::I32(n) => n as int,
        IntConstant::I64(n) => n as int,
        IntConstant::Isz(n) => n as int,
        IntConstant::U8(n) => n as int,
        IntConstant::U16(n) => n as int,
        IntConstant::U32(n) => n as int,
        IntConstant::U64(n) => n as int,
        IntConstant::Usz(n) => n as int,
    }
}

/// The kind of number a constant is.
pub open spec fn kind_of(constant: IntConstant) -> IntegerKind {
    match constant {
        IntConstant::I8(_) => IntegerKind::I8,
        IntConstant::I16(_) => IntegerKind::I16,
        IntConstant::I32(_) => IntegerKind::I32,
        IntConstant::I64(_) => IntegerKind::I64,
        IntConstant::Isz(_) => IntegerKind::Isz,
        IntConstant::U8(_) => IntegerKind::U8,
        IntConstant::U16(_) => IntegerKind::U16,
        IntConstant::U32(_) => IntegerKind::U32,
        IntConstant::U64(_) => IntegerKind::U64,
        IntConstant::Usz(_) => IntegerKind::Usz,
    }
}

/// The highest number of the kind.
pub open spec fn highest(kind: IntegerKind) -> int {
    match kind {
        IntegerKind::I8 => i8::MAX as int,
        IntegerKind::I16 => i16::MAX as int,
        IntegerKind::I32 => i32::MAX as int,
        IntegerKind::I64 => i64::MAX as int,
        IntegerKind::Isz => isize::MAX as int,
        IntegerKind::U8 => u8::MAX as int,
        IntegerKind::U16 => u16::MAX as int,
        IntegerKind::U32 => u32::MAX as int,
        IntegerKind::U64 => u64::MAX as int,
        IntegerKind::Usz => usize::MAX as int,
    }
}

/// The kind has negative numbers.
pub open spec fn has_negatives(kind: IntegerKind) -> bool {
    kind == IntegerKind::I8 || kind == IntegerKind::I16 || kind == IntegerKind::I32 || kind
        == IntegerKind::I64 || kind == IntegerKind::Isz
}

/// An integer is lowered to the number that is written, of the kind that is wanted, where the kind
/// has that number.
pub proof fn law_a_constant_is_the_number_written(value: Integer, kind: IntegerKind)
    requires
        value.magnitude <= highest(kind),
        value.negative ==> has_negatives(kind),
    ensures
        kind_of(crate::mir::builder::patterns::constant(value, kind)) == kind,
        number_of(crate::mir::builder::patterns::constant(value, kind)) == if value.negative {
            -(value.magnitude as int)
        } else {
            value.magnitude as int
        },
{
}

impl Lowering {
    /// A literal is what is written, and nothing is done for it but for a string. A number without a
    /// kind has the one that was inferred.
    pub proof fn law_a_literal_is_what_is_written(self, lower: Lower, expr: ExprId)
        requires
            self.answers.context@.expr(expr) is Literal,
        ensures
            ({
                let literal = self.answers.context@.expr(expr)->Literal_0;
                let (value, after) = self.inner_lowered(lower, expr);
                &&& !(literal is String) ==> after == self
                &&& match literal {
                    Literal::Unit => value == Value::Unit,
                    Literal::Bool(x) => value == Value::Bool(x),
                    Literal::Char(x) => value == Value::Char(x),
                    Literal::Integer(x, kind) => {
                        let kind = match (kind, self.layout(self.expr_type(expr))) {
                            (Some(kind), _) => kind,
                            (None, Type::Primitive(PrimitiveType::Int(kind))) => kind,
                            _ => IntegerKind::I32,
                        };
                        value matches Value::Integer(constant) && (x.magnitude <= highest(kind) && (
                        x.negative ==> has_negatives(kind)) ==> kind_of(constant) == kind
                            && number_of(constant) == if x.negative {
                            -(x.magnitude as int)
                        } else {
                            x.magnitude as int
                        })
                    },
                    _ => true,
                }
            }),
    {
        reveal(Lowering::inner_lowered);
        reveal(Lowering::literal_made);
        match self.answers.context@.expr(expr)->Literal_0 {
            Literal::Integer(x, kind) => {
                let kind = match (kind, self.layout(self.expr_type(expr))) {
                    (Some(kind), _) => kind,
                    (None, Type::Primitive(PrimitiveType::Int(kind))) => kind,
                    _ => IntegerKind::I32,
                };
                if x.magnitude <= highest(kind) && (x.negative ==> has_negatives(kind)) {
                    law_a_constant_is_the_number_written(x, kind);
                }
            },
            _ => {},
        }
    }

    /// A string is made of its bytes with a zero behind them, no count, its length and no offset.
    pub proof fn law_a_string_is_its_bytes(self, lower: Lower, expr: ExprId) -> (stages: (
        Lowering,
        Lowering,
    ))
        requires
            self.is_running(),
            self.answers.context@.expr(expr) matches ExprForm::Literal(Literal::String(_)),
        ensures
            ({
                let text = self.answers.context@.expr(expr)->Literal_0->String_0;
                let bytes = vstd::utf8::encode_utf8(text@);
                let (value, after) = self.inner_lowered(lower, expr);
                exists|data: Value, count: Value, first: Lowering, second: Lowering|
                    {
                        &&& #[trigger] self.does(Operation::MakeBytes(bytes.push(0)), data, first)
                        &&& #[trigger] first.does(
                            Operation::Transmute(Value::Integer(IntConstant::Usz(0))),
                            count,
                            second,
                        )
                        &&& second.does(
                            Operation::MakeTuple(
                                seq![
                                    data,
                                    count,
                                    Value::Integer(IntConstant::U32(bytes.len() as u32)),
                                    Value::Integer(IntConstant::U32(0)),
                                ],
                            ),
                            value,
                            after,
                        )
                    }
            }),
    {
        reveal(Lowering::inner_lowered);
        reveal(Lowering::literal_made);
        reveal(Lowering::string_made);
        let text = self.answers.context@.expr(expr)->Literal_0->String_0;
        let bytes = vstd::utf8::encode_utf8(text@);
        let make = Operation::MakeBytes(bytes.push(0));
        let (data, first) = self.pushed(make, Type::pointer());
        self.pushing_does(make, Type::pointer());
        let zero = Operation::Transmute(Value::Integer(IntConstant::Usz(0)));
        let (count, second) = first.pushed(zero, Type::pointer());
        first.pushing_does(zero, Type::pointer());
        let length = Value::Integer(IntConstant::U32(bytes.len() as u32));
        let offset = Value::Integer(IntConstant::U32(0));
        second.pushing_does(
            Operation::MakeTuple(seq![data, count, length, offset]),
            Type::string(),
        );
        assert(self.does(Operation::MakeBytes(bytes.push(0)), data, first));
        (first, second)
    }

    /// A local is read as it is bound. One that can be assigned is bound to the slot it is in, and
    /// is loaded from there.
    pub proof fn law_a_local_is_read(self, lower: Lower, expr: ExprId, name: NameId)
        requires
            self.is_running(),
            self.answers.context@.expr(expr) matches ExprForm::Variable(path)
                && self.answers.context@.path_origin(path) == Some(Origin::Local(name)),
            self.locals.contains_key(name),
        ensures
            ({
                let (value, after) = self.inner_lowered(lower, expr);
                if self.mutable_locals.contains(name) {
                    self.does(Operation::Deref(self.locals[name]), value, after)
                } else {
                    self.locals[name] is Definition || (value == self.locals[name] && after == self)
                }
            }),
    {
        reveal(Lowering::inner_lowered);
        reveal(Lowering::variable_made);
        reveal(Lowering::ability_method);
        reveal(Lowering::path_value);
        reveal(Lowering::instantiated);
        let path = self.answers.context@.expr(expr)->Variable_0;
        let layout = self.layout(self.path_type(path));
        self.pushing_does(Operation::Deref(self.locals[name]), layout);
    }

    /// A pointer to a local is the slot the local is bound to; one to a member is one into what it
    /// is a member of, at the place of the member.
    pub proof fn law_a_place_is_pointed_at(self, lower: Lower, lhs: ExprId, depth: nat)
        requires
            depth > 0,
            self.shared_mut_layout(self.follow(self.expr_type(lhs))) is None,
        ensures
            ({
                let (pointer, after) = self.pointer_lowered(lower, lhs, depth);
                match self.answers.context@.expr(lhs) {
                    ExprForm::Variable(path) => match self.answers.context@.path_origin(path) {
                        Some(Origin::Local(name)) => self.locals.contains_key(name) ==> pointer
                            == self.locals[name] && after == self,
                        _ => true,
                    },
                    ExprForm::TypeAnnotation { lhs } => (pointer, after) == self.pointer_lowered(
                        lower,
                        lhs,
                        (depth - 1) as nat,
                    ),
                    ExprForm::MemberAccess { object, .. } => {
                        let (whole, made) = self.pointer_lowered(
                            lower,
                            object,
                            (depth - 1) as nat,
                        );
                        made.is_running() && self.answers.context@.member_access_indices.contains_key(
                            lhs,
                        ) ==> exists|struct_type: Type|
                            made.does(
                                #[trigger] pointed_field(
                                    whole,
                                    struct_type,
                                    self.answers.context@.member_access_indices[lhs],
                                ),
                                pointer,
                                after,
                            )
                    },
                    _ => true,
                }
            }),
    {
        reveal_with_fuel(Lowering::pointer_lowered, 2);
        match self.answers.context@.expr(lhs) {
            ExprForm::MemberAccess { object, .. } => {
                let (whole, made) = self.pointer_lowered(lower, object, (depth - 1) as nat);
                let step = pointed_field(
                    whole,
                    self.pointed_layout(object),
                    self.member_index(lhs),
                );
                if made.is_running() {
                    made.pushing_does(step, Type::pointer());
                }
            },
            _ => {},
        }
    }

    /// An assignment finds its place first and its value next, drops what was there before, and then
    /// stores the value. Gives the state behind the value, the one behind the drops and what the
    /// drops give.
    pub proof fn law_an_assignment_stores_its_value(self, lower: Lower, expr: ExprId) -> (stages: (
        Lowering,
        Lowering,
        Seq<Value>,
    ))
        requires
            self.answers.context@.expr(expr) matches ExprForm::Assignment(assignment)
                && assignment.op is None,
        ensures
            ({
                let context = self.answers.context@;
                let assignment = context.expr(expr)->Assignment_0;
                let drops = if context.pre_exit_drops.contains_key(expr) {
                    context.pre_exit_drops[expr]
                } else {
                    Seq::empty()
                };
                let (valued, dropped, values) = stages;
                let (unit, after) = self.inner_lowered(lower, expr);
                let (pointer, placed) = self.pointer_lowered(
                    lower,
                    assignment.lhs,
                    NESTING_LIMIT as nat,
                );
                let (value, evaluated) = lower(placed, assignment.rhs);
                let shared = placed.shared_mut_layout(
                    placed.follow(placed.expr_type(assignment.lhs)),
                );
                &&& unit == Value::Unit
                &&& are_run(lower, drops, valued, dropped, values)
                &&& match shared {
                    // What the handle points at is overwritten.
                    Some(_) => evaluated.is_running() && dropped.is_running() ==> exists|
                        inner: Value,
                        stored: Value,
                    |
                        #[trigger] evaluated.does(Operation::Deref(value), inner, valued)
                            && #[trigger] dropped.does(
                            Operation::Store { pointer, value: inner },
                            stored,
                            after,
                        ),
                    None => {
                        &&& valued == evaluated.retained_if_place(assignment.rhs, value)
                        &&& dropped.is_running() ==> exists|stored: Value| #[trigger]
                            dropped.does(Operation::Store { pointer, value }, stored, after)
                    },
                }
            }),
    {
        reveal(Lowering::inner_lowered);
        reveal(Lowering::assignment_lowered);
        reveal(Lowering::stored_lowered);
        let context = self.answers.context@;
        let assignment = context.expr(expr)->Assignment_0;
        let drops = ContextState::drops_in(context.pre_exit_drops, expr);
        let (pointer, placed) = self.pointer_lowered(
            lower,
            assignment.lhs,
            NESTING_LIMIT as nat,
        );
        let (value, evaluated) = lower(placed, assignment.rhs);
        let (stored, valued) = placed.stored_lowered(lower, assignment.lhs, assignment.rhs);
        valued.law_expressions_run_in_order(lower, drops);
        let (values, dropped) = valued.all_lowered(lower, drops, drops.len() as int);
        let store = Operation::Store { pointer, value: stored };
        if dropped.is_running() {
            dropped.pushing_does(store, Type::unit());
        }
        match placed.shared_mut_layout(placed.follow(placed.expr_type(assignment.lhs))) {
            Some(layout) => {
                if evaluated.is_running() && dropped.is_running() {
                    evaluated.pushing_does(Operation::Deref(value), layout);
                    assert(evaluated.does(Operation::Deref(value), stored, valued));
                    assert(dropped.does(
                        Operation::Store { pointer, value: stored },
                        dropped.pushed(store, Type::unit()).0,
                        dropped.pushed(store, Type::unit()).1,
                    ));
                }
            },
            None => {
                if dropped.is_running() {
                    assert(dropped.does(
                        Operation::Store { pointer, value },
                        dropped.pushed(store, Type::unit()).0,
                        dropped.pushed(store, Type::unit()).1,
                    ));
                }
            },
        }
        (valued, dropped, values)
    }

    /// A compound assignment loads what is at its place, evaluates its operand and its operator in
    /// that order, calls the operator on both, with its evidence behind them, drops what was there
    /// before, and stores the result at the place. Gives what is loaded and the state then, what is
    /// passed and the state before the call, the result and the state then, and the state behind
    /// the drops with what they give.
    pub proof fn law_a_compound_assignment_stores_the_result(self, lower: Lower, expr: ExprId) -> (
        stages: (
            (Value, Lowering),
            (Seq<Value>, Lowering),
            (Value, Lowering),
            (Seq<Value>, Lowering),
        ))
        requires
            self.answers.context@.expr(expr) matches ExprForm::Assignment(assignment)
                && assignment.op is Some,
            self.pointer_lowered(
                lower,
                self.answers.context@.expr(expr)->Assignment_0.lhs,
                NESTING_LIMIT as nat,
            ).1.is_running(),
        ensures
            ({
                let context = self.answers.context@;
                let assignment = context.expr(expr)->Assignment_0;
                let drops = if context.pre_exit_drops.contains_key(expr) {
                    context.pre_exit_drops[expr]
                } else {
                    Seq::empty()
                };
                let ((current, loaded), (passed, ready), (result, called), (values, dropped)) =
                    stages;
                let after = self.inner_lowered(lower, expr).1;
                let (pointer, placed) = self.pointer_lowered(
                    lower,
                    assignment.lhs,
                    NESTING_LIMIT as nat,
                );
                let (operand, at_operand) = lower(loaded, assignment.rhs);
                let (operator, at_operator) = lower(at_operand, assignment.op.unwrap());
                &&& placed.does(Operation::Deref(pointer), current, loaded)
                &&& 2 <= passed.len() <= 3 && passed[0] == current && passed[1] == operand
                &&& ready.is_running() ==> ready.does(
                    Operation::Call { function: operator, arguments: passed },
                    result,
                    called,
                ) || ready.does(
                    Operation::CallClosure { closure: operator, arguments: passed },
                    result,
                    called,
                )
                &&& are_run(lower, drops, called, dropped, values)
                &&& dropped.is_running() ==> exists|stored: Value| #[trigger]
                    dropped.does(Operation::Store { pointer, value: result }, stored, after)
            }),
    {
        reveal(Lowering::inner_lowered);
        reveal(Lowering::assignment_lowered);
        reveal(Lowering::compound_lowered);
        reveal(Lowering::with_evidence);
        reveal(Lowering::called);
        let context = self.answers.context@;
        let assignment = context.expr(expr)->Assignment_0;
        let op = assignment.op.unwrap();
        let drops = ContextState::drops_in(context.pre_exit_drops, expr);
        let (pointer, placed) = self.pointer_lowered(
            lower,
            assignment.lhs,
            NESTING_LIMIT as nat,
        );
        let layout = placed.assigned_layout(assignment.lhs);
        let (current, loaded) = placed.pushed(Operation::Deref(pointer), layout);
        placed.pushing_does(Operation::Deref(pointer), layout);
        let (operand, at_operand) = lower(loaded, assignment.rhs);
        let (operator, at_operator) = lower(at_operand, op);
        let (passed, ready) = at_operator.with_evidence(op, operator, seq![current, operand]);
        let (result, called) = ready.called(operator, passed, layout);
        called.law_expressions_run_in_order(lower, drops);
        let (values, dropped) = called.all_lowered(lower, drops, drops.len() as int);
        if ready.is_running() {
            let plain = Operation::Call { function: operator, arguments: passed };
            let closure = Operation::CallClosure { closure: operator, arguments: passed };
            ready.pushing_does(plain, layout);
            ready.pushing_does(closure, layout);
        }
        if dropped.is_running() {
            let store = Operation::Store { pointer, value: result };
            dropped.pushing_does(store, Type::unit());
            let (stored, after) = dropped.pushed(store, Type::unit());
            assert(dropped.does(Operation::Store { pointer, value: result }, stored, after));
        }
        ((current, loaded), (passed, ready), (result, called), (values, dropped))
    }
}

/// A pointer to the field at `index` of what `whole` points at.
pub open spec fn pointed_field(whole: Value, struct_type: Type, index: u32) -> Operation {
    Operation::GetFieldPtr { struct_ptr: whole, struct_type, index }
}

/// The callee borrows the argument that is written at `place`.
pub open spec fn borrows_at(mask: Option<Seq<bool>>, place: int) -> bool {
    mask matches Some(mask) && place < mask.len() && mask[place]
}

/// How many of the arguments before `index` are written at the call.
pub open spec fn written_before(arguments: Seq<Argument>, index: int) -> nat {
    arguments.take(index).filter(|argument: Argument| !argument.is_implicit).len()
}

proof fn written_are_counted(arguments: Seq<Argument>, count: int)
    requires
        0 <= count <= arguments.len(),
    ensures
        crate::mir::builder::calls::explicit_count(arguments, count) == written_before(
            arguments,
            count,
        ),
    decreases count,
{
    let written = |argument: Argument| !argument.is_implicit;
    reveal(Seq::filter);
    if count > 0 {
        written_are_counted(arguments, count - 1);
        assert(arguments.take(count).drop_last() =~= arguments.take(count - 1));
    } else {
        assert(arguments.take(0) =~= Seq::<Argument>::empty());
    }
}

impl Lowering {
    /// A reference to a local with a slot is the slot, and one to what is a reference already is
    /// that. Any other value that is no part of a place is put into a slot of its own.
    pub proof fn law_a_reference_is_a_pointer(self, lower: Lower, expr: ExprId)
        requires
            self.answers.context@.expr(expr) is Reference,
        ensures
            ({
                let context = self.answers.context@;
                let rhs = context.expr(expr)->Reference_rhs;
                let (value, after) = self.inner_lowered(lower, expr);
                let slot = match context.expr(rhs) {
                    ExprForm::Variable(path) => match context.path_origin(path) {
                        Some(Origin::Local(name)) => if self.mutable_locals.contains(name) {
                            Some(name)
                        } else {
                            None
                        },
                        _ => None,
                    },
                    _ => None,
                };
                match slot {
                    Some(name) => self.locals.contains_key(name) ==> value == self.locals[name]
                        && after == self,
                    None => if self.follow(self.expr_type(rhs)).referent(
                        self.answers.bindings@,
                    ) is Some {
                        (value, after) == lower(self, rhs)
                    } else {
                        let (referred, made) = lower(self, rhs);
                        !(context.expr(rhs) is MemberAccess) && made.is_running() ==> made.does(
                            Operation::StackAlloc(referred),
                            value,
                            after,
                        )
                    },
                }
            }),
    {
        reveal(Lowering::inner_lowered);
        reveal(Lowering::reference_lowered);
        let rhs = self.answers.context@.expr(expr)->Reference_rhs;
        let (referred, made) = lower(self, rhs);
        if made.is_running() {
            made.pushing_does(Operation::StackAlloc(referred), Type::pointer());
        }
    }

    /// A member of a value is taken out of it at its place, and one of what is referred to is
    /// pointed at there. A handle is loaded first.
    pub proof fn law_a_member_is_taken_out(self, lower: Lower, expr: ExprId)
        requires
            self.answers.context@.expr(expr) is MemberAccess,
            self.answers.context@.member_access_indices.contains_key(expr),
        ensures
            ({
                let context = self.answers.context@;
                let object = context.expr(expr)->MemberAccess_object;
                let index = context.member_access_indices[expr];
                let typ = self.follow(self.expr_type(object));
                let (whole, made) = lower(self, object);
                let (value, after) = self.inner_lowered(lower, expr);
                let element = match typ.referent(self.answers.bindings@) {
                    Some(element) => Some(element),
                    None => typ.pointee(self.answers.bindings@),
                };
                match element {
                    Some(element) => made.is_running() ==> made.does(
                        pointed_field(whole, self.layout(element), index),
                        value,
                        after,
                    ),
                    None => {
                        let (tuple, opened) = made.dereferenced(whole, typ);
                        &&& made.shared_layout(typ) is None ==> (tuple, opened) == (whole, made)
                        &&& made.shared_layout(typ) is Some && made.is_running() ==> made.does(
                            Operation::Deref(whole),
                            tuple,
                            opened,
                        )
                        &&& opened.is_running() ==> opened.does(
                            Operation::IndexTuple { tuple, index },
                            value,
                            after,
                        )
                    },
                }
            }),
    {
        reveal(Lowering::inner_lowered);
        reveal(Lowering::member_lowered);
        reveal(Lowering::dereferenced);
        let object = self.answers.context@.expr(expr)->MemberAccess_object;
        let index = self.answers.context@.member_access_indices[expr];
        let typ = self.follow(self.expr_type(object));
        let (whole, made) = lower(self, object);
        let (tuple, opened) = made.dereferenced(whole, typ);
        match self.place_element(typ) {
            Some(element) => {
                if made.is_running() {
                    made.pushing_does(
                        pointed_field(whole, self.layout(element), index),
                        Type::pointer(),
                    );
                }
            },
            None => {
                match made.shared_layout(typ) {
                    Some(layout) => {
                        if made.is_running() {
                            made.pushing_does(Operation::Deref(whole), layout);
                        }
                    },
                    None => {},
                }
                let field = match opened.value_type(tuple).fields() {
                    Some(fields) => if index < fields.len() {
                        fields[index as int]
                    } else {
                        Type::error()
                    },
                    None => Type::error(),
                };
                if opened.is_running() {
                    opened.pushing_does(Operation::IndexTuple { tuple, index }, field);
                }
            },
        }
    }

    /// What is annotated is lowered as it is without the annotation.
    pub proof fn law_an_annotation_changes_nothing(self, lower: Lower, expr: ExprId)
        requires
            self.answers.context@.expr(expr) is TypeAnnotation,
        ensures
            self.inner_lowered(lower, expr) == lower(
                self,
                self.answers.context@.expr(expr)->TypeAnnotation_lhs,
            ),
    {
        reveal(Lowering::inner_lowered);
    }

    /// A variable that is defined is bound to the value of its definition. One that can be assigned
    /// is bound to a slot that the value is put into.
    pub proof fn law_a_definition_binds_its_value(self, lower: Lower, expr: ExprId, name: NameId)
        requires
            self.function is Some,
            self.answers.context@.expr(expr) matches ExprForm::Definition(definition) && {
                &&& self.answers.context@.pattern(definition.pattern) == PatternForm::Variable(name)
                &&& !(self.answers.context@.expr(definition.rhs) is Lambda)
                &&& !self.answers.retain_bindings@.contains(definition.rhs)
            },
            self.answers.name_origins@.contains_key(name),
            self.answers.name_origins@[name] == Origin::Local(name),
            keeps(lower),
        ensures
            ({
                let definition = self.answers.context@.expr(expr)->Definition_0;
                let (value, made) = lower(self, definition.rhs);
                let (unit, after) = self.inner_lowered(lower, expr);
                &&& unit == Value::Unit
                &&& if definition.mutable {
                    made.is_running() ==> exists|slot: Value, placed: Lowering|
                        {
                            &&& #[trigger] made.does(Operation::StackAlloc(value), slot, placed)
                            &&& after.function == placed.function
                            &&& after.block == placed.block
                            &&& after.locals == made.locals.insert(name, slot)
                            &&& after.mutable_locals == made.mutable_locals.insert(name)
                        }
                } else {
                    after == (Lowering { locals: made.locals.insert(name, value), ..made })
                }
            }),
    {
        reveal(Lowering::inner_lowered);
        reveal(Lowering::definition_lowered);
        reveal(Lowering::definition_value_lowered);
        reveal(Lowering::definition_bound);
        reveal(Lowering::pattern_bound);
        reveal(Lowering::name_bound);
        reveal(Lowering::with_variable);
        reveal(Lowering::pattern_names);
        reveal(Lowering::pattern_name);
        let definition = self.answers.context@.expr(expr)->Definition_0;
        let (value, made) = lower(self, definition.rhs);
        assert(kept(self, made));
        assert(made.answers == self.answers) by {
            reveal(kept);
            reveal(crate::mir::builder::laws::carried);
        }
        let bound = made.with_local(name, value);
        reveal_with_fuel(Lowering::bound, 2);
        assert(made.pattern_bound(definition.pattern, value) == bound);
        if definition.mutable {
            reveal_with_fuel(Lowering::with_names, 2);
            reveal_with_fuel(Lowering::made_mutable, 3);
            let names = made.pattern_names(definition.pattern);
            assert(names =~= seq![name]);
            if made.is_running() {
                let alloc = Operation::StackAlloc(value);
                bound.pushing_does(alloc, Type::pointer());
                let (slot, put) = bound.pushed(alloc, Type::pointer());
                made.pushing_does(alloc, Type::pointer());
                let (same, placed) = made.pushed(alloc, Type::pointer());
                assert(put.function == placed.function && same == slot) by {
                    reveal(Lowering::pushed);
                }
                assert(made.does(Operation::StackAlloc(value), slot, placed));
                assert(put.locals.insert(name, slot) =~= made.locals.insert(name, slot));
                let after = self.inner_lowered(lower, expr).1;
                assert(after.locals == made.locals.insert(name, slot));
            }
        }
    }

    /// The value of an expression is there before what is recorded for it happens: a handle that
    /// leaves is retained, then the drops of the scope run, and the environment of a closure is
    /// released last. Where the expression stands for a slot of a closure, the value is what the
    /// slot holds. Gives the value and the state before the drops, and those behind them.
    pub proof fn law_drops_follow_the_value(self, lower: Lower, expr: ExprId) -> (stages: (
        Value,
        Lowering,
        (Lowering, Seq<Value>),
        (Value, Lowering, Value),
    ))
        ensures
            ({
                let context = self.answers.context@;
                let drops = if context.post_expr_drops.contains_key(expr) {
                    context.post_expr_drops[expr]
                } else {
                    Seq::empty()
                };
                let (value, ready, (dropped, values), (environment, taken, gone)) = stages;
                let (inner, made) = self.inner_lowered(lower, expr);
                let (own, at_own) = if context.closure_env_slots.contains_key(expr) {
                    made.slot_extracted(inner, context.closure_env_slots[expr])
                } else {
                    (inner, made)
                };
                let (result, after) = self.value_lowered(lower, expr);
                &&& value == own && result == own
                &&& ready == if context.escape_retains.contains(expr) {
                    at_own.place_retained(expr, own)
                } else {
                    at_own
                }
                &&& are_run(lower, drops, ready, dropped, values)
                &&& if context.closure_env_releases.contains(expr) {
                    dropped.is_running() ==> dropped.does(
                        Operation::IndexTuple { tuple: own, index: 1 },
                        environment,
                        taken,
                    ) && taken.does(Operation::ReleaseClosureEnv(environment), gone, after)
                } else {
                    after == dropped
                }
            }),
    {
        reveal(Lowering::value_lowered);
        let context = self.answers.context@;
        let drops = ContextState::drops_in(context.post_expr_drops, expr);
        let (inner, made) = self.inner_lowered(lower, expr);
        let (own, at_own) = if context.closure_env_slots.contains_key(expr) {
            made.slot_extracted(inner, context.closure_env_slots[expr])
        } else {
            (inner, made)
        };
        let ready = if context.escape_retains.contains(expr) {
            at_own.place_retained(expr, own)
        } else {
            at_own
        };
        ready.law_expressions_run_in_order(lower, drops);
        let (values, dropped) = ready.all_lowered(lower, drops, drops.len() as int);
        let take = Operation::IndexTuple { tuple: own, index: 1 };
        let (environment, taken) = dropped.pushed(take, Type::pointer());
        let release = Operation::ReleaseClosureEnv(environment);
        let gone = taken.pushed(release, Type::unit()).0;
        if dropped.is_running() {
            dropped.pushing_does(take, Type::pointer());
            taken.pushing_does(release, Type::unit());
        }
        (own, ready, (dropped, values), (environment, taken, gone))
    }

    /// An operation of the target is given the values of its arguments, which run one after the
    /// other.
    pub proof fn law_an_intrinsic_takes_its_arguments(self, lower: Lower, expr: ExprId) -> (ready: (
        Seq<Value>,
        Lowering,
    ))
        requires
            self.answers.context@.expr(expr) is Call,
            self.answers.intrinsics@.contains_key(expr),
        ensures
            ({
                let arguments = self.answers.context@.expr(expr)->Call_arguments;
                let operation = self.answers.intrinsics@[expr];
                let exprs = Seq::new(arguments.len(), |i: int| arguments[i].expr);
                let (values, made) = ready;
                let (value, after) = self.inner_lowered(lower, expr);
                &&& are_run(lower, exprs, self, made, values)
                &&& made.is_running() ==> made.does(
                    Operation::Intrinsic { operation, arguments: values },
                    value,
                    after,
                )
            }),
    {
        reveal(Lowering::inner_lowered);
        reveal(Lowering::call_lowered);
        reveal(Lowering::intrinsic_lowered);
        let arguments = self.answers.context@.expr(expr)->Call_arguments;
        let operation = self.answers.intrinsics@[expr];
        let exprs = exprs_of(arguments);
        assert(exprs =~= Seq::new(arguments.len(), |i: int| arguments[i].expr));
        self.law_expressions_run_in_order(lower, exprs);
        let (values, made) = self.all_lowered(lower, exprs, exprs.len() as int);
        if made.is_running() {
            made.pushing_does(
                Operation::Intrinsic { operation, arguments: values },
                self.layout(self.expr_type(expr)),
            );
        }
        (values, made)
    }

    /// What happens to the count of an argument that was evaluated to `value`: `before` is the state
    /// then, and `after` the one in which the argument is passed. A release function takes the count
    /// it is passed, and implicit arguments are not counted. A handle that the callee borrows is not
    /// retained if it is new, nor if the callee cannot suspend. Any other place is retained.
    pub open spec fn counts(
        self,
        argument: Argument,
        value: Value,
        borrowed: bool,
        pure: bool,
        is_release: bool,
        after: Lowering,
    ) -> bool {
        let is_read = self.answers.context@.expr(argument.expr) is Variable
            || self.answers.context@.expr(argument.expr) is MemberAccess;
        let is_handle = self.shared_target(self.expr_type(argument.expr)) is Some;
        if is_release || argument.is_implicit || !is_read {
            after == self
        } else if borrowed && is_handle {
            if pure {
                after == self
            } else {
                self.is_running() ==> exists|retain: Value| #[trigger]
                    self.does(Operation::RcRetain(value), retain, after)
            }
        } else {
            after == self.place_retained(argument.expr, value)
        }
    }

    /// An argument is evaluated, its count is seen to, and what is passed is the value as the callee
    /// takes it.
    pub open spec fn passes_argument(
        self,
        lower: Lower,
        function: Value,
        callee: ExprId,
        argument: Argument,
        index: int,
        borrowed: bool,
        pure: bool,
        is_release: bool,
        passed: Value,
        after: Lowering,
    ) -> bool {
        let (value, made) = lower(self, argument.expr);
        exists|counted: Lowering|
            made.counts(argument, value, borrowed, pure, is_release, counted) && (passed, after)
                == #[trigger] counted.coerced(value, function, callee, index)
    }

    /// The arguments of a call are evaluated one after the other: `states` are those before each of
    /// them, and the one behind the last, and `values` are what is passed.
    pub open spec fn passes_arguments(
        lower: Lower,
        function: Value,
        callee: ExprId,
        arguments: Seq<Argument>,
        mask: Option<Seq<bool>>,
        pure: bool,
        is_release: bool,
        states: Seq<Lowering>,
        values: Seq<Value>,
    ) -> bool {
        &&& states.len() == arguments.len() + 1
        &&& values.len() == arguments.len()
        &&& forall|i: int|
            #![trigger arguments[i]]
            0 <= i < arguments.len() ==> states[i].passes_argument(
                lower,
                function,
                callee,
                arguments[i],
                i,
                borrows_at(mask, written_before(arguments, i) as int),
                pure,
                is_release,
                values[i],
                states[i + 1],
            )
    }

    proof fn counting_counts(
        self,
        argument: Argument,
        value: Value,
        borrowed: bool,
        pure: bool,
        is_release: bool,
    )
        ensures
            self.counts(
                argument,
                value,
                borrowed,
                pure,
                is_release,
                self.argument_counted(argument, value, borrowed, pure, is_release).1,
            ),
    {
        reveal(Lowering::argument_counted);
        reveal(Lowering::retained_if_place);
        if self.is_running() {
            self.pushing_does(Operation::RcRetain(value), Type::unit());
            let (retain, after) = self.pushed(Operation::RcRetain(value), Type::unit());
            assert(self.does(Operation::RcRetain(value), retain, after));
        }
    }

    proof fn arguments_are_passed(
        self,
        lower: Lower,
        function: Value,
        callee: ExprId,
        arguments: Seq<Argument>,
        mask: Option<Seq<bool>>,
        pure: bool,
        is_release: bool,
        count: int,
    ) -> (states: Seq<Lowering>)
        requires
            0 <= count <= arguments.len(),
        ensures
            ({
                let (values, _, after) = self.arguments_lowered(
                    lower,
                    function,
                    callee,
                    arguments,
                    mask,
                    pure,
                    is_release,
                    count,
                );
                &&& Lowering::passes_arguments(
                    lower,
                    function,
                    callee,
                    arguments.take(count),
                    mask,
                    pure,
                    is_release,
                    states,
                    values,
                )
                &&& states[0] == self
                &&& states.last() == after
            }),
        decreases count,
    {
        reveal_with_fuel(Lowering::arguments_lowered, 2);
        if count > 0 {
            let states = self.arguments_are_passed(
                lower,
                function,
                callee,
                arguments,
                mask,
                pure,
                is_release,
                count - 1,
            );
            let (values, _, before) = self.arguments_lowered(
                lower,
                function,
                callee,
                arguments,
                mask,
                pure,
                is_release,
                count - 1,
            );
            let argument = arguments[count - 1];
            let (value, made) = lower(before, argument.expr);
            let index = crate::mir::builder::calls::explicit_count(arguments, count - 1);
            let borrowed = crate::mir::builder::calls::borrows(mask, index);
            made.counting_counts(argument, value, borrowed, pure, is_release);
            written_are_counted(arguments, count - 1);
            let counted = made.argument_counted(argument, value, borrowed, pure, is_release).1;
            let (passed, after) = counted.coerced(value, function, callee, count - 1);
            let more = states.push(after);
            let all = values.push(passed);
            let earlier = arguments.take(count - 1);
            let now = arguments.take(count);
            assert forall|i: int|
                #![trigger now[i]]
                0 <= i < now.len() implies more[i].passes_argument(
                lower,
                function,
                callee,
                now[i],
                i,
                borrows_at(mask, written_before(now, i) as int),
                pure,
                is_release,
                all[i],
                more[i + 1],
            ) by {
                assert(now.take(i) =~= arguments.take(i));
                if i < count - 1 {
                    assert(earlier[i] == now[i]);
                    assert(earlier.take(i) =~= arguments.take(i));
                } else {
                    assert(made.counts(argument, value, borrowed, pure, is_release, counted));
                }
            }
            more
        } else {
            assert(Lowering::passes_arguments(
                lower,
                function,
                callee,
                arguments.take(0),
                mask,
                pure,
                is_release,
                seq![self],
                Seq::<Value>::empty(),
            ));
            seq![self]
        }
    }

    /// A call evaluates its callee, then its arguments one after the other, and then calls the
    /// callee with them, and with its evidence behind them. A callee that does not come back is the
    /// end of its block. Gives the states around the arguments, what they give, what is passed, and
    /// the states before and behind the call.
    pub proof fn law_a_call_passes_its_arguments(self, lower: Lower, expr: ExprId) -> (stages: (
        Seq<Lowering>,
        Seq<Value>,
        (Seq<Value>, Lowering),
        Lowering,
    ))
        requires
            self.answers.context@.expr(expr) is Call,
            !self.answers.intrinsics@.contains_key(expr),
            self.answers.context@.expr(self.answers.context@.expr(expr)->Call_function) matches ExprForm::Variable(
            path) ==> self.ability_method(path) == (
                None::<(u32, u32, crate::database::AbilityKind)>,
                self,
            ),
        ensures
            ({
                let callee = self.answers.context@.expr(expr)->Call_function;
                let arguments = self.answers.context@.expr(expr)->Call_arguments;
                let (states, values, (passed, ready), called) = stages;
                let (function, at_function) = lower(self, callee);
                let (value, after) = self.inner_lowered(lower, expr);
                let is_release = self.is_release_callee(callee);
                let mask = if is_release {
                    None
                } else {
                    self.callee_mask(callee)
                };
                let pure = mask is Some && self.implicits_are_pure(arguments);
                &&& states.len() > 0 && states[0] == at_function
                &&& Lowering::passes_arguments(
                    lower,
                    function,
                    callee,
                    arguments,
                    mask,
                    pure,
                    is_release,
                    states,
                    values,
                )
                &&& values.is_prefix_of(passed) && passed.len() <= values.len() + 1
                &&& (passed, ready) == states.last().with_evidence(callee, function, values)
                &&& ready.is_running() ==> ready.does(
                    Operation::Call { function, arguments: passed },
                    value,
                    called,
                ) || ready.does(
                    Operation::CallClosure { closure: function, arguments: passed },
                    value,
                    called,
                )
                &&& self.callee_diverges(callee) && ready.is_running() ==> after.end_of(
                    ready.block,
                ) == Some(Terminator::Unreachable)
            }),
    {
        reveal(Lowering::inner_lowered);
        reveal(Lowering::call_lowered);
        reveal(Lowering::plain_call_lowered);
        reveal(Lowering::called);
        let callee = self.answers.context@.expr(expr)->Call_function;
        let arguments = self.answers.context@.expr(expr)->Call_arguments;
        let diverges = self.callee_diverges(callee);
        let typ = if diverges {
            Type::unit()
        } else {
            self.layout(self.expr_type(expr))
        };
        assert(self.inner_lowered(lower, expr) == self.plain_call_lowered(
            lower,
            callee,
            arguments,
            typ,
            diverges,
        ));
        let is_release = self.is_release_callee(callee);
        let mask = if is_release {
            None
        } else {
            self.callee_mask(callee)
        };
        let pure = mask is Some && self.implicits_are_pure(arguments);
        let (function, at_function) = lower(self, callee);
        let states = at_function.arguments_are_passed(
            lower,
            function,
            callee,
            arguments,
            mask,
            pure,
            is_release,
            arguments.len() as int,
        );
        assert(arguments.take(arguments.len() as int) =~= arguments);
        let (values, _, made) = at_function.arguments_lowered(
            lower,
            function,
            callee,
            arguments,
            mask,
            pure,
            is_release,
            arguments.len() as int,
        );
        let (passed, ready) = made.with_evidence(callee, function, values);
        assert(values.is_prefix_of(passed) && passed.len() <= values.len() + 1) by {
            reveal(Lowering::with_evidence);
        }
        let layout = if diverges {
            Type::unit()
        } else {
            ready.call_layout(function, typ)
        };
        let (value, called) = ready.called(function, passed, layout);
        if ready.is_running() {
            ready.pushing_does(Operation::Call { function, arguments: passed }, layout);
            ready.pushing_does(
                Operation::CallClosure { closure: function, arguments: passed },
                layout,
            );
            if diverges {
                called.a_block_ends(Terminator::Unreachable);
            }
        }
        (states, values, (passed, ready), called)
    }

    /// The fields of a struct are evaluated one after the other, in the order they are written in:
    /// `states` are those before each of them, and the one behind the last.
    pub open spec fn evaluates_fields(
        lower: Lower,
        fields: Seq<(NameId, ExprId)>,
        states: Seq<Lowering>,
        values: Seq<Value>,
    ) -> bool {
        &&& states.len() == fields.len() + 1
        &&& values.len() == fields.len()
        &&& forall|i: int|
            #![trigger fields[i]]
            0 <= i < fields.len() ==> {
                let (value, made) = lower(states[i], fields[i].1);
                values[i] == value && states[i + 1] == made.retained_if_place(fields[i].1, value)
            }
    }

    proof fn fields_are_evaluated(self, lower: Lower, fields: Seq<(NameId, ExprId)>, count: int) -> (
        states: Seq<Lowering>)
        requires
            0 <= count <= fields.len(),
        ensures
            ({
                let (values, after) = self.fields_lowered(lower, fields, count);
                &&& Lowering::evaluates_fields(lower, fields.take(count), states, values)
                &&& states[0] == self
                &&& states.last() == after
            }),
        decreases count,
    {
        reveal_with_fuel(Lowering::fields_lowered, 2);
        if count > 0 {
            let states = self.fields_are_evaluated(lower, fields, count - 1);
            let (values, before) = self.fields_lowered(lower, fields, count - 1);
            let (value, made) = lower(before, fields[count - 1].1);
            let more = states.push(made.retained_if_place(fields[count - 1].1, value));
            let all = values.push(value);
            let earlier = fields.take(count - 1);
            let now = fields.take(count);
            assert forall|i: int|
                #![trigger now[i]]
                0 <= i < now.len() implies {
                let (value, made) = lower(more[i], now[i].1);
                all[i] == value && more[i + 1] == made.retained_if_place(now[i].1, value)
            } by {
                if i < count - 1 {
                    assert(earlier[i] == now[i]);
                }
            }
            more
        } else {
            seq![self]
        }
    }

    /// A struct is made of the values of its fields, which are evaluated in the order they are
    /// written in and packed in the order they are declared in, each of them once. Gives the states
    /// around the fields, their values, what is packed, and the state before that.
    pub proof fn law_a_struct_holds_its_fields(self, lower: Lower, expr: ExprId) -> (stages: (
        Seq<Lowering>,
        Seq<Value>,
        Seq<(u32, Value)>,
        (Seq<Value>, Lowering),
    ))
        requires
            self.answers.context@.expr(expr) is Constructor,
        ensures
            ({
                let fields = self.answers.context@.expr(expr)->Constructor_fields;
                let (states, values, ordered, (packed, ready)) = stages;
                let (value, after) = self.inner_lowered(lower, expr);
                let evaluated = states.last();
                &&& states.len() > 0 && states[0] == self
                &&& Lowering::evaluates_fields(lower, fields, states, values)
                &&& forall|i: int, j: int|
                    0 <= i <= j < ordered.len() ==> ordered[i].0 <= ordered[j].0
                &&& ordered.to_multiset() == Seq::new(
                    fields.len(),
                    |i: int| (evaluated.field_place(expr, fields[i].0), values[i]),
                ).to_multiset()
                &&& (packed, ready) == evaluated.fields_coerced(
                    Seq::new(ordered.len(), |i: int| ordered[i].1),
                    evaluated.layout(evaluated.expr_type(expr)).fields(),
                    ordered.len() as int,
                )
                &&& ready.is_running() ==> ready.does(Operation::MakeTuple(packed), value, after)
            }),
    {
        reveal(Lowering::inner_lowered);
        reveal(Lowering::constructor_lowered);
        let fields = self.answers.context@.expr(expr)->Constructor_fields;
        let count = fields.len() as int;
        let states = self.fields_are_evaluated(lower, fields, count);
        assert(fields.take(count) =~= fields);
        let (values, evaluated) = self.fields_lowered(lower, fields, count);
        let ordered = evaluated.fields_by_place(expr, fields, values, count);
        evaluated.law_fields_are_packed_in_order(expr, fields, values, count);
        let unplaced = values_of(ordered);
        assert(unplaced =~= Seq::new(ordered.len(), |i: int| ordered[i].1));
        let (packed, ready) = evaluated.fields_coerced(
            unplaced,
            evaluated.layout(evaluated.expr_type(expr)).fields(),
            unplaced.len() as int,
        );
        if ready.is_running() {
            ready.pushing_does(
                Operation::MakeTuple(packed),
                Type::tuple(ready.types_of_values(packed)),
            );
        }
        (states, values, ordered, (packed, ready))
    }

    /// The variable of a case is bound to the payload at its place, unless one behind it is bound
    /// under the same name.
    pub proof fn law_payloads_are_bound_in_place(
        self,
        variant: Value,
        typ: Type,
        arguments: Seq<PathId>,
        count: int,
        index: int,
        name: NameId,
    )
        requires
            self.is_running(),
            0 <= index < count <= arguments.len(),
            self.answers.context@.path_origin(arguments[index]) == Some(Origin::Local(name)),
            forall|i: int|
                index < i < count ==> self.answers.context@.path_origin(#[trigger] arguments[i])
                    != Some(Origin::Local(name)),
            self.payloads_bound(variant, typ, arguments, count).function.unwrap().instructions.len()
                <= INSTRUCTION_LIMIT,
        ensures
            ({
                let after = self.payloads_bound(variant, typ, arguments, count);
                &&& after.is_running()
                &&& after.block == self.block
                &&& after.locals.contains_key(name)
                &&& after.operation_of(after.locals[name]) == Some(
                    Operation::IndexTuple { tuple: variant, index: index as u32 },
                )
            }),
        decreases count,
    {
        self.binding_payloads_goes_on(variant, typ, arguments, count);
        self.binding_payloads_goes_on(variant, typ, arguments, count - 1);
        reveal_with_fuel(Lowering::payloads_bound, 2);
        reveal(Lowering::with_variable);
        reveal(Lowering::pushed);
        let made = self.payloads_bound(variant, typ, arguments, count - 1);
        if index < count - 1 {
            self.law_payloads_are_bound_in_place(
                variant,
                typ,
                arguments,
                count - 1,
                index,
                name,
            );
            assert(self.answers.context@.path_origin(arguments[count - 1]) != Some(
                Origin::Local(name),
            ));
        }
    }

    proof fn binding_payloads_goes_on(
        self,
        variant: Value,
        typ: Type,
        arguments: Seq<PathId>,
        count: int,
    )
        requires
            self.is_running(),
        ensures
            ({
                let after = self.payloads_bound(variant, typ, arguments, count);
                &&& after.is_running()
                &&& after.block == self.block
                &&& after.answers == self.answers
            }),
        decreases count,
    {
        reveal_with_fuel(Lowering::payloads_bound, 2);
        if count > 0 {
            self.binding_payloads_goes_on(variant, typ, arguments, count - 1);
            reveal(Lowering::with_variable);
            reveal(Lowering::pushed);
        }
    }
}

} // verus!

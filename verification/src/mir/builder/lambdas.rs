//! How lambdas, and the handlers that are made of them, are lowered.

use crate::collections::{is_listed, map_get, set_contains};
#[allow(unused_imports)]
use crate::collections::put;
use crate::cst::{copy_ids, Expr, HandleCase, Parameter};
#[allow(unused_imports)]
use crate::cst::{ExprForm, HandleForm};
use crate::ids::{BlockId, DefinitionId, ExprId, NameId, NESTING_LIMIT};
#[allow(unused_imports)]
use crate::mir::builder::expressions::{recursion, Lower};
use crate::mir::builder::state::{Builder, TCType};
#[allow(unused_imports)]
use crate::mir::builder::state::Lowering;
use crate::mir::{
    HandlerCase, Instruction, PrimitiveType, TerminatorInstruction, Type, Value,
};
#[allow(unused_imports)]
use crate::mir::{Operation, Terminator};
use crate::types::FunctionType as TCFunctionType;
use vstd::prelude::*;

verus! {

/// What a lambda is for. Only a plain one takes its evidence as a parameter: the others get their
/// capabilities through their environment.
#[derive(Clone, Copy, Debug, PartialEq, Eq, Structural)]
pub enum LambdaRole {
    Plain,
    /// What a `handle` runs, with the name of its handler.
    HandleBody(NameId),
    /// What a `handle` does when an operation is performed.
    HandlerBranch,
}

/// A lambda, apart from its parameters.
#[derive(Clone, Copy, Debug, PartialEq, Eq, Structural)]
pub struct LambdaShape {
    pub expr: ExprId,
    pub body: ExprId,
    /// The name it is bound to.
    pub name_id: Option<NameId>,
    pub is_global: bool,
    pub role: LambdaRole,
}

impl LambdaRole {
    pub open spec fn is_plain(self) -> bool {
        self == LambdaRole::Plain
    }

    pub open spec fn handler(self) -> Option<NameId> {
        match self {
            LambdaRole::HandleBody(name) => Some(name),
            _ => None,
        }
    }

    fn check_plain(&self) -> (plain: bool)
        ensures
            plain == self.is_plain(),
    {
        match self {
            LambdaRole::Plain => true,
            _ => false,
        }
    }

    fn find_handler(&self) -> (name: Option<NameId>)
        ensures
            name == self.handler(),
    {
        match self {
            LambdaRole::HandleBody(name) => Some(*name),
            _ => None,
        }
    }
}

/// What a lambda captures besides variables.
#[verifier::ext_equal]
pub struct Captured {
    /// The effects it needs a capability for, each with the capability.
    pub needed: Seq<(TCType, Value)>,
    /// The evidence for the open end of its effects.
    pub bundle: Option<Value>,
    pub bundle_type: Option<Type>,
}

impl Captured {
    pub open spec fn values(self) -> Seq<Value> {
        let values = self.needed.map_values(|effect: (TCType, Value)| effect.1);
        match self.bundle {
            Some(bundle) => values.push(bundle),
            None => values,
        }
    }
}

/// What a lambda captures besides variables.
pub struct CapturedValues {
    pub needed: Vec<(TCType, Value)>,
    pub bundle: Option<Value>,
    pub bundle_type: Option<Type>,
}

impl View for CapturedValues {
    type V = Captured;

    open spec fn view(&self) -> Captured {
        Captured {
            needed: self.needed@,
            bundle: self.bundle,
            bundle_type: self.bundle_type,
        }
    }
}

/// An environment with more fields behind its own.
pub open spec fn env_extended(environment: Type, fields: Seq<Type>) -> Type {
    Type::tuple(
        (match environment.fields() {
            Some(own) => own,
            None => Seq::empty(),
        }) + fields,
    )
}

/// The first `count` generics in scope.
pub open spec fn own_generics(count: int) -> Seq<Type>
    decreases count,
{
    if count <= 0 {
        Seq::empty()
    } else {
        own_generics(count - 1).push(Type::Generic((count - 1) as u32))
    }
}

/// What a closure captures, if it captures anything.
pub open spec fn names_or_none(names: Option<Seq<NameId>>) -> Seq<NameId> {
    match names {
        Some(names) => names,
        None => Seq::empty(),
    }
}

impl Lowering {
    /// The capabilities of the first `count` effects.
    #[verifier::opaque]
    pub open spec fn capabilities_taken(self, effects: Seq<TCType>, count: int) -> (
        Seq<(TCType, Value)>,
        Lowering,
    )
        decreases count,
    {
        if count <= 0 {
            (Seq::empty(), self)
        } else {
            let (taken, made) = self.capabilities_taken(effects, count - 1);
            let (value, made) = made.capability_taken(effects[count - 1]);
            (taken.push((effects[count - 1], value)), made)
        }
    }

    /// What a lambda with the given effects captures besides variables. It is found where the
    /// lambda is written, before its own definition starts.
    #[verifier::opaque]
    pub open spec fn captured(self, effects: TCType, role: LambdaRole) -> (Captured, Lowering) {
        if role.is_plain() {
            (Captured { needed: Seq::empty(), bundle: None, bundle_type: None }, self)
        } else {
            let needed = self.captured_effects(effects, role.handler());
            let (needed, made) = self.capabilities_taken(needed, needed.len() as int);
            let bundle = if self.row(effects).1 {
                made.bundle
            } else {
                None
            };
            (
                Captured {
                    needed,
                    bundle,
                    bundle_type: match bundle {
                        Some(value) => Some(made.value_type(value)),
                        None => None,
                    },
                },
                made,
            )
        }
    }

    /// The layouts of the first `count` parameters. The last one of a handler's branch resumes
    /// what performed the operation, and takes no evidence.
    #[verifier::opaque]
    pub open spec fn parameter_layouts(
        self,
        parameters: Seq<Parameter>,
        role: LambdaRole,
        count: int,
    ) -> Seq<Type>
        decreases count,
    {
        if count <= 0 {
            Seq::empty()
        } else {
            let typ = self.pattern_type(parameters[count - 1].pattern);
            self.parameter_layouts(parameters, role, count - 1).push(
                if role == LambdaRole::HandlerBranch && count == parameters.len() {
                    self.c_layout(typ)
                } else {
                    self.layout(typ)
                },
            )
        }
    }

    /// The layout of the environment of a lambda: its variables, then what else it captures.
    #[verifier::opaque]
    pub open spec fn lambda_environment(self, typ: TCFunctionType, captured: Captured) -> Type {
        let environment = self.layout(typ.environment);
        let environment = if captured.needed.len() == 0 {
            environment
        } else {
            env_extended(
                environment,
                self.types_of_values(
                    captured.needed.map_values(|effect: (TCType, Value)| effect.1),
                ),
            )
        };
        match captured.bundle_type {
            Some(typ) => env_extended(environment, seq![typ]),
            None => environment,
        }
    }

    #[verifier::opaque]
    pub open spec fn lambda_layout(
        self,
        typ: TCFunctionType,
        parameter_types: Seq<Type>,
        role: LambdaRole,
        environment: Type,
    ) -> Type {
        Type::function(
            if role.is_plain() {
                parameter_types.push(self.evidence_layout(typ.effects))
            } else {
                parameter_types
            },
            environment,
            self.layout(typ.return_type),
        )
    }

    /// This state with the first `count` parameters of a lambda bound.
    #[verifier::opaque]
    pub open spec fn parameters_bound(
        self,
        parameters: Seq<Parameter>,
        types: Seq<Type>,
        count: int,
    ) -> Lowering
        decreases count,
    {
        if count <= 0 {
            self
        } else {
            let made = self.parameters_bound(parameters, types, count - 1);
            let parameter = parameters[count - 1];
            let value = Value::Parameter(made.block, (count - 1) as u32);
            let bound = made.with_parameter(types[count - 1]).pattern_bound(
                parameter.pattern,
                value,
            );
            match bound.pattern_name(parameter.pattern) {
                Some(name) => if parameter.is_mutable {
                    let (slot, bound) = bound.pushed(
                        Operation::StackAlloc(value),
                        Type::pointer(),
                    );
                    bound.with_local(name, slot).with_mutable_local(name)
                } else {
                    bound
                },
                None => bound,
            }
        }
    }

    /// The first `count` capabilities of a piece of evidence as those of the current function,
    /// and the evidence that is left.
    #[verifier::opaque]
    pub open spec fn capabilities_unpacked(
        self,
        evidence: Value,
        typ: Type,
        effects: Seq<TCType>,
        count: int,
    ) -> (Value, Type, Lowering)
        decreases count,
    {
        if count <= 0 {
            (evidence, typ, self)
        } else {
            let (rest, rest_type, made) = self.capabilities_unpacked(
                evidence,
                typ,
                effects,
                count - 1,
            );
            match rest_type.fields() {
                Some(fields) => if fields.len() >= 2 {
                    let (capability, made) = made.pushed(
                        Operation::IndexTuple { tuple: rest, index: 0 },
                        fields[0],
                    );
                    let made = Lowering {
                        effects: made.effects.push((effects[count - 1], capability)),
                        ..made
                    };
                    let (rest, made) = made.pushed(
                        Operation::IndexTuple { tuple: rest, index: 1 },
                        fields[1],
                    );
                    (rest, fields[1], made)
                } else {
                    (rest, rest_type, made.fails())
                },
                None => (rest, rest_type, made.fails()),
            }
        }
    }

    /// This state with the evidence of a lambda as one more parameter.
    #[verifier::opaque]
    pub open spec fn evidence_unpacked(self, effects: TCType) -> Lowering {
        let typ = self.evidence_layout(effects);
        let (concretes, is_open) = self.row(effects);
        let (evidence, made) = self.with_capability_parameter(typ);
        let (rest, _, made) = made.capabilities_unpacked(
            evidence,
            typ,
            concretes,
            concretes.len() as int,
        );
        if is_open {
            Lowering { bundle: Some(rest), ..made }
        } else {
            made
        }
    }

    /// The first `count` captured variables bound to the fields of an environment. The scope of a
    /// lambda holds none of them before.
    #[verifier::opaque]
    pub open spec fn names_unpacked(
        self,
        environment: Value,
        fields: Seq<Type>,
        names: Seq<NameId>,
        count: int,
    ) -> Lowering
        decreases count,
    {
        if count <= 0 {
            self
        } else {
            let made = self.names_unpacked(environment, fields, names, count - 1);
            let (value, made) = made.pushed(
                Operation::IndexTuple { tuple: environment, index: (count - 1) as u32 },
                fields[count - 1],
            );
            let bound = made.with_local(names[count - 1], value);
            if made.locals.contains_key(names[count - 1]) {
                bound.fails()
            } else {
                bound
            }
        }
    }

    /// The first `count` captured capabilities, read from the fields behind the first `skipped`.
    #[verifier::opaque]
    pub open spec fn captured_unpacked(
        self,
        environment: Value,
        fields: Seq<Type>,
        skipped: int,
        needed: Seq<(TCType, Value)>,
        count: int,
    ) -> Lowering
        decreases count,
    {
        if count <= 0 {
            self
        } else {
            let made = self.captured_unpacked(environment, fields, skipped, needed, count - 1);
            let index = skipped + count - 1;
            let (value, made) = made.pushed(
                Operation::IndexTuple { tuple: environment, index: index as u32 },
                fields[index],
            );
            Lowering { effects: made.effects.push((needed[count - 1].0, value)), ..made }
        }
    }

    /// The layouts of the fields of an environment on the heap.
    #[verifier::opaque]
    pub open spec fn heap_fields(self, names: Seq<NameId>, captured: Captured) -> Seq<Type> {
        let own = names.map_values(|name: NameId| self.layout(self.name_type(name)))
            + self.types_of_values(
            captured.needed.map_values(|effect: (TCType, Value)| effect.1),
        );
        match captured.bundle_type {
            Some(typ) => own.push(typ),
            None => own,
        }
    }

    /// How many fields an environment has.
    pub open spec fn env_length(names: Seq<NameId>, captured: Captured) -> int {
        names.len() + captured.needed.len() + if captured.bundle_type is Some {
            1int
        } else {
            0int
        }
    }

    /// The fields of the environment a lambda is called with, bound to what was captured.
    #[verifier::opaque]
    pub open spec fn fields_unpacked(
        self,
        environment: Value,
        fields: Seq<Type>,
        names: Seq<NameId>,
        captured: Captured,
    ) -> Lowering {
        let made = self.names_unpacked(
            environment,
            fields,
            names,
            names.len() as int,
        ).captured_unpacked(
            environment,
            fields,
            names.len() as int,
            captured.needed,
            captured.needed.len() as int,
        );
        if captured.bundle_type is Some {
            let index = names.len() + captured.needed.len();
            let (value, made) = made.pushed(
                Operation::IndexTuple { tuple: environment, index: index as u32 },
                fields[index as int],
            );
            Lowering { bundle: Some(value), ..made }
        } else {
            made
        }
    }

    /// This state with the environment a lambda is called with unpacked.
    #[verifier::opaque]
    pub open spec fn env_unpacked(
        self,
        names: Seq<NameId>,
        captured: Captured,
        environment: Value,
    ) -> Lowering {
        let (value, made) = if self.value_type(environment) == Type::pointer() {
            self.pushed(
                Operation::Deref(environment),
                Type::tuple(self.heap_fields(names, captured)),
            )
        } else {
            (environment, self)
        };
        match made.value_type(value).fields() {
            Some(fields) => if fields.len() == Lowering::env_length(names, captured) {
                made.fields_unpacked(value, fields, names, captured)
            } else {
                made.fails()
            },
            None => made.fails(),
        }
    }

    /// The names whose value is a pointer to a slot.
    #[verifier::opaque]
    pub open spec fn mutable_among(self, names: Seq<NameId>, count: int) -> Seq<NameId>
        decreases count,
    {
        if count <= 0 {
            Seq::empty()
        } else if self.mutable_locals.contains(names[count - 1]) {
            self.mutable_among(names, count - 1).push(names[count - 1])
        } else {
            self.mutable_among(names, count - 1)
        }
    }

    #[verifier::opaque]
    pub open spec fn with_mutable_locals(self, names: Seq<NameId>, count: int) -> Lowering
        decreases count,
    {
        if count <= 0 {
            self
        } else {
            self.with_mutable_locals(names, count - 1).with_mutable_local(names[count - 1])
        }
    }

    pub open spec fn environment_of(self, expr: ExprId) -> Option<Seq<NameId>> {
        if self.answers.context@.closure_environments.contains_key(expr) {
            Some(self.answers.context@.closure_environments[expr])
        } else {
            None
        }
    }

    /// What a lambda holds by reference.
    pub open spec fn borrowed_by(self, expr: ExprId) -> Seq<NameId> {
        if self.answers.context@.borrowed_captures.contains_key(expr) {
            self.answers.context@.borrowed_captures[expr]
        } else {
            Seq::empty()
        }
    }

    pub open spec fn moves(self, expr: ExprId) -> bool {
        self.answers.context@.move_closures.contains(expr)
    }

    /// The lambda captures something.
    pub open spec fn has_captures(self, expr: ExprId, captured: Captured) -> bool {
        self.environment_of(expr) is Some || captured.values().len() > 0
    }

    /// The position of the environment among the parameters of a lambda.
    pub open spec fn env_index(parameters: Seq<Parameter>, role: LambdaRole) -> u32 {
        if role.is_plain() {
            (parameters.len() as u32).wrapping_add(1)
        } else {
            parameters.len() as u32
        }
    }

    /// This state with the environment of a lambda as its last parameter, unpacked. A closure that
    /// does not move its captures shares the slots of those that can be written to, and of those it
    /// holds by reference.
    #[verifier::opaque]
    pub open spec fn environment_taken(
        self,
        expr: ExprId,
        captured: Captured,
        mutable: Seq<NameId>,
        environment: Type,
        index: u32,
    ) -> Lowering {
        let made = if environment != Type::no_env() {
            self.with_parameter(environment)
        } else {
            self
        };
        if self.has_captures(expr, captured) {
            let made = made.env_unpacked(
                names_or_none(self.environment_of(expr)),
                captured,
                Value::Parameter(made.block, index),
            );
            if self.moves(expr) {
                made
            } else {
                let borrowed = self.borrowed_by(expr);
                made.with_mutable_locals(mutable, mutable.len() as int).with_mutable_locals(
                    borrowed,
                    borrowed.len() as int,
                )
            }
        } else {
            made
        }
    }

    /// This state with the capability of a `handle` bound to the name of its handler.
    #[verifier::opaque]
    pub open spec fn handler_bound(self, name: NameId, expr: ExprId) -> Lowering {
        let typ = self.name_type(name).substituted(
            self.answers.bindings@,
            NESTING_LIMIT as nat,
        );
        let (capability, made) = self.pushed(
            Operation::Capability,
            self.capability_layout(typ),
        );
        let made = made.with_local(name, capability);
        Lowering { handles: put(made.handles, expr, (typ, capability)), ..made }
    }

    /// This state with a lambda bound to its own name.
    #[verifier::opaque]
    pub open spec fn self_bound(
        self,
        name: NameId,
        needs_env: bool,
        index: u32,
        typ: Type,
    ) -> Lowering {
        match self.function {
            Some(function) => {
                let own = Value::Definition(function.id);
                if needs_env {
                    let (closure, made) = self.pushed(
                        Operation::PackClosure {
                            function: own,
                            environment: Value::Parameter(self.block, index),
                        },
                        typ,
                    );
                    made.with_local(name, closure)
                } else {
                    self.with_local(name, own)
                }
            },
            None => self.fails(),
        }
    }

    /// This state with the parameters of a lambda and all it captures bound.
    #[verifier::opaque]
    pub open spec fn lambda_entered(
        self,
        shape: LambdaShape,
        parameters: Seq<Parameter>,
        parameter_types: Seq<Type>,
        effects: TCType,
        captured: Captured,
        mutable: Seq<NameId>,
        environment: Type,
        typ: Type,
    ) -> Lowering {
        let index = Lowering::env_index(parameters, shape.role);
        let made = self.parameters_bound(
            parameters,
            parameter_types,
            parameters.len() as int,
        );
        let made = if shape.role.is_plain() {
            made.evidence_unpacked(effects)
        } else {
            made
        };
        let needs_env = self.has_captures(shape.expr, captured) || environment == Type::pointer();
        let made = if needs_env {
            made.environment_taken(shape.expr, captured, mutable, environment, index)
        } else {
            made
        };
        let made = match shape.role.handler() {
            Some(name) => made.handler_bound(name, shape.expr),
            None => made,
        };
        match shape.name_id {
            Some(name) => made.self_bound(name, needs_env, index, typ),
            None => made,
        }
    }

    /// The body of a lambda.
    #[verifier::opaque]
    pub open spec fn lambda_body(self, lower: Lower, body: ExprId) -> Lowering {
        let (value, made) = lower(self, body);
        made.terminated(Terminator::Return(value))
    }

    /// What the environment of a closure holds of a captured variable: its slot if it can be
    /// written to, or what is in the slot if the closure moves its captures; a slot it is put in if
    /// it is `borrowed`; or else its value. A handle to a shared cell is retained then: the
    /// environment has a count of its own.
    #[verifier::opaque]
    pub open spec fn name_packed(self, name: NameId, is_move: bool, borrowed: bool) -> (
        Value,
        Lowering,
    ) {
        if !self.locals.contains_key(name) {
            (Value::Error, self.fails())
        } else {
            let value = self.locals[name];
            if self.mutable_locals.contains(name) {
                if is_move {
                    self.pushed(Operation::Deref(value), self.layout(self.name_type(name)))
                } else {
                    (value, self)
                }
            } else if borrowed && !is_move {
                self.pushed(Operation::StackAlloc(value), Type::pointer())
            } else if self.shared_target(self.name_type(name)) is Some {
                (value, self.pushed(Operation::RcRetain(value), Type::unit()).1)
            } else {
                (value, self)
            }
        }
    }

    /// What the environment of a closure holds of the first `count` captured variables.
    #[verifier::opaque]
    pub open spec fn names_packed(
        self,
        names: Seq<NameId>,
        is_move: bool,
        borrowed: Seq<NameId>,
        count: int,
    ) -> (Seq<Value>, Lowering)
        decreases count,
    {
        if count <= 0 {
            (Seq::empty(), self)
        } else {
            let (values, made) = self.names_packed(names, is_move, borrowed, count - 1);
            let name = names[count - 1];
            let (value, made) = made.name_packed(name, is_move, borrowed.contains(name));
            (values.push(value), made)
        }
    }

    /// An environment of the captured variables and values, which is on the heap if the layout is
    /// that of a pointer.
    #[verifier::opaque]
    pub open spec fn env_packed(
        self,
        names: Seq<NameId>,
        captured: Seq<Value>,
        is_move: bool,
        borrowed: Seq<NameId>,
        environment: Type,
    ) -> (Value, Lowering) {
        if names.len() == 0 && captured.len() == 0 {
            (Value::Error, self.fails())
        } else {
            let (values, made) = self.names_packed(names, is_move, borrowed, names.len() as int);
            let values = values + captured;
            let (tuple, made) = made.pushed(
                Operation::MakeTuple(values),
                Type::tuple(made.types_of_values(values)),
            );
            if environment == Type::pointer() {
                made.pushed(Operation::AllocShared(tuple), Type::pointer())
            } else {
                (tuple, made)
            }
        }
    }

    /// The value of a lambda whose definition is finished. A lambda has the generics of what it is
    /// written in, and is used at those.
    #[verifier::opaque]
    pub open spec fn closure_made(
        self,
        shape: LambdaShape,
        text: Seq<char>,
        id: DefinitionId,
        captured: Captured,
        environment: Type,
        typ: Type,
    ) -> (Value, Lowering) {
        let (value, made) = self.definition_value(id, text, typ);
        let (value, made) = if !shape.is_global && made.generics.len() > 0 {
            made.pushed(
                Operation::Instantiate(id, own_generics(made.generics.len() as int)),
                typ,
            )
        } else {
            (value, made)
        };
        if self.has_captures(shape.expr, captured) {
            let (packed, made) = made.env_packed(
                names_or_none(self.environment_of(shape.expr)),
                captured.values(),
                self.moves(shape.expr),
                self.borrowed_by(shape.expr),
                environment,
            );
            made.pushed(Operation::PackClosure { function: value, environment: packed }, typ)
        } else if environment == Type::pointer() {
            made.packed_without_env(value, typ)
        } else {
            (value, made)
        }
    }

    /// This state out of every loop.
    pub open spec fn without_loops(self) -> Lowering {
        Lowering { loop_targets: Seq::empty(), ..self }
    }

    /// This state in the loops of `outer`.
    pub open spec fn looped_as(self, outer: Lowering) -> Lowering {
        Lowering { loop_targets: outer.loop_targets, ..self }
    }

    /// The definition of a lambda, which is lowered out of the scope it is written in.
    #[verifier::opaque]
    pub open spec fn lambda_defined(
        self,
        lower: Lower,
        shape: LambdaShape,
        parameters: Seq<Parameter>,
        text: Seq<char>,
        effects: TCType,
        parameter_types: Seq<Type>,
        captured: Captured,
        environment: Type,
        typ: Type,
    ) -> (DefinitionId, Lowering) {
        let names = names_or_none(self.environment_of(shape.expr));
        let mutable = self.mutable_among(names, names.len() as int);
        let (id, made) = self.without_loops().unscoped().definition_started(
            text,
            shape.name_id,
            self.generic_count(),
            typ,
        ).lambda_entered(
            shape,
            parameters,
            parameter_types,
            effects,
            captured,
            mutable,
            environment,
            typ,
        ).lambda_body(lower, shape.body).definition_finished(self);
        (id, made.looped_as(self).scoped_as(self))
    }

    /// The value of a lambda.
    #[verifier::opaque]
    pub open spec fn lambda_lowered(
        self,
        lower: Lower,
        shape: LambdaShape,
        parameters: Seq<Parameter>,
        text: Seq<char>,
    ) -> (Value, Lowering) {
        match self.follow(self.expr_type(shape.expr)) {
            TCType::Function(function) => {
                let (captured, made) = self.captured(function.effects, shape.role);
                let parameter_types = made.parameter_layouts(
                    parameters,
                    shape.role,
                    parameters.len() as int,
                );
                let environment = made.lambda_environment(*function, captured);
                let typ = made.lambda_layout(*function, parameter_types, shape.role, environment);
                let (id, made) = made.lambda_defined(
                    lower,
                    shape,
                    parameters,
                    text,
                    function.effects,
                    parameter_types,
                    captured,
                    environment,
                    typ,
                );
                made.closure_made(shape, text, id, captured, environment, typ)
            },
            _ => (Value::Error, self.fails()),
        }
    }

    /// A lambda that a `handle` is made of.
    #[verifier::opaque]
    pub open spec fn handler_lambda(self, lower: Lower, expr: ExprId, role: LambdaRole) -> (
        Value,
        Lowering,
    ) {
        match self.answers.context@.expr(expr) {
            ExprForm::Lambda { parameters, body, .. } => self.lambda_lowered(
                lower,
                LambdaShape { expr, body, name_id: None, is_global: false, role },
                parameters,
                "lambda"@,
            ),
            _ => (Value::Error, self.fails()),
        }
    }

    /// What a `handle` does when one operation is performed.
    #[verifier::opaque]
    pub open spec fn handler_lowered(self, lower: Lower, handler: HandleForm) -> (
        HandlerCase,
        Lowering,
    ) {
        let (method, made) = self.ability_method(handler.function);
        match method {
            Some((operation, index, _)) => {
                let (value, made) = made.with_op_index(operation, index).handler_lambda(
                    lower,
                    handler.branch,
                    LambdaRole::HandlerBranch,
                );
                (HandlerCase { effect_op: operation, handler: value }, made)
            },
            None => (HandlerCase { effect_op: 0, handler: Value::Error }, made.fails()),
        }
    }

    #[verifier::opaque]
    pub open spec fn handlers_lowered(
        self,
        lower: Lower,
        handlers: Seq<HandleForm>,
        count: int,
    ) -> (Seq<HandlerCase>, Lowering)
        decreases count,
    {
        if count <= 0 {
            (Seq::empty(), self)
        } else {
            let (cases, made) = self.handlers_lowered(lower, handlers, count - 1);
            let (case, made) = made.handler_lowered(lower, handlers[count - 1]);
            (cases.push(case), made)
        }
    }

    #[verifier::opaque]
    pub open spec fn handle_lowered(
        self,
        lower: Lower,
        body: ExprId,
        handler: NameId,
        handlers: Seq<HandleForm>,
        expr: ExprId,
    ) -> (Value, Lowering) {
        let layout = self.layout(self.expr_type(expr));
        let (body, made) = self.handler_lambda(lower, body, LambdaRole::HandleBody(handler));
        let (cases, made) = made.handlers_lowered(lower, handlers, handlers.len() as int);
        made.pushed(Operation::Handle { body, cases }, layout)
    }
}

fn extend_environment_with_fields(environment: &Type, fields: &Vec<Type>) -> (extended: Type)
    ensures
        extended == env_extended(*environment, fields@),
{
    let mut all = match environment.tuple_fields() {
        Some(own) => own,
        None => Vec::new(),
    };
    let ghost own = all@;
    let mut i: usize = 0;
    while i < fields.len()
        invariant
            i <= fields.len(),
            all@ == own + fields@.take(i as int),
        decreases fields.len() - i,
    {
        all.push(fields[i].clone());
        assert(all@ =~= own + fields@.take(i + 1));
        i += 1;
    }
    assert(fields@.take(i as int) =~= fields@);
    Type::tuple_of(&all)
}

fn list_own_generics(count: usize) -> (types: Vec<Type>)
    ensures
        types@ == own_generics(count as int),
{
    let mut types: Vec<Type> = Vec::new();
    let mut i: usize = 0;
    while i < count
        invariant
            i <= count,
            types@ == own_generics(i as int),
        decreases count - i,
    {
        types.push(Type::Generic(i as u32));
        i += 1;
    }
    types
}

fn list_values(needed: &Vec<(TCType, Value)>) -> (values: Vec<Value>)
    ensures
        values@ == needed@.map_values(|effect: (TCType, Value)| effect.1),
{
    let mut values: Vec<Value> = Vec::new();
    let mut i: usize = 0;
    while i < needed.len()
        invariant
            i <= needed.len(),
            values@ == needed@.take(i as int).map_values(|effect: (TCType, Value)| effect.1),
        decreases needed.len() - i,
    {
        values.push(needed[i].1);
        assert(values@ =~= needed@.take(i + 1).map_values(|effect: (TCType, Value)| effect.1));
        i += 1;
    }
    assert(needed@.take(i as int) =~= needed@);
    values
}

fn is_pointer(typ: &Type) -> (pointer: bool)
    ensures
        pointer == (*typ == Type::pointer()),
{
    match typ {
        Type::Primitive(PrimitiveType::Pointer) => true,
        _ => false,
    }
}

impl CapturedValues {
    fn list_values(&self) -> (values: Vec<Value>)
        ensures
            values@ == self@.values(),
    {
        let mut values = list_values(&self.needed);
        match self.bundle {
            Some(bundle) => {
                values.push(bundle);
            },
            None => {},
        }
        values
    }
}

fn find_env_index(count: usize, role: &LambdaRole, Ghost(parameters): Ghost<Seq<Parameter>>) -> (index:
    u32)
    requires
        count == parameters.len(),
    ensures
        index == Lowering::env_index(parameters, *role),
{
    if role.check_plain() {
        (count as u32).wrapping_add(1)
    } else {
        count as u32
    }
}

impl<'a> Builder<'a> {
    fn take_capabilities(&mut self, effects: &Vec<TCType>) -> (taken: Vec<(TCType, Value)>)
        ensures
            (taken@, final(self)@) == old(self)@.capabilities_taken(
                effects@,
                effects@.len() as int,
            ),
    {
        let mut taken: Vec<(TCType, Value)> = Vec::new();
        let mut i: usize = 0;
        proof {
            reveal(Lowering::capabilities_taken);
        }
        while i < effects.len()
            invariant
                i <= effects.len(),
                (taken@, self@) == old(self)@.capabilities_taken(effects@, i as int),
            decreases effects.len() - i,
        {
            proof {
                reveal(Lowering::capabilities_taken);
            }
            let value = self.take_capability(&effects[i]);
            taken.push((effects[i].clone(), value));
            i += 1;
        }
        taken
    }

    fn find_captured(&mut self, effects: &TCType, role: &LambdaRole) -> (captured: CapturedValues)
        ensures
            (captured@, final(self)@) == old(self)@.captured(*effects, *role),
    {
        proof {
            reveal(Lowering::captured);
        }
        if role.check_plain() {
            let needed: Vec<(TCType, Value)> = Vec::new();
            return CapturedValues { needed, bundle: None, bundle_type: None };
        }
        let needed = self.suppressed_lambda_needed_capabilities(effects, role.find_handler());
        let (_, is_open) = self.split_row(effects);
        let needed = self.take_capabilities(&needed);
        let bundle = if is_open {
            self.capability_bundle
        } else {
            None
        };
        let bundle_type = match bundle {
            Some(value) => Some(self.type_of_value(&value)),
            None => None,
        };
        CapturedValues { needed, bundle, bundle_type }
    }

    fn convert_parameters(&self, parameters: &Vec<Parameter>, role: &LambdaRole) -> (types: Vec<Type>)
        ensures
            types@ == self@.parameter_layouts(parameters@, *role, parameters@.len() as int),
            types@.len() == parameters@.len(),
    {
        let is_branch = match role {
            LambdaRole::HandlerBranch => true,
            _ => false,
        };
        let mut types: Vec<Type> = Vec::new();
        let mut i: usize = 0;
        proof {
            reveal(Lowering::parameter_layouts);
        }
        while i < parameters.len()
            invariant
                i <= parameters.len(),
                types@.len() == i,
                is_branch == (*role == LambdaRole::HandlerBranch),
                types@ == self@.parameter_layouts(parameters@, *role, i as int),
            decreases parameters.len() - i,
        {
            proof {
                reveal(Lowering::parameter_layouts);
            }
            let typ = self.type_of_pattern(parameters[i].pattern);
            let layout = if is_branch && i + 1 == parameters.len() {
                self.convert_c_function_type(&typ)
            } else {
                self.convert_type(&typ)
            };
            types.push(layout);
            i += 1;
        }
        types
    }

    fn extend_environment(&self, typ: &TCFunctionType, captured: &CapturedValues) -> (environment: Type)
        ensures
            environment == self@.lambda_environment(*typ, captured@),
    {
        proof {
            reveal(Lowering::lambda_environment);
        }
        let own = self.convert_type(&typ.environment);
        let environment = if captured.needed.len() == 0 {
            own
        } else {
            let values = list_values(&captured.needed);
            let fields = self.types_of_values(&values);
            extend_environment_with_fields(&own, &fields)
        };
        match &captured.bundle_type {
            Some(typ) => {
                let mut fields: Vec<Type> = Vec::new();
                fields.push(typ.clone());
                assert(fields@ =~= seq![*typ]);
                extend_environment_with_fields(&environment, &fields)
            },
            None => environment,
        }
    }

    fn build_function_type(
        &self,
        typ: &TCFunctionType,
        parameter_types: &Vec<Type>,
        role: &LambdaRole,
        environment: &Type,
    ) -> (layout: Type)
        ensures
            layout == self@.lambda_layout(*typ, parameter_types@, *role, *environment),
    {
        proof {
            reveal(Lowering::lambda_layout);
        }
        let mut all = crate::mir::layouts::copy_types(parameter_types);
        if role.check_plain() {
            all.push(self.evidence_type(&typ.effects));
        }
        Type::function_of(&all, environment.clone(), self.convert_type(&typ.return_type))
    }

    fn bind_parameters(&mut self, parameters: &Vec<Parameter>, types: &Vec<Type>)
        requires
            types@.len() == parameters@.len(),
        ensures
            final(self)@ == old(self)@.parameters_bound(
                parameters@,
                types@,
                parameters@.len() as int,
            ),
    {
        let mut i: usize = 0;
        proof {
            reveal(Lowering::parameters_bound);
        }
        while i < parameters.len()
            invariant
                i <= parameters.len(),
                types@.len() == parameters@.len(),
                self@ == old(self)@.parameters_bound(parameters@, types@, i as int),
            decreases parameters.len() - i,
        {
            proof {
                reveal(Lowering::parameters_bound);
            }
            let parameter = parameters[i];
            let value = Value::Parameter(self.current_block, i as u32);
            self.push_parameter(types[i].clone());
            self.bind_pattern(parameter.pattern, value);
            match self.try_find_name(parameter.pattern) {
                Some(name) => {
                    if parameter.is_mutable {
                        let slot = self.push_instruction(
                            Instruction::StackAlloc(value),
                            Type::Primitive(PrimitiveType::Pointer),
                        );
                        self.set_local(name, slot);
                        self.set_mutable_local(name);
                    }
                },
                None => {},
            }
            i += 1;
        }
    }

    fn unpack_capabilities(&mut self, evidence: Value, typ: Type, effects: &Vec<TCType>) -> (rest:
        Value)
        ensures
            ({
                let (value, _, made) = old(self)@.capabilities_unpacked(
                    evidence,
                    typ,
                    effects@,
                    effects@.len() as int,
                );
                (rest, final(self)@) == (value, made)
            }),
    {
        let mut rest = evidence;
        let mut rest_type = typ;
        let ghost first_type = typ;
        let mut i: usize = 0;
        proof {
            reveal(Lowering::capabilities_unpacked);
        }
        while i < effects.len()
            invariant
                i <= effects.len(),
                (rest, rest_type, self@) == old(self)@.capabilities_unpacked(
                    evidence,
                    first_type,
                    effects@,
                    i as int,
                ),
            decreases effects.len() - i,
        {
            proof {
                reveal(Lowering::capabilities_unpacked);
            }
            match rest_type.tuple_fields() {
                Some(fields) => {
                    if fields.len() >= 2 {
                        let capability = self.push_instruction(
                            Instruction::IndexTuple { tuple: rest, index: 0 },
                            fields[0].clone(),
                        );
                        self.effects.push((effects[i].clone(), capability));
                        rest = self.push_instruction(
                            Instruction::IndexTuple { tuple: rest, index: 1 },
                            fields[1].clone(),
                        );
                        rest_type = fields[1].clone();
                    } else {
                        self.fail();
                    }
                },
                None => {
                    self.fail();
                },
            }
            i += 1;
        }
        rest
    }

    fn unpack_evidence(&mut self, effects: &TCType)
        ensures
            final(self)@ == old(self)@.evidence_unpacked(*effects),
    {
        proof {
            reveal(Lowering::evidence_unpacked);
        }
        let typ = self.evidence_type(effects);
        let (concretes, is_open) = self.split_row(effects);
        let evidence = self.push_capability_parameter(typ.clone());
        let rest = self.unpack_capabilities(evidence, typ, &concretes);
        if is_open {
            self.capability_bundle = Some(rest);
        }
    }

    fn unpack_names(&mut self, environment: Value, fields: &Vec<Type>, names: &Vec<NameId>)
        requires
            names@.len() <= fields@.len(),
        ensures
            final(self)@ == old(self)@.names_unpacked(
                environment,
                fields@,
                names@,
                names@.len() as int,
            ),
    {
        let mut i: usize = 0;
        proof {
            reveal(Lowering::names_unpacked);
        }
        while i < names.len()
            invariant
                i <= names.len(),
                names@.len() <= fields@.len(),
                self@ == old(self)@.names_unpacked(environment, fields@, names@, i as int),
            decreases names.len() - i,
        {
            proof {
                reveal(Lowering::names_unpacked);
            }
            let value = self.push_instruction(
                Instruction::IndexTuple { tuple: environment, index: i as u32 },
                fields[i].clone(),
            );
            let is_bound = map_get(&self.local_variables, names[i]).is_some();
            self.set_local(names[i], value);
            if is_bound {
                self.fail();
            }
            i += 1;
        }
    }

    fn unpack_captured(
        &mut self,
        environment: Value,
        fields: &Vec<Type>,
        skipped: usize,
        needed: &Vec<(TCType, Value)>,
    )
        requires
            skipped + needed@.len() <= fields@.len(),
        ensures
            final(self)@ == old(self)@.captured_unpacked(
                environment,
                fields@,
                skipped as int,
                needed@,
                needed@.len() as int,
            ),
    {
        let mut i: usize = 0;
        proof {
            reveal(Lowering::captured_unpacked);
        }
        while i < needed.len()
            invariant
                i <= needed.len(),
                skipped + needed@.len() <= fields@.len(),
                self@ == old(self)@.captured_unpacked(
                    environment,
                    fields@,
                    skipped as int,
                    needed@,
                    i as int,
                ),
            decreases needed.len() - i,
        {
            proof {
                reveal(Lowering::captured_unpacked);
            }
            assert(fields@.len() == fields.len());
            let index: usize = skipped + i;
            let value = self.push_instruction(
                Instruction::IndexTuple { tuple: environment, index: index as u32 },
                fields[index].clone(),
            );
            self.effects.push((needed[i].0.clone(), value));
            i += 1;
        }
    }

    fn list_heap_fields(&self, names: &Vec<NameId>, captured: &CapturedValues) -> (types: Vec<Type>)
        ensures
            types@ == self@.heap_fields(names@, captured@),
    {
        proof {
            reveal(Lowering::heap_fields);
        }
        let mut types: Vec<Type> = Vec::new();
        let mut i: usize = 0;
        while i < names.len()
            invariant
                i <= names.len(),
                types@ == names@.take(i as int).map_values(
                    |name: NameId| self@.layout(self@.name_type(name)),
                ),
            decreases names.len() - i,
        {
            let typ = self.type_of_name(names[i]);
            types.push(self.convert_type(&typ));
            assert(types@ =~= names@.take(i + 1).map_values(
                |name: NameId| self@.layout(self@.name_type(name)),
            ));
            i += 1;
        }
        assert(names@.take(i as int) =~= names@);
        let values = list_values(&captured.needed);
        let mut more = self.types_of_values(&values);
        types.append(&mut more);
        match &captured.bundle_type {
            Some(typ) => {
                types.push(typ.clone());
            },
            None => {},
        }
        types
    }

    fn unpack_fields(
        &mut self,
        environment: Value,
        fields: &Vec<Type>,
        names: &Vec<NameId>,
        captured: &CapturedValues,
    )
        requires
            fields@.len() == Lowering::env_length(names@, captured@),
        ensures
            final(self)@ == old(self)@.fields_unpacked(environment, fields@, names@, captured@),
    {
        proof {
            reveal(Lowering::fields_unpacked);
        }
        self.unpack_names(environment, fields, names);
        self.unpack_captured(environment, fields, names.len(), &captured.needed);
        if captured.bundle_type.is_some() {
            assert(fields@.len() == fields.len());
            let index: usize = names.len() + captured.needed.len();
            let value = self.push_instruction(
                Instruction::IndexTuple { tuple: environment, index: index as u32 },
                fields[index].clone(),
            );
            self.capability_bundle = Some(value);
        }
    }

    fn fits(fields: usize, names: usize, needed: usize, has_bundle: bool) -> (fits: bool)
        ensures
            fits == (fields == names + needed + if has_bundle {
                1int
            } else {
                0int
            }),
    {
        if fields < names || fields - names < needed {
            false
        } else if has_bundle {
            fields - names - needed == 1
        } else {
            fields - names - needed == 0
        }
    }

    /// Bind what a lambda captured to the fields of the environment it is called with.
    fn unpack_closure_environment(
        &mut self,
        names: &Vec<NameId>,
        captured: &CapturedValues,
        environment: Value,
    )
        ensures
            final(self)@ == old(self)@.env_unpacked(names@, captured@, environment),
    {
        proof {
            reveal(Lowering::env_unpacked);
        }
        let value = if is_pointer(&self.type_of_value(&environment)) {
            let types = self.list_heap_fields(names, captured);
            self.push_instruction(Instruction::Deref(environment), Type::tuple_of(&types))
        } else {
            environment
        };
        match self.type_of_value(&value).tuple_fields() {
            Some(fields) => {
                if Self::fits(
                    fields.len(),
                    names.len(),
                    captured.needed.len(),
                    captured.bundle_type.is_some(),
                ) {
                    self.unpack_fields(value, &fields, names, captured);
                } else {
                    self.fail();
                }
            },
            None => {
                self.fail();
            },
        }
    }

    fn list_mutable_among(&self, names: &Vec<NameId>) -> (mutable: Vec<NameId>)
        ensures
            mutable@ == self@.mutable_among(names@, names@.len() as int),
    {
        let mut mutable: Vec<NameId> = Vec::new();
        let mut i: usize = 0;
        proof {
            reveal(Lowering::mutable_among);
        }
        while i < names.len()
            invariant
                i <= names.len(),
                mutable@ == self@.mutable_among(names@, i as int),
            decreases names.len() - i,
        {
            proof {
                reveal(Lowering::mutable_among);
            }
            if set_contains(&self.mutable_locals, names[i]) {
                mutable.push(names[i]);
            }
            i += 1;
        }
        mutable
    }

    fn set_mutable_locals(&mut self, names: &Vec<NameId>)
        ensures
            final(self)@ == old(self)@.with_mutable_locals(names@, names@.len() as int),
    {
        let mut i: usize = 0;
        proof {
            reveal(Lowering::with_mutable_locals);
        }
        while i < names.len()
            invariant
                i <= names.len(),
                self@ == old(self)@.with_mutable_locals(names@, i as int),
            decreases names.len() - i,
        {
            proof {
                reveal(Lowering::with_mutable_locals);
            }
            self.set_mutable_local(names[i]);
            i += 1;
        }
    }

    fn find_environment(&self, expr: ExprId) -> (names: Option<&'a Vec<NameId>>)
        ensures
            match names {
                Some(names) => self@.environment_of(expr) == Some(names@),
                None => self@.environment_of(expr) is None,
            },
    {
        let answers = self.answers;
        map_get(&answers.context.closure_environments, expr)
    }

    fn list_environment(&self, expr: ExprId) -> (names: Vec<NameId>)
        ensures
            names@ == names_or_none(self@.environment_of(expr)),
    {
        match self.find_environment(expr) {
            Some(names) => copy_ids(names),
            None => Vec::new(),
        }
    }

    fn list_borrowed(&self, expr: ExprId) -> (names: Vec<NameId>)
        ensures
            names@ == self@.borrowed_by(expr),
    {
        match map_get(&self.answers.context.borrowed_captures, expr) {
            Some(names) => copy_ids(names),
            None => Vec::new(),
        }
    }

    fn check_has_captures(&self, expr: ExprId, captured: &CapturedValues) -> (has: bool)
        ensures
            has == self@.has_captures(expr, captured@),
    {
        self.find_environment(expr).is_some() || captured.list_values().len() > 0
    }

    fn take_environment(
        &mut self,
        expr: ExprId,
        captured: &CapturedValues,
        mutable: &Vec<NameId>,
        environment: &Type,
        index: u32,
    )
        ensures
            final(self)@ == old(self)@.environment_taken(
                expr,
                captured@,
                mutable@,
                *environment,
                index,
            ),
    {
        proof {
            reveal(Lowering::environment_taken);
        }
        let has_captures = self.check_has_captures(expr, captured);
        let names = self.list_environment(expr);
        let is_move = set_contains(&self.answers.context.move_closures, expr);
        let borrowed = self.list_borrowed(expr);
        match environment {
            Type::Primitive(PrimitiveType::NoClosureEnv) => {},
            _ => {
                self.push_parameter(environment.clone());
            },
        }
        if has_captures {
            let value = Value::Parameter(self.current_block, index);
            self.unpack_closure_environment(&names, captured, value);
            if !is_move {
                self.set_mutable_locals(mutable);
                self.set_mutable_locals(&borrowed);
            }
        }
    }

    fn bind_handler(&mut self, name: NameId, expr: ExprId)
        ensures
            final(self)@ == old(self)@.handler_bound(name, expr),
    {
        proof {
            reveal(Lowering::handler_bound);
        }
        let typ = self.type_of_name(name).substitute(&self.answers.bindings, NESTING_LIMIT);
        let layout = self.effect_capability_tuple_type_of(&typ);
        let capability = self.push_instruction(Instruction::Capability, layout);
        self.set_local(name, capability);
        self.handle_capabilities.put(expr, (typ, capability));
    }

    fn bind_self(&mut self, name: NameId, needs_env: bool, index: u32, typ: &Type)
        ensures
            final(self)@ == old(self)@.self_bound(name, needs_env, index, *typ),
    {
        proof {
            reveal(Lowering::self_bound);
        }
        let id = match &self.current_function {
            Some(function) => function.id,
            None => {
                self.failed = true;
                return ;
            },
        };
        let own = Value::Definition(id);
        if needs_env {
            let environment = Value::Parameter(self.current_block, index);
            let closure = self.push_instruction(
                Instruction::PackClosure { function: own, environment },
                typ.clone(),
            );
            self.set_local(name, closure);
        } else {
            self.set_local(name, own);
        }
    }

    fn enter_lambda(
        &mut self,
        shape: LambdaShape,
        parameters: &Vec<Parameter>,
        parameter_types: &Vec<Type>,
        effects: &TCType,
        captured: &CapturedValues,
        mutable: &Vec<NameId>,
        environment: &Type,
        typ: &Type,
    )
        requires
            parameter_types@.len() == parameters@.len(),
        ensures
            final(self)@ == old(self)@.lambda_entered(
                shape,
                parameters@,
                parameter_types@,
                *effects,
                captured@,
                mutable@,
                *environment,
                *typ,
            ),
    {
        proof {
            reveal(Lowering::lambda_entered);
        }
        let index = find_env_index(parameters.len(), &shape.role, Ghost(parameters@));
        let needs_env = self.check_has_captures(shape.expr, captured) || is_pointer(environment);
        self.bind_parameters(parameters, parameter_types);
        if shape.role.check_plain() {
            self.unpack_evidence(effects);
        }
        if needs_env {
            self.take_environment(shape.expr, captured, mutable, environment, index);
        }
        match shape.role.find_handler() {
            Some(name) => {
                self.bind_handler(name, shape.expr);
            },
            None => {},
        }
        match shape.name_id {
            Some(name) => {
                self.bind_self(name, needs_env, index, typ);
            },
            None => {},
        }
    }

    fn lower_lambda_body(&mut self, body: ExprId, depth: u64)
        ensures
            final(self)@ == old(self)@.lambda_body(recursion(depth as nat), body),
        decreases depth, 1nat, 0nat, 0nat,
    {
        proof {
            reveal(Lowering::lambda_body);
        }
        let value = self.expression(body, depth);
        self.terminate_block(TerminatorInstruction::Return(value));
    }

    fn pack_name(&mut self, name: NameId, is_move: bool, borrowed: bool) -> (value: Value)
        ensures
            (value, final(self)@) == old(self)@.name_packed(name, is_move, borrowed),
    {
        proof {
            reveal(Lowering::name_packed);
        }
        let value = match map_get(&self.local_variables, name) {
            Some(value) => *value,
            None => {
                self.fail();
                return Value::Error;
            },
        };
        let typ = self.type_of_name(name);
        if set_contains(&self.mutable_locals, name) {
            if is_move {
                let layout = self.convert_type(&typ);
                return self.push_instruction(Instruction::Deref(value), layout);
            }
        } else if borrowed && !is_move {
            return self.push_instruction(
                Instruction::StackAlloc(value),
                Type::Primitive(PrimitiveType::Pointer),
            );
        } else if self.shared_release_target(&typ).is_some() {
            self.push_instruction(
                Instruction::RcRetain(value),
                Type::Primitive(PrimitiveType::Unit),
            );
        }
        value
    }

    fn pack_names(&mut self, names: &Vec<NameId>, is_move: bool, borrowed: &Vec<NameId>) -> (values:
        Vec<Value>)
        ensures
            (values@, final(self)@) == old(self)@.names_packed(
                names@,
                is_move,
                borrowed@,
                names@.len() as int,
            ),
    {
        let mut values: Vec<Value> = Vec::new();
        let mut i: usize = 0;
        proof {
            reveal(Lowering::names_packed);
        }
        while i < names.len()
            invariant
                i <= names.len(),
                (values@, self@) == old(self)@.names_packed(
                    names@,
                    is_move,
                    borrowed@,
                    i as int,
                ),
            decreases names.len() - i,
        {
            proof {
                reveal(Lowering::names_packed);
            }
            let value = self.pack_name(names[i], is_move, is_listed(borrowed, names[i]));
            values.push(value);
            i += 1;
        }
        values
    }

    /// Pack what a lambda captures into an environment.
    fn pack_closure_environment(
        &mut self,
        names: &Vec<NameId>,
        captured: Vec<Value>,
        is_move: bool,
        borrowed: &Vec<NameId>,
        environment: &Type,
    ) -> (value: Value)
        ensures
            (value, final(self)@) == old(self)@.env_packed(
                names@,
                captured@,
                is_move,
                borrowed@,
                *environment,
            ),
    {
        proof {
            reveal(Lowering::env_packed);
        }
        if names.len() == 0 && captured.len() == 0 {
            self.fail();
            return Value::Error;
        }
        let mut values = self.pack_names(names, is_move, borrowed);
        let mut captured = captured;
        values.append(&mut captured);
        let types = self.types_of_values(&values);
        let tuple = self.push_instruction(
            Instruction::MakeTuple(values),
            Type::tuple_of(&types),
        );
        if is_pointer(environment) {
            self.push_instruction(
                Instruction::AllocShared(tuple),
                Type::Primitive(PrimitiveType::Pointer),
            )
        } else {
            tuple
        }
    }

    fn make_closure(
        &mut self,
        shape: LambdaShape,
        text: String,
        id: DefinitionId,
        captured: &CapturedValues,
        environment: &Type,
        typ: &Type,
    ) -> (value: Value)
        ensures
            (value, final(self)@) == old(self)@.closure_made(
                shape,
                text@,
                id,
                captured@,
                *environment,
                *typ,
            ),
    {
        proof {
            reveal(Lowering::closure_made);
        }
        let has_captures = self.check_has_captures(shape.expr, captured);
        let names = self.list_environment(shape.expr);
        let is_move = set_contains(&self.answers.context.move_closures, shape.expr);
        let borrowed = self.list_borrowed(shape.expr);
        let value = self.make_definition_value(id, text, typ.clone());
        let value = if !shape.is_global && self.generics.len() > 0 {
            let own = list_own_generics(self.generics.len());
            self.push_instruction(Instruction::Instantiate(id, own), typ.clone())
        } else {
            value
        };
        if has_captures {
            let packed = self.pack_closure_environment(
                &names,
                captured.list_values(),
                is_move,
                &borrowed,
                environment,
            );
            self.push_instruction(
                Instruction::PackClosure { function: value, environment: packed },
                typ.clone(),
            )
        } else if is_pointer(environment) {
            self.pack_without_env(value, typ.clone())
        } else {
            value
        }
    }

    fn take_loops(&mut self) -> (loops: Vec<(BlockId, BlockId)>)
        ensures
            loops@ == old(self)@.loop_targets,
            final(self)@ == old(self)@.without_loops(),
    {
        let mut loops: Vec<(BlockId, BlockId)> = Vec::new();
        std::mem::swap(&mut loops, &mut self.loop_targets);
        loops
    }

    fn define_lambda(
        &mut self,
        shape: LambdaShape,
        parameters: &Vec<Parameter>,
        text: String,
        effects: &TCType,
        parameter_types: &Vec<Type>,
        captured: &CapturedValues,
        environment: &Type,
        typ: &Type,
        depth: u64,
    ) -> (id: DefinitionId)
        requires
            parameter_types@.len() == parameters@.len(),
        ensures
            (id, final(self)@) == old(self)@.lambda_defined(
                recursion(depth as nat),
                shape,
                parameters@,
                text@,
                *effects,
                parameter_types@,
                captured@,
                *environment,
                *typ,
            ),
        decreases depth, 2nat, 0nat, 0nat,
    {
        proof {
            reveal(Lowering::lambda_defined);
        }
        let names = self.list_environment(shape.expr);
        let mutable = self.list_mutable_among(&names);
        let generic_count = self.generic_count();
        let ghost before = self@;
        let loops = self.take_loops();
        let scope = self.take_scope();
        let outer = self.start_global(text, shape.name_id, generic_count, typ.clone());
        self.enter_lambda(
            shape,
            parameters,
            parameter_types,
            effects,
            captured,
            &mutable,
            environment,
            typ,
        );
        self.lower_lambda_body(shape.body, depth);
        let id = self.end_global(outer, Ghost(before));
        self.loop_targets = loops;
        self.restore_scope(scope, Ghost(before));
        id
    }

    /// Lower a lambda.
    pub fn lambda(
        &mut self,
        shape: LambdaShape,
        parameters: &Vec<Parameter>,
        text: String,
        depth: u64,
    ) -> (value: Value)
        ensures
            (value, final(self)@) == old(self)@.lambda_lowered(
                recursion(depth as nat),
                shape,
                parameters@,
                text@,
            ),
        decreases depth, 3nat, 0nat, 0nat,
    {
        proof {
            reveal(Lowering::lambda_lowered);
        }
        let typ = self.type_of_expr(shape.expr);
        let function = match self.follow(&typ) {
            TCType::Function(function) => (**function).clone(),
            _ => {
                self.fail();
                return Value::Error;
            },
        };
        let captured = self.find_captured(&function.effects, &shape.role);
        let parameter_types = self.convert_parameters(parameters, &shape.role);
        let environment = self.extend_environment(&function, &captured);
        let layout = self.build_function_type(
            &function,
            &parameter_types,
            &shape.role,
            &environment,
        );
        let id = self.define_lambda(
            shape,
            parameters,
            text.clone(),
            &function.effects,
            &parameter_types,
            &captured,
            &environment,
            &layout,
            depth,
        );
        self.make_closure(shape, text, id, &captured, &environment, &layout)
    }

    fn handler_lambda(&mut self, expr: ExprId, role: LambdaRole, depth: u64) -> (value: Value)
        ensures
            (value, final(self)@) == old(self)@.handler_lambda(
                recursion(depth as nat),
                expr,
                role,
            ),
        decreases depth, 4nat, 0nat, 0nat,
    {
        proof {
            reveal(Lowering::handler_lambda);
        }
        let answers = self.answers;
        match answers.context.expr(expr) {
            Expr::Lambda { parameters, body, .. } => self.lambda(
                LambdaShape { expr, body: *body, name_id: None, is_global: false, role },
                parameters,
                "lambda".to_owned(),
                depth,
            ),
            _ => {
                self.fail();
                Value::Error
            },
        }
    }

    fn lower_handler(&mut self, handler: &HandleCase, depth: u64) -> (case: HandlerCase)
        ensures
            (case, final(self)@) == old(self)@.handler_lowered(
                recursion(depth as nat),
                handler@,
            ),
        decreases depth, 5nat, 0nat, 0nat,
    {
        proof {
            reveal(Lowering::handler_lowered);
        }
        match self.try_resolve_ability_method(handler.function) {
            Some((operation, index, _)) => {
                self.set_op_index(operation, index);
                let value = self.handler_lambda(
                    handler.branch,
                    LambdaRole::HandlerBranch,
                    depth,
                );
                HandlerCase { effect_op: operation, handler: value }
            },
            None => {
                self.fail();
                HandlerCase { effect_op: 0, handler: Value::Error }
            },
        }
    }

    fn lower_handlers(&mut self, handlers: &Vec<HandleCase>, depth: u64) -> (cases: Vec<HandlerCase>)
        ensures
            (cases@, final(self)@) == old(self)@.handlers_lowered(
                recursion(depth as nat),
                handlers@.map_values(|handler: HandleCase| handler@),
                handlers@.len() as int,
            ),
        decreases depth, 6nat, 0nat, 0nat,
    {
        let ghost forms = handlers@.map_values(|handler: HandleCase| handler@);
        let mut cases: Vec<HandlerCase> = Vec::new();
        let mut i: usize = 0;
        proof {
            reveal(Lowering::handlers_lowered);
        }
        while i < handlers.len()
            invariant
                i <= handlers.len(),
                forms == handlers@.map_values(|handler: HandleCase| handler@),
                (cases@, self@) == old(self)@.handlers_lowered(
                    recursion(depth as nat),
                    forms,
                    i as int,
                ),
            decreases handlers.len() - i,
        {
            proof {
                reveal(Lowering::handlers_lowered);
            }
            let case = self.lower_handler(&handlers[i], depth);
            cases.push(case);
            i += 1;
        }
        cases
    }

    /// Lower a `handle`.
    pub fn handle(
        &mut self,
        body: ExprId,
        handler: NameId,
        handlers: &Vec<HandleCase>,
        expr: ExprId,
        depth: u64,
    ) -> (value: Value)
        ensures
            (value, final(self)@) == old(self)@.handle_lowered(
                recursion(depth as nat),
                body,
                handler,
                handlers@.map_values(|handler: HandleCase| handler@),
                expr,
            ),
        decreases depth, 7nat, 0nat, 0nat,
    {
        proof {
            reveal(Lowering::handle_lowered);
        }
        let layout = self.expr_layout(expr);
        let body = self.handler_lambda(body, LambdaRole::HandleBody(handler), depth);
        let cases = self.lower_handlers(handlers, depth);
        self.push_instruction(Instruction::Handle { body, cases }, layout)
    }
}

} // verus!

//! How calls are given the capabilities for the effects of their callee.
//!
//! The evidence for an effect row is a chain of pairs: the capability of each effect, and the
//! evidence for the rest. The rest of an open row is what the current function was given for it.

use crate::collections::map_get;
#[allow(unused_imports)]
use crate::collections::lookup;
use crate::cst::Expr;
#[allow(unused_imports)]
use crate::cst::ExprForm;
use crate::database::{AbilityKind, ItemKind};
use crate::ids::{
    DefinitionId, ExprId, NameId, Origin, PathId, TopLevelId, TopLevelName, NESTING_LIMIT, PRELUDE,
};
use crate::mir::builder::state::{Answers, Builder, TCType};
#[allow(unused_imports)]
use crate::mir::builder::state::Lowering;
use crate::mir::layouts::copy_types;
use crate::mir::{FunctionType, Instruction, PrimitiveType, TerminatorInstruction, Type, Types, Value};
#[allow(unused_imports)]
use crate::mir::{Operation, Terminator};
use crate::types::{Generic, ReferenceKind, TypeList};
use vstd::prelude::*;

verus! {

impl TCType {
    /// This type with every kind of reference taken for the same one. They share a layout.
    pub open spec fn widened(self) -> TCType
        decreases self,
    {
        match self {
            TCType::Primitive(crate::types::PrimitiveType::Reference(_)) => TCType::Primitive(
                crate::types::PrimitiveType::Reference(ReferenceKind::Ref),
            ),
            TCType::Application(constructor, args) => TCType::Application(
                Box::new(constructor.widened()),
                Box::new(args.widened()),
            ),
            TCType::Tuple(elements) => TCType::Tuple(Box::new(elements.widened())),
            other => other,
        }
    }

    /// This type with every kind of reference taken for the same one.
    pub fn widen_reference_kinds(&self) -> (widened: TCType)
        ensures
            widened == self.widened(),
        decreases self,
    {
        match self {
            TCType::Primitive(crate::types::PrimitiveType::Reference(_)) => TCType::Primitive(
                crate::types::PrimitiveType::Reference(ReferenceKind::Ref),
            ),
            TCType::Application(constructor, args) => TCType::Application(
                Box::new(constructor.widen_reference_kinds()),
                Box::new(args.widen_reference_kinds()),
            ),
            TCType::Tuple(elements) => TCType::Tuple(Box::new(elements.widen_reference_kinds())),
            other => other.clone(),
        }
    }

    /// Widening a type a second time changes nothing.
    pub proof fn law_widening_is_idempotent(self)
        ensures
            self.widened().widened() == self.widened(),
        decreases self,
    {
        match self {
            TCType::Application(constructor, args) => {
                constructor.law_widening_is_idempotent();
                args.widening_is_idempotent();
            },
            TCType::Tuple(elements) => {
                elements.widening_is_idempotent();
            },
            _ => {},
        }
    }
}

impl TypeList {
    pub open spec fn widened(self) -> TypeList
        decreases self,
    {
        match self {
            TypeList::Nil => TypeList::Nil,
            TypeList::Cons(first, rest) => TypeList::Cons(
                Box::new(first.widened()),
                Box::new(rest.widened()),
            ),
        }
    }

    pub fn widen_reference_kinds(&self) -> (widened: TypeList)
        ensures
            widened == self.widened(),
        decreases self,
    {
        match self {
            TypeList::Nil => TypeList::Nil,
            TypeList::Cons(first, rest) => TypeList::Cons(
                Box::new(first.widen_reference_kinds()),
                Box::new(rest.widen_reference_kinds()),
            ),
        }
    }

    proof fn widening_is_idempotent(self)
        ensures
            self.widened().widened() == self.widened(),
        decreases self,
    {
        match self {
            TypeList::Nil => {},
            TypeList::Cons(first, rest) => {
                first.law_widening_is_idempotent();
                rest.widening_is_idempotent();
            },
        }
    }
}

/// The place of the first of the first `count` of `names` that is `name`.
#[verifier::opaque]
pub open spec fn first_place(names: Seq<NameId>, name: NameId, count: int) -> Option<int>
    decreases count,
{
    if count <= 0 {
        None
    } else {
        match first_place(names, name, count - 1) {
            Some(place) => Some(place),
            None => if names[count - 1] == name {
                Some(count - 1)
            } else {
                None
            },
        }
    }
}

/// The place of the first of the first `count` of `generics` that is `generic`.
#[verifier::opaque]
pub open spec fn first_generic(generics: Seq<Generic>, generic: Generic, count: int) -> Option<int>
    decreases count,
{
    if count <= 0 {
        None
    } else {
        match first_generic(generics, generic, count - 1) {
            Some(place) => Some(place),
            None => if generics[count - 1] == generic {
                Some(count - 1)
            } else {
                None
            },
        }
    }
}

/// The layouts differ in the last parameter alone, which is the evidence.
pub open spec fn differ_in_evidence(a: FunctionType, b: FunctionType) -> bool {
    let left = a.parameters.items();
    let right = b.parameters.items();
    &&& left != right
    &&& left.len() > 0
    &&& right.len() > 0
    &&& left.drop_last() == right.drop_last()
    &&& a.return_type == b.return_type
}

impl Lowering {
    /// What capabilities are told apart by.
    #[verifier::opaque]
    pub open spec fn capability_key(self, effect: TCType) -> TCType {
        let followed = effect.substituted(self.answers.bindings@, NESTING_LIMIT as nat);
        match followed {
            TCType::Effects(effects, None) => match *effects {
                TypeList::Cons(only, rest) => if *rest == TypeList::Nil {
                    only.widened()
                } else {
                    followed.widened()
                },
                TypeList::Nil => followed.widened(),
            },
            _ => followed.widened(),
        }
    }

    /// The capability for the effect that is told by `key` among the first `count` effects of the
    /// current function.
    #[verifier::opaque]
    pub open spec fn own_capability(self, key: TCType, count: int) -> Option<Value>
        decreases count,
    {
        if count <= 0 {
            None
        } else {
            match self.own_capability(key, count - 1) {
                Some(value) => Some(value),
                None => if self.capability_key(self.effects[count - 1].0) == key {
                    Some(self.effects[count - 1].1)
                } else {
                    None
                },
            }
        }
    }

    /// The capability for the effect that is told by `key` among the first `count` enclosing
    /// `handle`s.
    #[verifier::opaque]
    pub open spec fn handled_capability(self, key: TCType, count: int) -> Option<Value>
        decreases count,
    {
        if count <= 0 {
            None
        } else {
            match self.handled_capability(key, count - 1) {
                Some(value) => Some(value),
                None => if self.capability_key(self.handles[count - 1].1.0) == key {
                    Some(self.handles[count - 1].1.1)
                } else {
                    None
                },
            }
        }
    }

    /// The capability for an effect: one the current function was given, or else one of an
    /// enclosing `handle`.
    #[verifier::opaque]
    pub open spec fn capability(self, effect: TCType) -> Option<Value> {
        let key = self.capability_key(effect);
        match self.own_capability(key, self.effects.len() as int) {
            Some(value) => Some(value),
            None => self.handled_capability(key, self.handles.len() as int),
        }
    }

    /// The capability for an effect, which is there unless something cannot be lowered.
    #[verifier::opaque]
    pub open spec fn capability_taken(self, effect: TCType) -> (Value, Lowering) {
        match self.capability(effect) {
            Some(value) => (value, self),
            None => (Value::Error, self.fails()),
        }
    }

    /// The evidence for the end of a row.
    #[verifier::opaque]
    pub open spec fn end_evidence(self, is_open: bool) -> (Value, Type, Lowering) {
        if is_open {
            match self.bundle {
                Some(rest) => (rest, self.value_type(rest), self),
                None => (Value::Error, Type::error(), self.fails()),
            }
        } else {
            let typ = Type::tuple(Seq::empty());
            let (value, made) = self.pushed(Operation::MakeTuple(Seq::empty()), typ);
            (value, typ, made)
        }
    }

    /// The evidence for the effects from `start` on, and its layout.
    #[verifier::opaque]
    pub open spec fn evidence_from(self, effects: Seq<TCType>, is_open: bool, start: int) -> (
        Value,
        Type,
        Lowering,
    )
        decreases effects.len() - start,
    {
        if start < 0 || start >= effects.len() {
            self.end_evidence(is_open)
        } else {
            let (rest, rest_type, made) = self.evidence_from(effects, is_open, start + 1);
            let (capability, made) = made.capability_taken(effects[start]);
            let typ = Type::tuple(seq![made.value_type(capability), rest_type]);
            let (value, made) = made.pushed(Operation::MakeTuple(seq![capability, rest]), typ);
            (value, typ, made)
        }
    }

    /// The evidence for an effect row.
    #[verifier::opaque]
    pub open spec fn evidence(self, effects: TCType) -> (Value, Lowering) {
        let (concretes, is_open) = self.row(effects);
        let (value, _, made) = self.evidence_from(concretes, is_open, 0);
        (value, made)
    }

    /// The effect row of a callee.
    #[verifier::opaque]
    pub open spec fn callee_effects(self, callee: ExprId) -> TCType {
        let typ = match self.answers.context@.expr(callee) {
            ExprForm::Variable(path) => self.path_type(path),
            _ => self.expr_type(callee),
        };
        match self.follow(typ) {
            TCType::Function(function) => function.effects,
            _ => TCType::Effects(Box::new(TypeList::Nil), None),
        }
    }

    /// `arguments` with the evidence of the callee behind them, unless it takes none.
    #[verifier::opaque]
    pub open spec fn with_evidence(
        self,
        callee_expr: ExprId,
        callee: Value,
        arguments: Seq<Value>,
    ) -> (Seq<Value>, Lowering) {
        let takes_none = match self.value_type(callee) {
            Type::Function(function) => function.parameters.items().len() <= arguments.len(),
            _ => false,
        };
        if takes_none {
            (arguments, self)
        } else {
            let (evidence, made) = self.evidence(self.callee_effects(callee_expr));
            (arguments.push(evidence), made)
        }
    }

    /// A call of a function value.
    #[verifier::opaque]
    pub open spec fn called(self, function: Value, arguments: Seq<Value>, typ: Type) -> (
        Value,
        Lowering,
    ) {
        if self.value_type(function).is_closure() {
            self.pushed(Operation::CallClosure { closure: function, arguments }, typ)
        } else {
            self.pushed(Operation::Call { function, arguments }, typ)
        }
    }

    /// The evidence of the layout `needed`, out of that of the layout `typ`: the same, or one for
    /// some of the effects. It is not there if `needed` holds an effect that `typ` does not.
    pub open spec fn projected(self, provided: Value, typ: Type, needed: Type, depth: nat) -> (
        Option<Value>,
        Lowering,
    )
        decreases depth,
    {
        if depth == 0 {
            (None, self)
        } else if typ == needed {
            (Some(provided), self)
        } else {
            match needed.fields() {
                None => (None, self),
                Some(fields) => if fields.len() == 0 {
                    let (value, made) = self.pushed(
                        Operation::MakeTuple(Seq::empty()),
                        Type::tuple(Seq::empty()),
                    );
                    (Some(value), made)
                } else if fields.len() == 2 {
                    self.searched(provided, typ, needed, (depth - 1) as nat)
                } else {
                    (None, self)
                },
            }
        }
    }

    /// The evidence of the layout `needed`, which is a pair, out of a part of that of `typ`.
    pub open spec fn searched(self, provided: Value, typ: Type, needed: Type, depth: nat) -> (
        Option<Value>,
        Lowering,
    )
        decreases depth,
    {
        let wanted = needed.fields().unwrap();
        match typ.fields() {
            None => (None, self),
            Some(fields) => if depth == 0 || fields.len() != 2 {
                (None, self)
            } else if fields[0] == wanted[0] {
                let (capability, made) = self.pushed(
                    Operation::IndexTuple { tuple: provided, index: 0 },
                    fields[0],
                );
                let (rest, made) = made.pushed(
                    Operation::IndexTuple { tuple: provided, index: 1 },
                    fields[1],
                );
                let (rest, made) = made.projected(rest, fields[1], wanted[1], (depth - 1) as nat);
                match rest {
                    None => (None, made),
                    Some(rest) => {
                        let (value, made) = made.pushed(
                            Operation::MakeTuple(seq![capability, rest]),
                            needed,
                        );
                        (Some(value), made)
                    },
                }
            } else {
                let (rest, made) = self.pushed(
                    Operation::IndexTuple { tuple: provided, index: 1 },
                    fields[1],
                );
                made.searched(rest, fields[1], needed, (depth - 1) as nat)
            },
        }
    }

    /// The evidence of the layout `needed` out of that of the layout `typ`.
    #[verifier::opaque]
    pub open spec fn evidence_projected(self, provided: Value, typ: Type, needed: Type) -> (
        Value,
        Lowering,
    ) {
        let (value, made) = self.projected(provided, typ, needed, NESTING_LIMIT as nat);
        match value {
            Some(value) => (value, made),
            None => (Value::Error, made.fails()),
        }
    }

    /// The definition a value refers to, and what it is instantiated at.
    #[verifier::opaque]
    pub open spec fn static_function(self, value: Value) -> Option<
        (DefinitionId, Option<Seq<Type>>),
    > {
        match value {
            Value::Definition(id) => Some((id, None)),
            _ => match self.operation_of(value) {
                Some(Operation::Instantiate(id, types)) => Some((id, Some(types))),
                Some(Operation::Id(Value::Definition(id))) => Some((id, None)),
                _ => None,
            },
        }
    }

    /// A parameter of the current block for each of the first `count` of `types`.
    #[verifier::opaque]
    pub open spec fn with_parameters(self, types: Seq<Type>, count: int) -> (Seq<Value>, Lowering)
        decreases count,
    {
        if count <= 0 {
            (Seq::empty(), self)
        } else {
            let (values, made) = self.with_parameters(types, count - 1);
            let (value, made) = made.with_capability_parameter(types[count - 1]);
            (values.push(value), made)
        }
    }

    /// This state in a new definition that shares nothing with the current one.
    #[verifier::opaque]
    pub open spec fn isolated(self, name: Seq<char>, typ: Type) -> Lowering {
        self.unscoped().definition_started(name, None, self.generic_count(), typ)
    }

    /// This state with an isolated definition finished, back in `outer`.
    #[verifier::opaque]
    pub open spec fn isolated_finished(self, outer: Lowering) -> (DefinitionId, Lowering) {
        let (id, made) = self.definition_finished(outer);
        (id, made.scoped_as(outer))
    }

    /// A reference to a definition inside another one, at what it is instantiated at.
    #[verifier::opaque]
    pub open spec fn target_value(
        self,
        id: DefinitionId,
        types: Option<Seq<Type>>,
        typ: Type,
    ) -> (Value, Lowering) {
        match types {
            Some(types) => self.pushed(Operation::Instantiate(id, types), typ),
            None => (Value::Definition(id), self),
        }
    }

    /// The body of a function of the layout `expected` that calls a definition with the part of
    /// the evidence it needs. With an environment, that is its last parameter.
    #[verifier::opaque]
    pub open spec fn adapter_body(
        self,
        expected: Seq<Type>,
        needed: Type,
        environment: Option<Type>,
        target: (DefinitionId, Option<Seq<Type>>),
        target_type: Type,
        return_type: Type,
    ) -> Lowering {
        let (params, made) = self.with_parameters(expected, expected.len() as int);
        let (inner, made) = match environment {
            Some(typ) => {
                let (value, made) = made.with_capability_parameter(typ);
                (seq![value], made)
            },
            None => (Seq::empty(), made),
        };
        let (evidence, made) = made.evidence_projected(params.last(), expected.last(), needed);
        let (function, made) = made.target_value(target.0, target.1, target_type);
        let (result, made) = made.pushed(
            Operation::Call { function, arguments: params.drop_last().push(evidence) + inner },
            return_type,
        );
        made.terminated(Terminator::Return(result))
    }

    /// The body of a function of the layout `expected` that calls the function that is its
    /// environment with the part of the evidence it needs.
    #[verifier::opaque]
    pub open spec fn dynamic_adapter_body(
        self,
        expected: Seq<Type>,
        needed: Type,
        inner_type: Type,
        return_type: Type,
    ) -> Lowering {
        let (params, made) = self.with_parameters(expected, expected.len() as int);
        let (inner, made) = made.with_capability_parameter(inner_type);
        let (evidence, made) = made.evidence_projected(params.last(), expected.last(), needed);
        let arguments = params.drop_last().push(evidence);
        let (result, made) = if inner_type.is_closure() {
            made.pushed(Operation::CallClosure { closure: inner, arguments }, return_type)
        } else {
            made.pushed(Operation::Call { function: inner, arguments }, return_type)
        };
        made.terminated(Terminator::Return(result))
    }

    /// A function of the layout `expected` that does what `value` does, which refers to a
    /// definition. A closure is given its own environment.
    #[verifier::opaque]
    pub open spec fn static_adapter(
        self,
        target: (DefinitionId, Option<Seq<Type>>),
        target_type: Type,
        environment: Option<Value>,
        own: FunctionType,
        expected: FunctionType,
    ) -> (Value, Lowering) {
        let parameters = expected.parameters.items();
        let environment_type = match environment {
            Some(environment) => Some(self.value_type(environment)),
            None => None,
        };
        let declared = Type::function(
            parameters,
            match environment_type {
                Some(typ) => typ,
                None => Type::no_env(),
            },
            own.return_type,
        );
        let (id, made) = self.isolated("evidence_adapter"@, declared).adapter_body(
            parameters,
            own.parameters.items().last(),
            environment_type,
            target,
            target_type,
            own.return_type,
        ).isolated_finished(self);
        let (function, made) = made.definition_value(id, "evidence_adapter"@, declared);
        match environment {
            Some(environment) => made.pushed(
                Operation::PackClosure { function, environment },
                declared,
            ),
            None => (function, made),
        }
    }

    /// A closure of the layout `expected` that does what the function `value` does, which is its
    /// environment.
    #[verifier::opaque]
    pub open spec fn dynamic_adapter(
        self,
        value: Value,
        own: FunctionType,
        expected: FunctionType,
    ) -> (Value, Lowering) {
        let parameters = expected.parameters.items();
        let inner_type = self.value_type(value);
        let declared = Type::function(parameters, inner_type, expected.return_type);
        let (id, made) = self.isolated("evidence_adapter"@, declared).dynamic_adapter_body(
            parameters,
            own.parameters.items().last(),
            inner_type,
            expected.return_type,
        ).isolated_finished(self);
        let (function, made) = made.definition_value(id, "evidence_adapter"@, declared);
        made.pushed(Operation::PackClosure { function, environment: value }, declared)
    }

    /// The generic that stands for the environment of a parameter of a generic callee: its place,
    /// and the type of the callee.
    #[verifier::opaque]
    pub open spec fn environment_generic(self, callee: ExprId, index: int) -> Option<(int, TCType)> {
        match self.answers.context@.expr(callee) {
            ExprForm::Variable(path) => match self.answers.context@.path_origin(path) {
                Some(Origin::TopLevelDefinition(name)) => match lookup(
                    self.answers.callee_types@,
                    name,
                ) {
                    Some(TCType::Forall(generics, inner)) => match *inner {
                        TCType::Function(function) => {
                            let types = function.parameters.types();
                            if 0 <= index < types.len() {
                                match types[index] {
                                    TCType::Function(parameter) => match parameter.environment {
                                        TCType::Generic(generic) => match first_generic(
                                            generics.items(),
                                            generic,
                                            generics.items().len() as int,
                                        ) {
                                            Some(place) => Some((place, *inner)),
                                            None => None,
                                        },
                                        _ => None,
                                    },
                                    _ => None,
                                }
                            } else {
                                None
                            }
                        },
                        _ => None,
                    },
                    _ => None,
                },
                _ => None,
            },
            _ => None,
        }
    }

    /// This state with a callee instantiated at another environment of one of its parameters.
    #[verifier::opaque]
    pub open spec fn environment_patched(
        self,
        function: Value,
        callee: ExprId,
        index: int,
        environment: Type,
    ) -> Lowering {
        match (self.operation_of(function), self.environment_generic(callee, index)) {
            (Some(Operation::Instantiate(id, types)), Some((place, inner))) => if place
                < types.len() {
                let types = types.update(place, environment);
                let typ = match lookup(self.answers.instances@, (inner, Types::of(types))) {
                    Some(typ) => typ,
                    None => Type::error(),
                };
                self.with_instantiation(function, id, types, typ)
            } else {
                self
            },
            _ => self,
        }
    }

    /// The function `value`, whose evidence differs from what the callee expects of it, as one of
    /// the layout `expected`.
    #[verifier::opaque]
    pub open spec fn adapted(
        self,
        value: Value,
        function: Value,
        callee: ExprId,
        index: int,
        own: FunctionType,
        expected: FunctionType,
    ) -> (Value, Lowering) {
        let value_type = self.value_type(value);
        match self.static_function(value) {
            Some(target) => self.static_adapter(target, value_type, None, own, expected),
            None => match self.operation_of(value) {
                Some(Operation::PackClosure {
                    function: packed,
                    environment,
                }) => match self.static_function(packed) {
                    Some(target) => self.static_adapter(
                        target,
                        self.value_type(packed),
                        Some(environment),
                        own,
                        expected,
                    ),
                    None => {
                        let (adapted, made) = self.dynamic_adapter(value, own, expected);
                        (
                            adapted,
                            made.environment_patched(function, callee, index, value_type),
                        )
                    },
                },
                _ => {
                    let (adapted, made) = self.dynamic_adapter(value, own, expected);
                    (adapted, made.environment_patched(function, callee, index, value_type))
                },
            },
        }
    }

    /// The argument `value` as the callee expects it. A function that needs less evidence than it
    /// is given is adapted.
    #[verifier::opaque]
    pub open spec fn coerced(self, value: Value, function: Value, callee: ExprId, index: int) -> (
        Value,
        Lowering,
    ) {
        match (self.value_type(function), self.value_type(value)) {
            (Type::Function(callee_type), Type::Function(own)) => {
                let parameters = callee_type.parameters.items();
                if 0 <= index < parameters.len() {
                    match parameters[index] {
                        Type::Function(expected) => if differ_in_evidence(*own, *expected) {
                            self.adapted(value, function, callee, index, *own, *expected)
                        } else {
                            (value, self)
                        },
                        _ => (value, self),
                    }
                } else {
                    (value, self)
                }
            },
            _ => (value, self),
        }
    }

    /// The method `index` of a capability. A capability with one method may be the method itself.
    #[verifier::opaque]
    pub open spec fn method_of(self, capability: Value, index: u32) -> (Value, Lowering) {
        let typ = self.value_type(capability);
        match typ.fields() {
            Some(fields) => if index < fields.len() {
                self.pushed(
                    Operation::IndexTuple { tuple: capability, index },
                    fields[index as int],
                )
            } else {
                (Value::Error, self.fails())
            },
            None => self.pushed(Operation::IndexTuple { tuple: capability, index }, typ),
        }
    }

    /// A call of the method `index` of a capability.
    #[verifier::opaque]
    pub open spec fn method_called(
        self,
        callee: Option<ExprId>,
        capability: Value,
        index: u32,
        arguments: Seq<Value>,
        typ: Type,
        diverges: bool,
    ) -> (Value, Lowering) {
        let (method, made) = self.method_of(capability, index);
        let closure = made.value_type(method).is_closure();
        let (arguments, made) = match callee {
            Some(callee) => made.with_evidence(callee, method, arguments),
            None => (arguments, made),
        };
        let (value, made) = if closure {
            made.pushed(Operation::CallClosure { closure: method, arguments }, typ)
        } else {
            made.pushed(Operation::Call { function: method, arguments }, typ)
        };
        (
            value,
            if diverges {
                made.terminated(Terminator::Unreachable)
            } else {
                made
            },
        )
    }

    /// A call of a method of a trait. The last argument is the capability.
    #[verifier::opaque]
    pub open spec fn trait_method_called(
        self,
        callee: ExprId,
        operation: DefinitionId,
        index: u32,
        arguments: Seq<Value>,
        typ: Type,
        diverges: bool,
    ) -> (Value, Lowering) {
        let noted = self.with_op_index(operation, index);
        if arguments.len() == 0 {
            (Value::Error, noted.fails())
        } else {
            noted.method_called(
                Some(callee),
                arguments.last(),
                index,
                arguments.drop_last(),
                typ,
                diverges,
            )
        }
    }

    /// The effect that an operation performs.
    #[verifier::opaque]
    pub open spec fn effect_of_operation(self, callee: ExprId) -> Option<TCType> {
        match self.follow(self.expr_type(callee)) {
            TCType::Function(function) => match self.follow(function.effects) {
                TCType::Effects(effects, _) => effects.head(),
                _ => None,
            },
            _ => None,
        }
    }

    /// A call of an operation of an effect, whose capability is in scope.
    #[verifier::opaque]
    pub open spec fn operation_called(
        self,
        callee: ExprId,
        operation: DefinitionId,
        index: u32,
        arguments: Seq<Value>,
        typ: Type,
        diverges: bool,
    ) -> (Value, Lowering) {
        let noted = self.with_op_index(operation, index);
        match noted.effect_of_operation(callee) {
            Some(effect) => {
                let (capability, made) = noted.capability_taken(effect);
                made.method_called(None, capability, index, arguments, typ, diverges)
            },
            None => (Value::Error, noted.fails()),
        }
    }

    /// The operation of an ability that a path names: its id, its place, and the kind of ability.
    #[verifier::opaque]
    pub open spec fn ability_method(self, path: PathId) -> (
        Option<(DefinitionId, u32, AbilityKind)>,
        Lowering,
    ) {
        match self.answers.context@.path_origin(path) {
            Some(Origin::TopLevelDefinition(name)) => match lookup(
                self.answers.database.items@,
                name.top_level_item,
            ) {
                Some(ItemKind::AbilityDefinition(ability)) => match first_place(
                    ability.body@,
                    name.local_name_id,
                    ability.body@.len() as int,
                ) {
                    Some(place) => {
                        let (id, made) = self.id_of(name);
                        (Some((id, place as u32, ability.kind)), made)
                    },
                    None => (None, self),
                },
                _ => (None, self),
            },
            _ => (None, self),
        }
    }

    /// The function that an operation of an effect is as a value: it takes the capability from its
    /// evidence.
    #[verifier::opaque]
    pub open spec fn operation_wrapper(self, path: PathId, index: u32) -> (Value, Lowering) {
        let uniform = self.layout(self.path_type(path));
        match uniform {
            Type::Function(function) => {
                let parameters = function.parameters.items();
                let (id, made) = self.isolated("effect_op"@, uniform).operation_wrapper_body(
                    parameters,
                    function.return_type,
                    index,
                ).isolated_finished(self);
                made.definition_value(id, "effect_op"@, uniform)
            },
            _ => (Value::Error, self),
        }
    }

    #[verifier::opaque]
    pub open spec fn operation_wrapper_body(
        self,
        parameters: Seq<Type>,
        return_type: Type,
        index: u32,
    ) -> Lowering {
        let (params, made) = self.with_parameters(parameters, parameters.len() as int);
        let head = if parameters.len() > 0 {
            match parameters.last().fields() {
                Some(fields) => if fields.len() > 0 {
                    Some(fields[0])
                } else {
                    None
                },
                None => None,
            }
        } else {
            None
        };
        match head {
            Some(typ) => {
                let (capability, made) = made.pushed(
                    Operation::IndexTuple { tuple: params.last(), index: 0 },
                    typ,
                );
                let (method, made) = made.method_of(capability, index);
                let (result, made) = made.pushed(
                    Operation::CallClosure { closure: method, arguments: params.drop_last() },
                    return_type,
                );
                made.terminated(Terminator::Return(result))
            },
            None => made.fails(),
        }
    }

    /// A function that takes evidence and calls a function of the target, which takes none.
    #[verifier::opaque]
    pub open spec fn extern_wrapper(self, target: DefinitionId, name: Seq<char>, uniform: Type) -> (
        Value,
        Lowering,
    ) {
        match uniform {
            Type::Function(function) => {
                let parameters = function.parameters.items();
                let text = name + "_wrapper"@;
                let (id, made) = self.isolated(text, uniform).extern_wrapper_body(
                    target,
                    parameters,
                    function.return_type,
                ).isolated_finished(self);
                made.definition_value(id, text, uniform)
            },
            _ => (Value::Definition(target), self),
        }
    }

    #[verifier::opaque]
    pub open spec fn extern_wrapper_body(
        self,
        target: DefinitionId,
        parameters: Seq<Type>,
        return_type: Type,
    ) -> Lowering {
        let (params, made) = self.with_parameters(parameters, parameters.len() as int);
        let arguments = if params.len() > 0 {
            params.drop_last()
        } else {
            params
        };
        let (result, made) = made.pushed(
            Operation::Call { function: Value::Definition(target), arguments },
            return_type,
        );
        made.terminated(Terminator::Return(result))
    }

    /// `environments` with those of the closures among the first `count` methods of a capability.
    #[verifier::opaque]
    pub open spec fn capability_environments(
        self,
        capability: Value,
        fields: Seq<Type>,
        environments: Seq<Value>,
        count: int,
    ) -> (Seq<Value>, Lowering)
        decreases count,
    {
        if count <= 0 {
            (environments, self)
        } else {
            let (found, made) = self.capability_environments(
                capability,
                fields,
                environments,
                count - 1,
            );
            if fields[count - 1].is_closure() {
                let (closure, made) = made.pushed(
                    Operation::IndexTuple { tuple: capability, index: (count - 1) as u32 },
                    fields[count - 1],
                );
                let (environment, made) = made.pushed(
                    Operation::IndexTuple { tuple: closure, index: 1 },
                    Type::pointer(),
                );
                (found.push(environment), made)
            } else {
                (found, made)
            }
        }
    }

    /// This state with the first `count` of `environments` freed.
    #[verifier::opaque]
    pub open spec fn all_freed(self, environments: Seq<Value>, count: int) -> Lowering
        decreases count,
    {
        if count <= 0 {
            self
        } else {
            self.all_freed(environments, count - 1).pushed(
                Operation::FreeShared(environments[count - 1]),
                Type::unit(),
            ).1
        }
    }

    /// The item is the `Drop` trait of the prelude.
    #[verifier::opaque]
    pub open spec fn is_prelude_drop(self, item: TopLevelId) -> bool {
        item.source_file == PRELUDE && match lookup(self.answers.database.items@, item) {
            Some(ItemKind::AbilityDefinition(ability)) => ability.kind == AbilityKind::Trait
                && self.name_of(
                TopLevelName { top_level_item: item, local_name_id: ability.name },
            ) == "Drop"@,
            _ => false,
        }
    }

    /// The path names a method of the `Extract` ability of the prelude.
    #[verifier::opaque]
    pub open spec fn is_extract_method(self, path: PathId) -> bool {
        match (
            self.answers.database.exported_type(PRELUDE, "Extract"@),
            self.answers.context@.path_origin(path),
        ) {
            (Some(extract), Some(Origin::TopLevelDefinition(name))) => extract.top_level_item
                == name.top_level_item,
            _ => false,
        }
    }

    /// A function of the type never returns.
    pub open spec fn never_returns(self, typ: TCType, depth: nat) -> bool
        decreases depth,
    {
        depth > 0 && match self.follow(typ) {
            TCType::Forall(_, inner) => self.never_returns(*inner, (depth - 1) as nat),
            TCType::Function(function) => self.follow(function.return_type) == TCType::Primitive(
                crate::types::PrimitiveType::Never,
            ),
            _ => false,
        }
    }

    /// A call of the callee does not return.
    #[verifier::opaque]
    pub open spec fn callee_diverges(self, callee: ExprId) -> bool {
        match self.answers.context@.expr(callee) {
            ExprForm::Variable(path) => self.answers.path_types@.contains_key(path)
                && self.never_returns(self.answers.path_types@[path], NESTING_LIMIT as nat),
            _ => false,
        }
    }

    /// Those of the first `count` of `effects` that `excluded` does not tell.
    #[verifier::opaque]
    pub open spec fn effects_besides(
        self,
        effects: Seq<TCType>,
        excluded: Seq<TCType>,
        count: int,
    ) -> Seq<TCType>
        decreases count,
    {
        if count <= 0 {
            Seq::empty()
        } else {
            let before = self.effects_besides(effects, excluded, count - 1);
            if excluded.contains(self.capability_key(effects[count - 1])) {
                before
            } else {
                before.push(effects[count - 1])
            }
        }
    }

    /// What the effects are told by that the handler `name` handles.
    #[verifier::opaque]
    pub open spec fn handled_keys(self, name: NameId) -> Seq<TCType> {
        let typ = self.name_type(name).substituted(
            self.answers.bindings@,
            NESTING_LIMIT as nat,
        );
        match typ {
            TCType::Effects(effects, _) => effects.items().map_values(
                |effect: TCType| self.capability_key(effect),
            ),
            other => seq![self.capability_key(other)],
        }
    }

    /// The effects that the body or a branch of a `handle` performs and does not handle.
    #[verifier::opaque]
    pub open spec fn captured_effects(self, effects: TCType, handler: Option<NameId>) -> Seq<TCType> {
        let concretes = self.row(effects).0;
        let excluded = match handler {
            Some(name) => self.handled_keys(name),
            None => Seq::empty(),
        };
        self.effects_besides(concretes, excluded, concretes.len() as int)
    }
}

fn find_first_place(names: &Vec<NameId>, name: NameId) -> (place: Option<usize>)
    ensures
        match place {
            Some(place) => first_place(names@, name, names@.len() as int) == Some(place as int),
            None => first_place(names@, name, names@.len() as int) is None,
        },
{
    let mut place: Option<usize> = None;
    let mut i: usize = 0;
    proof {
        reveal(first_place);
    }
    while i < names.len()
        invariant
            i <= names.len(),
            match place {
                Some(place) => first_place(names@, name, i as int) == Some(place as int),
                None => first_place(names@, name, i as int) is None,
            },
        decreases names.len() - i,
    {
        proof {
            reveal(first_place);
        }
        if place.is_none() && names[i] == name {
            place = Some(i);
        }
        i += 1;
    }
    place
}

fn find_first_generic(generics: &Vec<Generic>, generic: Generic) -> (place: Option<usize>)
    ensures
        match place {
            Some(place) => first_generic(generics@, generic, generics@.len() as int) == Some(
                place as int,
            ),
            None => first_generic(generics@, generic, generics@.len() as int) is None,
        },
{
    let mut place: Option<usize> = None;
    let mut i: usize = 0;
    proof {
        reveal(first_generic);
    }
    while i < generics.len()
        invariant
            i <= generics.len(),
            match place {
                Some(place) => first_generic(generics@, generic, i as int) == Some(place as int),
                None => first_generic(generics@, generic, i as int) is None,
            },
        decreases generics.len() - i,
    {
        proof {
            reveal(first_generic);
        }
        if place.is_none() && generics[i] == generic {
            place = Some(i);
        }
        i += 1;
    }
    place
}

fn same_layouts(a: &Vec<Type>, b: &Vec<Type>, count: usize) -> (same: bool)
    requires
        count <= a@.len(),
        count <= b@.len(),
    ensures
        same == (a@.take(count as int) == b@.take(count as int)),
{
    let mut i: usize = 0;
    while i < count
        invariant
            i <= count,
            count <= a@.len(),
            count <= b@.len(),
            forall|j: int| 0 <= j < i ==> a@[j] == b@[j],
        decreases count - i,
    {
        if a[i] != b[i] {
            assert(a@.take(count as int)[i as int] != b@.take(count as int)[i as int]);
            return false;
        }
        i += 1;
    }
    assert(a@.take(count as int) =~= b@.take(count as int));
    true
}

fn check_differ_in_evidence(a: &FunctionType, b: &FunctionType) -> (differ: bool)
    ensures
        differ == differ_in_evidence(*a, *b),
{
    let left = a.parameters.to_vec();
    let right = b.parameters.to_vec();
    if left.len() == 0 || right.len() == 0 {
        return false;
    }
    if left.len() != right.len() {
        assert(left@.drop_last().len() != right@.drop_last().len());
        return false;
    }
    let count: usize = left.len();
    assert(left@.take(count - 1) =~= left@.drop_last());
    assert(right@.take(count - 1) =~= right@.drop_last());
    assert(left@.take(count as int) =~= left@);
    assert(right@.take(count as int) =~= right@);
    !same_layouts(&left, &right, count) && same_layouts(&left, &right, count - 1) && a.return_type
        == b.return_type
}

fn unit() -> (typ: Type)
    ensures
        typ == Type::unit(),
{
    Type::Primitive(PrimitiveType::Unit)
}

fn pointer() -> (typ: Type)
    ensures
        typ == Type::pointer(),
{
    Type::Primitive(PrimitiveType::Pointer)
}

fn pair(a: Value, b: Value) -> (values: Vec<Value>)
    ensures
        values@ == seq![a, b],
{
    let mut values: Vec<Value> = Vec::new();
    values.push(a);
    values.push(b);
    assert(values@ =~= seq![a, b]);
    values
}

fn pair_layout(a: Type, b: Type) -> (typ: Type)
    ensures
        typ == Type::tuple(seq![a, b]),
{
    let mut fields: Vec<Type> = Vec::new();
    fields.push(a);
    fields.push(b);
    assert(fields@ =~= seq![a, b]);
    Type::tuple_of(&fields)
}

fn empty_layout() -> (typ: Type)
    ensures
        typ == Type::tuple(Seq::empty()),
{
    let fields: Vec<Type> = Vec::new();
    assert(fields@ =~= Seq::empty());
    Type::tuple_of(&fields)
}

/// `values` without the last of them.
fn without_last(values: &Vec<Value>) -> (rest: Vec<Value>)
    requires
        values@.len() > 0,
    ensures
        rest@ == values@.drop_last(),
{
    let mut rest = values.clone();
    rest.pop();
    assert(rest@ =~= values@.drop_last());
    rest
}

impl<'a> Builder<'a> {
    /// What capabilities are told apart by.
    pub fn capability_key(&self, effect: &TCType) -> (key: TCType)
        ensures
            key == self@.capability_key(*effect),
    {
        proof {
            reveal(Lowering::capability_key);
        }
        let followed = effect.substitute(&self.answers.bindings, NESTING_LIMIT);
        match &followed {
            TCType::Effects(effects, None) => match &**effects {
                TypeList::Cons(only, rest) => match &**rest {
                    TypeList::Nil => {
                        return only.widen_reference_kinds();
                    },
                    _ => {},
                },
                TypeList::Nil => {},
            },
            _ => {},
        }
        followed.widen_reference_kinds()
    }

    fn find_own_capability(&self, key: &TCType) -> (value: Option<Value>)
        ensures
            value == self@.own_capability(*key, self@.effects.len() as int),
    {
        let mut value: Option<Value> = None;
        let mut i: usize = 0;
        proof {
            reveal(Lowering::own_capability);
        }
        while i < self.effects.len()
            invariant
                i <= self.effects.len(),
                value == self@.own_capability(*key, i as int),
            decreases self.effects.len() - i,
        {
            proof {
                reveal(Lowering::own_capability);
            }
            if value.is_none() && self.capability_key(&self.effects[i].0) == *key {
                value = Some(self.effects[i].1);
            }
            i += 1;
        }
        value
    }

    fn find_handled_capability(&self, key: &TCType) -> (value: Option<Value>)
        ensures
            value == self@.handled_capability(*key, self@.handles.len() as int),
    {
        let mut value: Option<Value> = None;
        let mut i: usize = 0;
        proof {
            reveal(Lowering::handled_capability);
        }
        while i < self.handle_capabilities.entries.len()
            invariant
                i <= self.handle_capabilities.entries.len(),
                value == self@.handled_capability(*key, i as int),
            decreases self.handle_capabilities.entries.len() - i,
        {
            proof {
                reveal(Lowering::handled_capability);
            }
            if value.is_none() && self.capability_key(&self.handle_capabilities.entries[i].1.0)
                == *key {
                value = Some(self.handle_capabilities.entries[i].1.1);
            }
            i += 1;
        }
        value
    }

    /// The capability for an effect, if there is one in scope.
    pub fn find_capability(&self, effect: &TCType) -> (value: Option<Value>)
        ensures
            value == self@.capability(*effect),
    {
        proof {
            reveal(Lowering::capability);
        }
        let key = self.capability_key(effect);
        match self.find_own_capability(&key) {
            Some(value) => Some(value),
            None => self.find_handled_capability(&key),
        }
    }

    /// The capability for an effect.
    pub fn take_capability(&mut self, effect: &TCType) -> (value: Value)
        ensures
            (value, final(self)@) == old(self)@.capability_taken(*effect),
    {
        proof {
            reveal(Lowering::capability_taken);
        }
        match self.find_capability(effect) {
            Some(value) => value,
            None => {
                self.fail();
                Value::Error
            },
        }
    }

    fn build_end_evidence(&mut self, is_open: bool) -> (result: (Value, Type))
        ensures
            (result.0, result.1, final(self)@) == old(self)@.end_evidence(is_open),
    {
        proof {
            reveal(Lowering::end_evidence);
        }
        if is_open {
            match self.capability_bundle {
                Some(rest) => (rest, self.type_of_value(&rest)),
                None => {
                    self.fail();
                    (Value::Error, Type::Primitive(PrimitiveType::Error))
                },
            }
        } else {
            let values: Vec<Value> = Vec::new();
            assert(values@ =~= Seq::empty());
            let value = self.push_instruction(Instruction::MakeTuple(values), empty_layout());
            (value, empty_layout())
        }
    }

    /// Build the evidence for an effect row.
    pub fn build_evidence(&mut self, effects: &TCType) -> (value: Value)
        ensures
            (value, final(self)@) == old(self)@.evidence(*effects),
    {
        proof {
            reveal(Lowering::evidence);
            reveal(Lowering::evidence_from);
        }
        let ghost before = self@;
        let (concretes, is_open) = self.split_row(effects);
        let (mut evidence, mut evidence_type) = self.build_end_evidence(is_open);
        let mut i: usize = concretes.len();
        while i > 0
            invariant
                i <= concretes.len(),
                (evidence, evidence_type, self@) == before.evidence_from(
                    concretes@,
                    is_open,
                    i as int,
                ),
            decreases i,
        {
            proof {
                reveal(Lowering::evidence_from);
            }
            i -= 1;
            let capability = self.take_capability(&concretes[i]);
            let capability_type = self.type_of_value(&capability);
            evidence_type = pair_layout(capability_type, evidence_type);
            evidence = self.push_instruction(
                Instruction::MakeTuple(pair(capability, evidence)),
                evidence_type.clone(),
            );
        }
        evidence
    }

    /// The effect row of a callee.
    pub fn callee_effects(&self, callee: ExprId) -> (effects: TCType)
        ensures
            effects == self@.callee_effects(callee),
    {
        proof {
            reveal(Lowering::callee_effects);
        }
        let typ = match self.answers.context.expr(callee) {
            Expr::Variable(path) => self.type_of_path(*path),
            _ => self.type_of_expr(callee),
        };
        match self.follow(&typ) {
            TCType::Function(function) => function.effects.clone(),
            _ => TCType::Effects(Box::new(TypeList::Nil), None),
        }
    }

    /// Add the evidence of a callee behind its arguments, unless it takes none.
    pub fn append_evidence_argument(
        &mut self,
        callee_expr: ExprId,
        callee: Value,
        arguments: Vec<Value>,
    ) -> (all: Vec<Value>)
        ensures
            (all@, final(self)@) == old(self)@.with_evidence(callee_expr, callee, arguments@),
    {
        proof {
            reveal(Lowering::with_evidence);
        }
        match self.type_of_value(&callee) {
            Type::Function(function) => {
                if function.parameters.to_vec().len() <= arguments.len() {
                    return arguments;
                }
            },
            _ => {},
        }
        let effects = self.callee_effects(callee_expr);
        let evidence = self.build_evidence(&effects);
        let mut arguments = arguments;
        arguments.push(evidence);
        arguments
    }

    /// Call a function value.
    pub fn emit_call(&mut self, function: Value, arguments: Vec<Value>, typ: Type) -> (value: Value)
        ensures
            (value, final(self)@) == old(self)@.called(function, arguments@, typ),
    {
        proof {
            reveal(Lowering::called);
        }
        if self.type_of_value(&function).has_environment() {
            self.push_instruction(Instruction::CallClosure { closure: function, arguments }, typ)
        } else {
            self.push_instruction(Instruction::Call { function, arguments }, typ)
        }
    }

    fn project_at(&mut self, provided: Value, typ: &Type, needed: &Type, depth: u64) -> (value: Option<
        Value,
    >)
        ensures
            (value, final(self)@) == old(self)@.projected(provided, *typ, *needed, depth as nat),
        decreases depth,
    {
        if depth == 0 {
            return None;
        }
        if *typ == *needed {
            return Some(provided);
        }
        match needed.tuple_fields() {
            None => None,
            Some(fields) => {
                if fields.len() == 0 {
                    let values: Vec<Value> = Vec::new();
                    assert(values@ =~= Seq::empty());
                    Some(self.push_instruction(Instruction::MakeTuple(values), empty_layout()))
                } else if fields.len() == 2 {
                    self.search_at(provided, typ, needed, &fields, depth - 1)
                } else {
                    None
                }
            },
        }
    }

    fn search_at(
        &mut self,
        provided: Value,
        typ: &Type,
        needed: &Type,
        wanted: &Vec<Type>,
        depth: u64,
    ) -> (value: Option<Value>)
        requires
            needed.fields() == Some(wanted@),
            wanted@.len() == 2,
        ensures
            (value, final(self)@) == old(self)@.searched(provided, *typ, *needed, depth as nat),
        decreases depth,
    {
        let fields = match typ.tuple_fields() {
            Some(fields) => fields,
            None => {
                return None;
            },
        };
        if depth == 0 || fields.len() != 2 {
            return None;
        }
        if fields[0] == wanted[0] {
            let capability = self.push_instruction(
                Instruction::IndexTuple { tuple: provided, index: 0 },
                fields[0].clone(),
            );
            let rest = self.push_instruction(
                Instruction::IndexTuple { tuple: provided, index: 1 },
                fields[1].clone(),
            );
            match self.project_at(rest, &fields[1], &wanted[1], depth - 1) {
                None => None,
                Some(rest) => Some(
                    self.push_instruction(
                        Instruction::MakeTuple(pair(capability, rest)),
                        needed.clone(),
                    ),
                ),
            }
        } else {
            let rest = self.push_instruction(
                Instruction::IndexTuple { tuple: provided, index: 1 },
                fields[1].clone(),
            );
            self.search_at(rest, &fields[1], needed, wanted, depth - 1)
        }
    }

    /// Take the evidence that is needed out of the one that is provided. The first may lack
    /// effects of the second, and has no others.
    pub fn project_evidence(&mut self, provided: Value, typ: &Type, needed: &Type) -> (value: Value)
        ensures
            (value, final(self)@) == old(self)@.evidence_projected(provided, *typ, *needed),
    {
        proof {
            reveal(Lowering::evidence_projected);
        }
        match self.project_at(provided, typ, needed, NESTING_LIMIT) {
            Some(value) => value,
            None => {
                self.fail();
                Value::Error
            },
        }
    }

    /// The definition a value refers to, and what it is instantiated at.
    pub fn as_static_function(&self, value: Value) -> (target: Option<
        (DefinitionId, Option<Vec<Type>>),
    >)
        ensures
            match target {
                Some((id, types)) => self@.static_function(value) == Some(
                    (
                        id,
                        match types {
                            Some(types) => Some(types@),
                            None => None,
                        },
                    ),
                ),
                None => self@.static_function(value) is None,
            },
    {
        proof {
            reveal(Lowering::static_function);
        }
        match value {
            Value::Definition(id) => {
                return Some((id, None));
            },
            _ => {},
        }
        match self.instruction_of(&value) {
            Some(instruction) => match instruction {
                Instruction::Instantiate(id, types) => Some((*id, Some(copy_types(types)))),
                Instruction::Id(inner) => match inner {
                    Value::Definition(id) => Some((*id, None)),
                    _ => None,
                },
                _ => None,
            },
            None => None,
        }
    }

    /// Add a parameter to the current block for each of `types`.
    pub fn push_capability_parameters(&mut self, types: &Vec<Type>) -> (values: Vec<Value>)
        ensures
            (values@, final(self)@) == old(self)@.with_parameters(types@, types@.len() as int),
            values@.len() == types@.len(),
    {
        let mut values: Vec<Value> = Vec::new();
        let mut i: usize = 0;
        proof {
            reveal(Lowering::with_parameters);
        }
        while i < types.len()
            invariant
                i <= types.len(),
                values@.len() == i,
                (values@, self@) == old(self)@.with_parameters(types@, i as int),
            decreases types.len() - i,
        {
            proof {
                reveal(Lowering::with_parameters);
            }
            let value = self.push_capability_parameter(types[i].clone());
            values.push(value);
            i += 1;
        }
        values
    }

    pub fn push_target(&mut self, id: DefinitionId, types: Option<Vec<Type>>, typ: Type) -> (value: Value)
        ensures
            (value, final(self)@) == old(self)@.target_value(
                id,
                match types {
                    Some(types) => Some(types@),
                    None => None,
                },
                typ,
            ),
    {
        proof {
            reveal(Lowering::target_value);
        }
        match types {
            Some(types) => self.push_instruction(Instruction::Instantiate(id, types), typ),
            None => Value::Definition(id),
        }
    }

    fn build_adapter_body(
        &mut self,
        expected: &Vec<Type>,
        needed: &Type,
        environment: Option<Type>,
        target: (DefinitionId, Option<Vec<Type>>),
        target_type: Type,
        return_type: Type,
    )
        requires
            expected@.len() > 0,
        ensures
            final(self)@ == old(self)@.adapter_body(
                expected@,
                *needed,
                environment,
                (
                    target.0,
                    match target.1 {
                        Some(types) => Some(types@),
                        None => None,
                    },
                ),
                target_type,
                return_type,
            ),
    {
        proof {
            reveal(Lowering::adapter_body);
        }
        let params = self.push_capability_parameters(expected);
        let count: usize = params.len();
        let mut inner: Vec<Value> = Vec::new();
        match environment {
            Some(typ) => {
                let value = self.push_capability_parameter(typ);
                inner.push(value);
                assert(inner@ =~= seq![value]);
            },
            None => {
                assert(inner@ =~= Seq::empty());
            },
        }
        let evidence = self.project_evidence(params[count - 1], &expected[count - 1], needed);
        let function = self.push_target(target.0, target.1, target_type);
        let mut arguments = without_last(&params);
        arguments.push(evidence);
        arguments.append(&mut inner);
        let result = self.push_instruction(
            Instruction::Call { function, arguments },
            return_type,
        );
        self.terminate_block(TerminatorInstruction::Return(result));
    }

    fn build_dynamic_adapter_body(
        &mut self,
        expected: &Vec<Type>,
        needed: &Type,
        inner_type: &Type,
        return_type: Type,
    )
        requires
            expected@.len() > 0,
        ensures
            final(self)@ == old(self)@.dynamic_adapter_body(
                expected@,
                *needed,
                *inner_type,
                return_type,
            ),
    {
        proof {
            reveal(Lowering::dynamic_adapter_body);
        }
        let params = self.push_capability_parameters(expected);
        let count: usize = params.len();
        let inner = self.push_capability_parameter(inner_type.clone());
        let evidence = self.project_evidence(params[count - 1], &expected[count - 1], needed);
        let mut arguments = without_last(&params);
        arguments.push(evidence);
        let result = if inner_type.has_environment() {
            self.push_instruction(
                Instruction::CallClosure { closure: inner, arguments },
                return_type,
            )
        } else {
            self.push_instruction(Instruction::Call { function: inner, arguments }, return_type)
        };
        self.terminate_block(TerminatorInstruction::Return(result));
    }

    fn build_static_adapter(
        &mut self,
        target: (DefinitionId, Option<Vec<Type>>),
        target_type: Type,
        environment: Option<Value>,
        own: &FunctionType,
        expected: &FunctionType,
    ) -> (value: Value)
        requires
            own.parameters.items().len() > 0,
            expected.parameters.items().len() > 0,
        ensures
            (value, final(self)@) == old(self)@.static_adapter(
                (
                    target.0,
                    match target.1 {
                        Some(types) => Some(types@),
                        None => None,
                    },
                ),
                target_type,
                environment,
                *own,
                *expected,
            ),
    {
        proof {
            reveal(Lowering::static_adapter);
            reveal(Lowering::isolated);
            reveal(Lowering::isolated_finished);
        }
        let parameters = expected.parameters.to_vec();
        let own_parameters = own.parameters.to_vec();
        let needed = own_parameters[own_parameters.len() - 1].clone();
        let environment_type = match environment {
            Some(environment) => Some(self.type_of_value(&environment)),
            None => None,
        };
        let declared_env = match &environment_type {
            Some(typ) => typ.clone(),
            None => Type::Primitive(PrimitiveType::NoClosureEnv),
        };
        let declared = Type::function_of(&parameters, declared_env, own.return_type.clone());
        let ghost before = self@;
        let count = self.generic_count();
        let saved = self.take_scope();
        let outer = self.start_global(
            "evidence_adapter".to_owned(),
            None,
            count,
            declared.clone(),
        );
        self.build_adapter_body(
            &parameters,
            &needed,
            environment_type,
            target,
            target_type,
            own.return_type.clone(),
        );
        let id = self.end_global(outer, Ghost(before));
        self.restore_scope(saved, Ghost(before));
        let function = self.make_definition_value(
            id,
            "evidence_adapter".to_owned(),
            declared.clone(),
        );
        match environment {
            Some(environment) => self.push_instruction(
                Instruction::PackClosure { function, environment },
                declared,
            ),
            None => function,
        }
    }

    fn coerce_dynamic_argument_evidence(
        &mut self,
        value: Value,
        own: &FunctionType,
        expected: &FunctionType,
    ) -> (adapted: Value)
        requires
            own.parameters.items().len() > 0,
            expected.parameters.items().len() > 0,
        ensures
            (adapted, final(self)@) == old(self)@.dynamic_adapter(value, *own, *expected),
    {
        proof {
            reveal(Lowering::dynamic_adapter);
            reveal(Lowering::isolated);
            reveal(Lowering::isolated_finished);
        }
        let parameters = expected.parameters.to_vec();
        let own_parameters = own.parameters.to_vec();
        let needed = own_parameters[own_parameters.len() - 1].clone();
        let inner_type = self.type_of_value(&value);
        let declared = Type::function_of(
            &parameters,
            inner_type.clone(),
            expected.return_type.clone(),
        );
        let ghost before = self@;
        let count = self.generic_count();
        let saved = self.take_scope();
        let outer = self.start_global(
            "evidence_adapter".to_owned(),
            None,
            count,
            declared.clone(),
        );
        self.build_dynamic_adapter_body(
            &parameters,
            &needed,
            &inner_type,
            expected.return_type.clone(),
        );
        let id = self.end_global(outer, Ghost(before));
        self.restore_scope(saved, Ghost(before));
        let function = self.make_definition_value(
            id,
            "evidence_adapter".to_owned(),
            declared.clone(),
        );
        self.push_instruction(Instruction::PackClosure { function, environment: value }, declared)
    }

    fn find_environment_generic(&self, callee: ExprId, index: usize) -> (found: Option<
        (usize, &'a TCType),
    >)
        ensures
            match found {
                Some((place, inner)) => self@.environment_generic(callee, index as int) == Some(
                    (place as int, *inner),
                ),
                None => self@.environment_generic(callee, index as int) is None,
            },
    {
        proof {
            reveal(Lowering::environment_generic);
        }
        let answers: &'a Answers = self.answers;
        let name = match answers.context.expr(callee) {
            Expr::Variable(path) => match answers.context.path_origin(*path) {
                Some(Origin::TopLevelDefinition(name)) => name,
                _ => {
                    return None;
                },
            },
            _ => {
                return None;
            },
        };
        let (generics, inner) = match answers.callee_types.get(&name) {
            Some(TCType::Forall(generics, inner)) => (generics, inner),
            _ => {
                return None;
            },
        };
        match &**inner {
            TCType::Function(function) => {
                let types = function.parameters.list_types();
                if index >= types.len() {
                    return None;
                }
                match &types[index] {
                    TCType::Function(parameter) => match &parameter.environment {
                        TCType::Generic(generic) => match find_first_generic(
                            &generics.to_vec(),
                            *generic,
                        ) {
                            Some(place) => Some((place, &**inner)),
                            None => None,
                        },
                        _ => None,
                    },
                    _ => None,
                }
            },
            _ => None,
        }
    }

    /// Instantiate a callee at another environment of one of its parameters.
    fn patch_environment_binding(
        &mut self,
        function: Value,
        callee: ExprId,
        index: usize,
        environment: Type,
    )
        ensures
            final(self)@ == old(self)@.environment_patched(
                function,
                callee,
                index as int,
                environment,
            ),
    {
        proof {
            reveal(Lowering::environment_patched);
        }
        let (id, mut types) = match self.instruction_of(&function) {
            Some(Instruction::Instantiate(id, types)) => (*id, copy_types(types)),
            _ => {
                return ;
            },
        };
        let (place, inner) = match self.find_environment_generic(callee, index) {
            Some(found) => found,
            None => {
                return ;
            },
        };
        if place >= types.len() {
            return ;
        }
        types.set(place, environment);
        let key = (inner.clone(), Types::from_vec(&types));
        let typ = match self.answers.instances.get(&key) {
            Some(typ) => typ.clone(),
            None => Type::Primitive(PrimitiveType::Error),
        };
        self.replace_instantiation(function, id, types, typ);
    }

    fn adapt(
        &mut self,
        value: Value,
        function: Value,
        callee: ExprId,
        index: usize,
        own: &FunctionType,
        expected: &FunctionType,
    ) -> (adapted: Value)
        requires
            own.parameters.items().len() > 0,
            expected.parameters.items().len() > 0,
        ensures
            (adapted, final(self)@) == old(self)@.adapted(
                value,
                function,
                callee,
                index as int,
                *own,
                *expected,
            ),
    {
        proof {
            reveal(Lowering::adapted);
        }
        let value_type = self.type_of_value(&value);
        match self.as_static_function(value) {
            Some(target) => {
                return self.build_static_adapter(target, value_type, None, own, expected);
            },
            None => {},
        }
        let packed = match self.instruction_of(&value) {
            Some(Instruction::PackClosure { function, environment }) => Some(
                (*function, *environment),
            ),
            _ => None,
        };
        match packed {
            Some((packed, environment)) => match self.as_static_function(packed) {
                Some(target) => {
                    let packed_type = self.type_of_value(&packed);
                    return self.build_static_adapter(
                        target,
                        packed_type,
                        Some(environment),
                        own,
                        expected,
                    );
                },
                None => {},
            },
            None => {},
        }
        let adapted = self.coerce_dynamic_argument_evidence(value, own, expected);
        self.patch_environment_binding(function, callee, index, value_type);
        adapted
    }

    /// Make an argument what the callee expects. A function may be passed where one with more
    /// effects is expected, and evidence has to be of the very layout: such a function is wrapped
    /// in one that takes out of the evidence what it needs.
    pub fn coerce_argument_evidence(
        &mut self,
        value: Value,
        function: Value,
        callee: ExprId,
        index: usize,
    ) -> (coerced: Value)
        ensures
            (coerced, final(self)@) == old(self)@.coerced(value, function, callee, index as int),
    {
        proof {
            reveal(Lowering::coerced);
        }
        let callee_type = self.type_of_value(&function);
        let value_type = self.type_of_value(&value);
        match (&callee_type, &value_type) {
            (Type::Function(callee_type), Type::Function(own)) => {
                let parameters = callee_type.parameters.to_vec();
                if index >= parameters.len() {
                    return value;
                }
                match &parameters[index] {
                    Type::Function(expected) => {
                        if check_differ_in_evidence(own, expected) {
                            self.adapt(value, function, callee, index, own, expected)
                        } else {
                            value
                        }
                    },
                    _ => value,
                }
            },
            _ => value,
        }
    }

    /// Take the method `index` out of a capability.
    pub fn index_capability_method(&mut self, capability: Value, index: u32) -> (method: Value)
        ensures
            (method, final(self)@) == old(self)@.method_of(capability, index),
    {
        proof {
            reveal(Lowering::method_of);
        }
        let typ = self.type_of_value(&capability);
        match typ.tuple_fields() {
            Some(fields) => {
                if (index as usize) < fields.len() {
                    self.push_instruction(
                        Instruction::IndexTuple { tuple: capability, index },
                        fields[index as usize].clone(),
                    )
                } else {
                    self.fail();
                    Value::Error
                }
            },
            None => self.push_instruction(Instruction::IndexTuple { tuple: capability, index }, typ),
        }
    }

    /// Call the method `index` of a capability.
    pub fn emit_indexed_method_call(
        &mut self,
        callee: Option<ExprId>,
        capability: Value,
        index: u32,
        arguments: Vec<Value>,
        typ: Type,
        diverges: bool,
    ) -> (value: Value)
        ensures
            (value, final(self)@) == old(self)@.method_called(
                callee,
                capability,
                index,
                arguments@,
                typ,
                diverges,
            ),
    {
        proof {
            reveal(Lowering::method_called);
        }
        let method = self.index_capability_method(capability, index);
        let closure = self.type_of_value(&method).has_environment();
        let arguments = match callee {
            Some(callee) => self.append_evidence_argument(callee, method, arguments),
            None => arguments,
        };
        let value = if closure {
            self.push_instruction(Instruction::CallClosure { closure: method, arguments }, typ)
        } else {
            self.push_instruction(Instruction::Call { function: method, arguments }, typ)
        };
        if diverges {
            self.terminate_block(TerminatorInstruction::Unreachable);
        }
        value
    }

    /// Call a method of a trait. The last argument is the capability.
    pub fn emit_trait_method_call(
        &mut self,
        callee: ExprId,
        operation: DefinitionId,
        index: u32,
        arguments: Vec<Value>,
        typ: Type,
        diverges: bool,
    ) -> (value: Value)
        ensures
            (value, final(self)@) == old(self)@.trait_method_called(
                callee,
                operation,
                index,
                arguments@,
                typ,
                diverges,
            ),
    {
        proof {
            reveal(Lowering::trait_method_called);
        }
        self.set_op_index(operation, index);
        if arguments.len() == 0 {
            self.fail();
            return Value::Error;
        }
        let capability = arguments[arguments.len() - 1];
        let rest = without_last(&arguments);
        self.emit_indexed_method_call(Some(callee), capability, index, rest, typ, diverges)
    }

    fn effect_type_of_op(&self, callee: ExprId) -> (effect: Option<TCType>)
        ensures
            effect == self@.effect_of_operation(callee),
    {
        proof {
            reveal(Lowering::effect_of_operation);
        }
        let typ = self.type_of_expr(callee);
        match self.follow(&typ) {
            TCType::Function(function) => match self.follow(&function.effects) {
                TCType::Effects(effects, _) => match effects.first() {
                    Some(effect) => Some(effect.clone()),
                    None => None,
                },
                _ => None,
            },
            _ => None,
        }
    }

    /// Call an operation of an effect, whose capability is in scope.
    pub fn emit_effect_op_call(
        &mut self,
        callee: ExprId,
        operation: DefinitionId,
        index: u32,
        arguments: Vec<Value>,
        typ: Type,
        diverges: bool,
    ) -> (value: Value)
        ensures
            (value, final(self)@) == old(self)@.operation_called(
                callee,
                operation,
                index,
                arguments@,
                typ,
                diverges,
            ),
    {
        proof {
            reveal(Lowering::operation_called);
        }
        self.set_op_index(operation, index);
        match self.effect_type_of_op(callee) {
            Some(effect) => {
                let capability = self.take_capability(&effect);
                self.emit_indexed_method_call(None, capability, index, arguments, typ, diverges)
            },
            None => {
                self.fail();
                Value::Error
            },
        }
    }

    /// The operation of an ability that a path names: its id, its place, and the kind of ability.
    pub fn try_resolve_ability_method(&mut self, path: PathId) -> (method: Option<
        (DefinitionId, u32, AbilityKind),
    >)
        ensures
            (method, final(self)@) == old(self)@.ability_method(path),
    {
        proof {
            reveal(Lowering::ability_method);
        }
        let name = match self.answers.context.path_origin(path) {
            Some(Origin::TopLevelDefinition(name)) => name,
            _ => {
                return None;
            },
        };
        match self.answers.database.items.get(&name.top_level_item) {
            Some(ItemKind::AbilityDefinition(ability)) => {
                let kind = ability.kind;
                match find_first_place(&ability.body, name.local_name_id) {
                    Some(place) => {
                        let id = self.get_definition_id(&name);
                        Some((id, place as u32, kind))
                    },
                    None => None,
                }
            },
            _ => None,
        }
    }

    fn build_operation_wrapper_body(&mut self, parameters: &Vec<Type>, return_type: Type, index: u32)
        ensures
            final(self)@ == old(self)@.operation_wrapper_body(parameters@, return_type, index),
    {
        proof {
            reveal(Lowering::operation_wrapper_body);
        }
        let params = self.push_capability_parameters(parameters);
        let count: usize = params.len();
        if count == 0 {
            self.fail();
            return ;
        }
        let head = match parameters[count - 1].tuple_fields() {
            Some(fields) => {
                if fields.len() > 0 {
                    Some(fields[0].clone())
                } else {
                    None
                }
            },
            None => None,
        };
        match head {
            Some(typ) => {
                let capability = self.push_instruction(
                    Instruction::IndexTuple { tuple: params[count - 1], index: 0 },
                    typ,
                );
                let method = self.index_capability_method(capability, index);
                let result = self.push_instruction(
                    Instruction::CallClosure { closure: method, arguments: without_last(&params) },
                    return_type,
                );
                self.terminate_block(TerminatorInstruction::Return(result));
            },
            None => {
                self.fail();
            },
        }
    }

    /// The function that an operation of an effect is as a value.
    pub fn effect_op_value_wrapper(&mut self, path: PathId, index: u32) -> (value: Value)
        ensures
            (value, final(self)@) == old(self)@.operation_wrapper(path, index),
    {
        proof {
            reveal(Lowering::operation_wrapper);
            reveal(Lowering::isolated);
            reveal(Lowering::isolated_finished);
        }
        let uniform = self.convert_path_type(path);
        let (parameters, return_type) = match &uniform {
            Type::Function(function) => (
                function.parameters.to_vec(),
                function.return_type.clone(),
            ),
            _ => {
                return Value::Error;
            },
        };
        let ghost before = self@;
        let count = self.generic_count();
        let saved = self.take_scope();
        let outer = self.start_global("effect_op".to_owned(), None, count, uniform.clone());
        self.build_operation_wrapper_body(&parameters, return_type, index);
        let id = self.end_global(outer, Ghost(before));
        self.restore_scope(saved, Ghost(before));
        self.make_definition_value(id, "effect_op".to_owned(), uniform)
    }

    fn build_extern_wrapper_body(
        &mut self,
        target: DefinitionId,
        parameters: &Vec<Type>,
        return_type: Type,
    )
        ensures
            final(self)@ == old(self)@.extern_wrapper_body(target, parameters@, return_type),
    {
        proof {
            reveal(Lowering::extern_wrapper_body);
        }
        let params = self.push_capability_parameters(parameters);
        let arguments = if params.len() > 0 {
            without_last(&params)
        } else {
            params
        };
        let result = self.push_instruction(
            Instruction::Call { function: Value::Definition(target), arguments },
            return_type,
        );
        self.terminate_block(TerminatorInstruction::Return(result));
    }

    /// A function that takes evidence and calls a function of the target, which takes none.
    pub fn extern_evidence_wrapper(&mut self, target: DefinitionId, name: &String, uniform: Type) -> (value:
        Value)
        ensures
            (value, final(self)@) == old(self)@.extern_wrapper(target, name@, uniform),
    {
        proof {
            reveal(Lowering::extern_wrapper);
            reveal(Lowering::isolated);
            reveal(Lowering::isolated_finished);
        }
        let (parameters, return_type) = match &uniform {
            Type::Function(function) => (
                function.parameters.to_vec(),
                function.return_type.clone(),
            ),
            _ => {
                return Value::Definition(target);
            },
        };
        let mut text = name.clone();
        text.append("_wrapper");
        let ghost before = self@;
        let count = self.generic_count();
        let saved = self.take_scope();
        let outer = self.start_global(text.clone(), None, count, uniform.clone());
        self.build_extern_wrapper_body(target, &parameters, return_type);
        let id = self.end_global(outer, Ghost(before));
        self.restore_scope(saved, Ghost(before));
        self.make_definition_value(id, text, uniform)
    }

    /// Note the environment of each closure among the methods of a capability.
    pub fn collect_capability_environments(&mut self, capability: Value, environments: Vec<Value>) -> (all:
        Vec<Value>)
        ensures
            (all@, final(self)@) == (match old(self)@.value_type(capability).fields() {
                Some(fields) => old(self)@.capability_environments(
                    capability,
                    fields,
                    environments@,
                    fields.len() as int,
                ),
                None => (environments@, old(self)@),
            }),
    {
        let fields = match self.type_of_value(&capability).tuple_fields() {
            Some(fields) => fields,
            None => {
                return environments;
            },
        };
        let ghost start = environments@;
        let mut environments = environments;
        let mut i: usize = 0;
        proof {
            reveal(Lowering::capability_environments);
        }
        while i < fields.len()
            invariant
                i <= fields.len(),
                (environments@, self@) == old(self)@.capability_environments(
                    capability,
                    fields@,
                    start,
                    i as int,
                ),
            decreases fields.len() - i,
        {
            proof {
                reveal(Lowering::capability_environments);
            }
            if fields[i].has_environment() {
                let closure = self.push_instruction(
                    Instruction::IndexTuple { tuple: capability, index: i as u32 },
                    fields[i].clone(),
                );
                let environment = self.push_instruction(
                    Instruction::IndexTuple { tuple: closure, index: 1 },
                    pointer(),
                );
                environments.push(environment);
            }
            i += 1;
        }
        environments
    }

    /// Free environments. One of a method that captures nothing is null.
    pub fn emit_frees(&mut self, environments: &Vec<Value>)
        ensures
            final(self)@ == old(self)@.all_freed(environments@, environments@.len() as int),
    {
        let mut i: usize = 0;
        proof {
            reveal(Lowering::all_freed);
        }
        while i < environments.len()
            invariant
                i <= environments.len(),
                self@ == old(self)@.all_freed(environments@, i as int),
            decreases environments.len() - i,
        {
            proof {
                reveal(Lowering::all_freed);
            }
            self.push_instruction(Instruction::FreeShared(environments[i]), unit());
            i += 1;
        }
    }

    /// Whether the item is the `Drop` trait of the prelude.
    pub fn is_prelude_drop_trait(&self, item: TopLevelId) -> (drop: bool)
        ensures
            drop == self@.is_prelude_drop(item),
    {
        proof {
            reveal(Lowering::is_prelude_drop);
        }
        if item.source_file != PRELUDE {
            return false;
        }
        match self.answers.database.items.get(&item) {
            Some(ItemKind::AbilityDefinition(ability)) => {
                let text = self.get_definition_name(&TopLevelName::new(item, ability.name));
                let drop_text = "Drop".to_owned();
                ability.kind == AbilityKind::Trait && text == drop_text
            },
            _ => false,
        }
    }

    /// Whether the path names a method of the `Extract` ability of the prelude.
    pub fn path_is_extract_method(&self, path: PathId) -> (extract: bool)
        ensures
            extract == self@.is_extract_method(path),
    {
        proof {
            reveal(Lowering::is_extract_method);
        }
        match (
            self.answers.database.find_exported_type(PRELUDE, "Extract"),
            self.answers.context.path_origin(path),
        ) {
            (Some(extract), Some(Origin::TopLevelDefinition(name))) => extract.top_level_item
                == name.top_level_item,
            _ => false,
        }
    }

    fn function_returns_never(&self, typ: &TCType, depth: u64) -> (never: bool)
        ensures
            never == self@.never_returns(*typ, depth as nat),
        decreases depth,
    {
        if depth == 0 {
            return false;
        }
        match self.follow(typ) {
            TCType::Forall(_, inner) => self.function_returns_never(inner, depth - 1),
            TCType::Function(function) => match self.follow(&function.return_type) {
                TCType::Primitive(crate::types::PrimitiveType::Never) => true,
                _ => false,
            },
            _ => false,
        }
    }

    /// Whether a call of the callee does not return. The type of the path is asked: that of the
    /// expression may be what was expected there.
    pub fn callee_diverges(&self, callee: ExprId) -> (diverges: bool)
        ensures
            diverges == self@.callee_diverges(callee),
    {
        proof {
            reveal(Lowering::callee_diverges);
        }
        match self.answers.context.expr(callee) {
            Expr::Variable(path) => match map_get(&self.answers.path_types, *path) {
                Some(typ) => self.function_returns_never(typ, NESTING_LIMIT),
                None => false,
            },
            _ => false,
        }
    }

    fn find_handled_keys(&self, name: NameId) -> (keys: Vec<TCType>)
        ensures
            keys@ == self@.handled_keys(name),
    {
        proof {
            reveal(Lowering::handled_keys);
        }
        let typ = self.type_of_name(name).substitute(&self.answers.bindings, NESTING_LIMIT);
        let mut keys: Vec<TCType> = Vec::new();
        match &typ {
            TCType::Effects(effects, _) => {
                let effects = effects.to_vec();
                let mut i: usize = 0;
                while i < effects.len()
                    invariant
                        i <= effects.len(),
                        keys@ == effects@.take(i as int).map_values(
                            |effect: TCType| self@.capability_key(effect),
                        ),
                    decreases effects.len() - i,
                {
                    keys.push(self.capability_key(&effects[i]));
                    assert(effects@.take(i + 1) =~= effects@.take(i as int).push(
                        effects@[i as int],
                    ));
                    assert(keys@ =~= effects@.take(i + 1).map_values(
                        |effect: TCType| self@.capability_key(effect),
                    ));
                    i += 1;
                }
                assert(effects@.take(i as int) =~= effects@);
            },
            other => {
                keys.push(self.capability_key(other));
                assert(keys@ =~= seq![self@.capability_key(*other)]);
            },
        }
        keys
    }

    /// The effects that the body or a branch of a `handle` performs and does not handle.
    pub fn suppressed_lambda_needed_capabilities(
        &self,
        effects: &TCType,
        handler: Option<NameId>,
    ) -> (needed: Vec<TCType>)
        ensures
            needed@ == self@.captured_effects(*effects, handler),
    {
        proof {
            reveal(Lowering::captured_effects);
        }
        let (concretes, _) = self.split_row(effects);
        let excluded: Vec<TCType> = match handler {
            Some(name) => self.find_handled_keys(name),
            None => {
                let none: Vec<TCType> = Vec::new();
                assert(none@ =~= Seq::empty());
                none
            },
        };
        let mut needed: Vec<TCType> = Vec::new();
        let mut i: usize = 0;
        proof {
            reveal(Lowering::effects_besides);
        }
        while i < concretes.len()
            invariant
                i <= concretes.len(),
                needed@ == self@.effects_besides(concretes@, excluded@, i as int),
            decreases concretes.len() - i,
        {
            proof {
                reveal(Lowering::effects_besides);
            }
            let key = self.capability_key(&concretes[i]);
            if !lists_type(&excluded, &key) {
                needed.push(concretes[i].clone());
            }
            i += 1;
        }
        needed
    }
}

/// Whether `typ` is one of `types`.
fn lists_type(types: &Vec<TCType>, typ: &TCType) -> (listed: bool)
    ensures
        listed == types@.contains(*typ),
{
    let mut i: usize = 0;
    while i < types.len()
        invariant
            i <= types.len(),
            forall|j: int| 0 <= j < i ==> types@[j] != *typ,
        decreases types.len() - i,
    {
        if types[i] == *typ {
            return true;
        }
        i += 1;
    }
    false
}

} // verus!

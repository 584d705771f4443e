//! How paths, fields of constructors and the impls the compiler writes are lowered.

use crate::collections::{map_get, set_contains};
#[allow(unused_imports)]
use crate::collections::lookup;
use crate::cst::Expr;
#[allow(unused_imports)]
use crate::cst::ExprForm;
use crate::database::{AbilityKind, ItemKind};
use crate::ids::{
    DefinitionId, ExprId, NameId, Origin, PathId, TopLevelName, ENTRY_BLOCK, NESTING_LIMIT, PRELUDE,
    RELEASE_FUNCTION,
};
use crate::mir::builder::counted::release_function_mir_type;
#[allow(unused_imports)]
use crate::mir::builder::counted::release_signature;
use crate::mir::builder::state::{Builder, TCType};
#[allow(unused_imports)]
use crate::mir::builder::state::Lowering;
use crate::mir::{FunctionType, Instruction, PrimitiveType, TerminatorInstruction, Type, Value};
#[allow(unused_imports)]
use crate::mir::{Operation, Terminator};
use vstd::prelude::*;

verus! {

/// The type without the generics it quantifies.
pub open spec fn unquantified(typ: TCType) -> TCType {
    match typ {
        TCType::Forall(_, inner) => *inner,
        other => other,
    }
}

/// The type without the generics it quantifies.
pub fn ignore_forall(typ: &TCType) -> (inner: &TCType)
    ensures
        *inner == unquantified(*typ),
{
    match typ {
        TCType::Forall(_, inner) => inner,
        other => other,
    }
}

/// The parameters of the first block, from the first on.
pub open spec fn entry_parameters(count: int) -> Seq<Value>
    decreases count,
{
    if count <= 0 {
        Seq::empty()
    } else {
        entry_parameters(count - 1).push(Value::Parameter(ENTRY_BLOCK, (count - 1) as u32))
    }
}

impl Lowering {
    pub open spec fn is_release_path(self, path: PathId) -> bool {
        match self.answers.context@.path_origin(path) {
            Some(Origin::TopLevelDefinition(name)) => name.local_name_id == RELEASE_FUNCTION,
            _ => false,
        }
    }

    /// The name is defined as a symbol of the target.
    pub open spec fn is_extern_name(self, name: TopLevelName) -> bool {
        match lookup(self.answers.database.items@, name.top_level_item) {
            Some(ItemKind::Definition { is_extern, .. }) => is_extern,
            _ => false,
        }
    }

    /// The value of a path, before what it is used at.
    #[verifier::opaque]
    pub open spec fn path_value(self, path: PathId) -> (Value, Lowering) {
        let typ = self.path_type(path);
        match self.answers.context@.path_origin(path) {
            Some(Origin::TopLevelDefinition(name)) => {
                let (id, made) = self.id_of(name);
                let text = self.name_of(name);
                if name.local_name_id == RELEASE_FUNCTION {
                    made.definition_value(id, text, release_signature())
                } else if self.is_extern_name(name) {
                    made.definition_value(id, text, self.c_layout(typ)).1.extern_wrapper(
                        id,
                        text,
                        self.layout(typ),
                    )
                } else {
                    made.definition_value(id, text, self.layout(typ))
                }
            },
            Some(Origin::Local(name)) => if !self.locals.contains_key(name) {
                (Value::Error, self.fails())
            } else if self.mutable_locals.contains(name) {
                self.pushed(Operation::Deref(self.locals[name]), self.layout(typ))
            } else {
                (self.locals[name], self)
            },
            Some(Origin::Builtin(number)) => match lookup(self.globals, Origin::Builtin(number)) {
                Some(value) => (value, self),
                None => (Value::Error, self.fails()),
            },
            Some(Origin::TypeResolution) => (Value::Error, self.fails()),
            None => (Value::Error, self),
        }
    }

    /// The value of a path at the types it is used at.
    #[verifier::opaque]
    pub open spec fn instantiated(self, path: PathId, value: Value) -> (Value, Lowering) {
        match value {
            Value::Definition(id) => if self.answers.instantiations@.contains_key(path) {
                let typ = if self.is_release_path(path) {
                    release_signature()
                } else {
                    self.layout(self.path_type(path))
                };
                self.pushed(
                    Operation::Instantiate(
                        id,
                        self.layouts_of(self.answers.instantiations@[path]@),
                    ),
                    typ,
                )
            } else {
                (value, self)
            },
            _ => (value, self),
        }
    }

    /// The value of a path.
    #[verifier::opaque]
    pub open spec fn variable_made(self, path: PathId) -> (Value, Lowering) {
        let (method, made) = self.ability_method(path);
        match method {
            Some((operation, index, AbilityKind::Effect)) => made.with_op_index(
                operation,
                index,
            ).operation_wrapper(path, index),
            _ => {
                let (value, made) = made.path_value(path);
                made.instantiated(path, value)
            },
        }
    }

    /// The expression is a symbol of the target, perhaps with an annotation.
    pub open spec fn is_extern_expr(self, expr: ExprId, depth: nat) -> bool
        decreases depth,
    {
        depth > 0 && match self.answers.context@.expr(expr) {
            ExprForm::Extern(_) => true,
            ExprForm::TypeAnnotation { lhs } => self.is_extern_expr(lhs, (depth - 1) as nat),
            _ => false,
        }
    }

    #[verifier::opaque]
    pub open spec fn is_extern_rhs(self, expr: ExprId) -> bool {
        self.is_extern_expr(expr, NESTING_LIMIT as nat)
    }

    /// The name is an impl of `Copy` for a shared type.
    #[verifier::opaque]
    pub open spec fn is_shared_copy(self, name: NameId) -> bool {
        match self.follow(unquantified(self.generalized(name))) {
            TCType::Application(constructor, args) => {
                &&& args.items().len() == 1
                &&& self.shared_target(args.items()[0]) is Some
                &&& match self.follow(*constructor) {
                    TCType::UserDefined(Origin::TopLevelDefinition(ability)) => Some(ability)
                        == self.answers.database.exported_type(PRELUDE, "Copy"@),
                    _ => false,
                }
            },
            _ => false,
        }
    }

    /// This state with the first `count` of `types` as parameters of the current block.
    #[verifier::opaque]
    pub open spec fn with_plain_parameters(self, types: Seq<Type>, count: int) -> Lowering
        decreases count,
    {
        if count <= 0 {
            self
        } else {
            self.with_plain_parameters(types, count - 1).with_parameter(types[count - 1])
        }
    }

    /// The method of an impl of `Copy`, if the impl has but one and it returns a handle.
    pub open spec fn copy_method(impl_type: Type) -> Option<FunctionType> {
        match impl_type.fields() {
            Some(fields) => if fields.len() == 1 {
                match fields[0] {
                    Type::Function(method) => if method.return_type == Type::pointer() {
                        Some(*method)
                    } else {
                        None
                    },
                    _ => None,
                }
            } else {
                None
            },
            None => None,
        }
    }

    /// The body that copies a handle: it loads and retains it.
    #[verifier::opaque]
    pub open spec fn copy_body(self, parameters: Seq<Type>) -> Lowering {
        let made = self.with_plain_parameters(parameters, parameters.len() as int);
        let (handle, made) = made.pushed(
            Operation::Deref(Value::Parameter(ENTRY_BLOCK, 0)),
            Type::pointer(),
        );
        made.pushed(Operation::RcRetain(handle), Type::unit()).1.terminated(
            Terminator::Return(handle),
        )
    }

    /// The impl of `Copy` for a shared type, whose method is `method`.
    #[verifier::opaque]
    pub open spec fn copy_impl_made(self, impl_type: Type, method: FunctionType) -> (
        Value,
        Lowering,
    ) {
        let parameters = method.parameters.items().push(method.environment);
        let typ = Type::function(parameters, Type::no_env(), method.return_type);
        let (id, made) = self.definition_started(
            "copy_shared"@,
            None,
            self.generic_count(),
            typ,
        ).copy_body(parameters).definition_finished(self);
        let (function, made) = made.definition_value(id, "copy_shared"@, typ);
        let (environment, made) = made.pushed(Operation::Transmute(Value::Unit), Type::pointer());
        let (closure, made) = made.pushed(
            Operation::PackClosure { function, environment },
            Type::Function(Box::new(method)),
        );
        made.pushed(Operation::MakeTuple(seq![closure]), impl_type)
    }

    /// A closure of the layout `expected` with no environment, of the function `value`.
    #[verifier::opaque]
    pub open spec fn packed_without_env(self, value: Value, expected: Type) -> (Value, Lowering) {
        let (environment, made) = self.pushed(Operation::Transmute(Value::Unit), Type::pointer());
        made.pushed(Operation::PackClosure { function: value, environment }, expected)
    }

    /// The body of a function that ignores its environment and calls a definition.
    #[verifier::opaque]
    pub open spec fn field_wrapper_body(
        self,
        expected: FunctionType,
        target: (DefinitionId, Option<Seq<Type>>),
        target_type: Type,
    ) -> Lowering {
        let parameters = expected.parameters.items();
        let made = self.with_plain_parameters(
            parameters,
            parameters.len() as int,
        ).with_parameter(expected.environment);
        let (function, made) = made.target_value(target.0, target.1, target_type);
        let (result, made) = made.pushed(
            Operation::Call { function, arguments: entry_parameters(parameters.len() as int) },
            expected.return_type,
        );
        made.terminated(Terminator::Return(result))
    }

    #[verifier::opaque]
    pub open spec fn field_wrapped(
        self,
        expected: FunctionType,
        target: (DefinitionId, Option<Seq<Type>>),
        target_type: Type,
    ) -> (Value, Lowering) {
        let typ = Type::Function(Box::new(expected));
        let (id, made) = self.definition_started(
            "ability_field_wrapper"@,
            None,
            self.generic_count(),
            typ,
        ).field_wrapper_body(expected, target, target_type).definition_finished(self);
        let (function, made) = made.definition_value(id, "ability_field_wrapper"@, typ);
        made.packed_without_env(function, typ)
    }

    /// A field as the layout of an ability expects it: a function without an environment becomes a
    /// closure whose environment is null.
    #[verifier::opaque]
    pub open spec fn field_coerced(self, value: Value, expected: Option<Type>) -> (Value, Lowering) {
        match (expected, self.value_type(value)) {
            (Some(Type::Function(expected)), Type::Function(own)) => if expected.environment
                == Type::pointer() && own.environment == Type::no_env() {
                match self.static_function(value) {
                    Some(target) => self.field_wrapped(
                        *expected,
                        target,
                        Type::Function(own),
                    ),
                    None => match value {
                        Value::InstructionResult(_) => self.packed_without_env(
                            value,
                            Type::Function(expected),
                        ),
                        _ => (value, self),
                    },
                }
            } else {
                (value, self)
            },
            _ => (value, self),
        }
    }
}

/// The parameters of the first block, from the first on.
pub fn list_entry_parameters(count: usize) -> (values: Vec<Value>)
    ensures
        values@ == entry_parameters(count as int),
{
    let mut values: Vec<Value> = Vec::new();
    let mut i: usize = 0;
    while i < count
        invariant
            i <= count,
            values@ == entry_parameters(i as int),
        decreases count - i,
    {
        values.push(Value::Parameter(ENTRY_BLOCK, i as u32));
        i += 1;
    }
    values
}

impl<'a> Builder<'a> {
    pub fn path_is_release(&self, path: PathId) -> (release: bool)
        ensures
            release == self@.is_release_path(path),
    {
        match self.answers.context.path_origin(path) {
            Some(Origin::TopLevelDefinition(name)) => name.local_name_id == RELEASE_FUNCTION,
            _ => false,
        }
    }

    /// Whether the name is defined as a symbol of the target.
    pub fn name_is_extern(&self, name: &TopLevelName) -> (symbol: bool)
        ensures
            symbol == self@.is_extern_name(*name),
    {
        match self.answers.database.items.get(&name.top_level_item) {
            Some(ItemKind::Definition { is_extern, .. }) => *is_extern,
            _ => false,
        }
    }

    fn path_value(&mut self, path: PathId) -> (value: Value)
        ensures
            (value, final(self)@) == old(self)@.path_value(path),
    {
        proof {
            reveal(Lowering::path_value);
        }
        match self.answers.context.path_origin(path) {
            Some(Origin::TopLevelDefinition(name)) => {
                let layout = self.convert_path_type(path);
                let text = self.get_definition_name(&name);
                let is_extern = self.name_is_extern(&name);
                let typ = self.type_of_path(path);
                let c_layout = self.convert_c_function_type(&typ);
                let id = self.get_definition_id(&name);
                if name.local_name_id == RELEASE_FUNCTION {
                    self.make_definition_value(id, text, release_function_mir_type())
                } else if is_extern {
                    self.make_definition_value(id, text.clone(), c_layout);
                    self.extern_evidence_wrapper(id, &text, layout)
                } else {
                    self.make_definition_value(id, text, layout)
                }
            },
            Some(Origin::Local(name)) => {
                let known = match map_get(&self.local_variables, name) {
                    Some(value) => Some(*value),
                    None => None,
                };
                match known {
                    Some(value) => {
                        if set_contains(&self.mutable_locals, name) {
                            let layout = self.convert_path_type(path);
                            self.push_instruction(Instruction::Deref(value), layout)
                        } else {
                            value
                        }
                    },
                    None => {
                        self.fail();
                        Value::Error
                    },
                }
            },
            Some(Origin::Builtin(number)) => {
                let known = match self.global_variables.get(&Origin::Builtin(number)) {
                    Some(value) => Some(*value),
                    None => None,
                };
                match known {
                    Some(value) => value,
                    None => {
                        self.fail();
                        Value::Error
                    },
                }
            },
            Some(Origin::TypeResolution) => {
                self.fail();
                Value::Error
            },
            None => Value::Error,
        }
    }

    fn instantiate(&mut self, path: PathId, value: Value) -> (result: Value)
        ensures
            (result, final(self)@) == old(self)@.instantiated(path, value),
    {
        proof {
            reveal(Lowering::instantiated);
        }
        let id = match value {
            Value::Definition(id) => id,
            _ => {
                return value;
            },
        };
        match map_get(&self.answers.instantiations, path) {
            Some(types) => {
                let layouts = self.convert_types(types);
                let typ = if self.path_is_release(path) {
                    release_function_mir_type()
                } else {
                    self.convert_path_type(path)
                };
                self.push_instruction(Instruction::Instantiate(id, layouts), typ)
            },
            None => value,
        }
    }

    /// Lower a path.
    pub fn variable(&mut self, path: PathId) -> (value: Value)
        ensures
            (value, final(self)@) == old(self)@.variable_made(path),
    {
        proof {
            reveal(Lowering::variable_made);
        }
        match self.try_resolve_ability_method(path) {
            Some((operation, index, AbilityKind::Effect)) => {
                self.set_op_index(operation, index);
                self.effect_op_value_wrapper(path, index)
            },
            _ => {
                let value = self.path_value(path);
                self.instantiate(path, value)
            },
        }
    }

    fn extern_at(&self, expr: ExprId, depth: u64) -> (symbol: bool)
        ensures
            symbol == self@.is_extern_expr(expr, depth as nat),
        decreases depth,
    {
        if depth == 0 {
            return false;
        }
        match self.answers.context.expr(expr) {
            Expr::Extern(_) => true,
            Expr::TypeAnnotation { lhs } => self.extern_at(*lhs, depth - 1),
            _ => false,
        }
    }

    /// Whether the expression is a symbol of the target, perhaps with an annotation.
    pub fn rhs_is_extern(&self, expr: ExprId) -> (symbol: bool)
        ensures
            symbol == self@.is_extern_rhs(expr),
    {
        proof {
            reveal(Lowering::is_extern_rhs);
        }
        self.extern_at(expr, NESTING_LIMIT)
    }

    /// Whether the name is an impl of `Copy` for a shared type.
    pub fn is_shared_copy_impl(&self, name: NameId) -> (copy: bool)
        ensures
            copy == self@.is_shared_copy(name),
    {
        proof {
            reveal(Lowering::is_shared_copy);
        }
        let generalized = self.get_generalized(name);
        match self.follow(ignore_forall(&generalized)) {
            TCType::Application(constructor, args) => {
                let args = args.to_vec();
                if args.len() != 1 || self.shared_release_target(&args[0]).is_none() {
                    return false;
                }
                match self.follow(constructor) {
                    TCType::UserDefined(Origin::TopLevelDefinition(ability)) => {
                        match self.answers.database.find_exported_type(PRELUDE, "Copy") {
                            Some(copy) => *ability == copy,
                            None => false,
                        }
                    },
                    _ => false,
                }
            },
            _ => false,
        }
    }

    /// Add a parameter to the current block for each of `types`.
    pub fn push_parameters(&mut self, types: &Vec<Type>)
        ensures
            final(self)@ == old(self)@.with_plain_parameters(types@, types@.len() as int),
    {
        let mut i: usize = 0;
        proof {
            reveal(Lowering::with_plain_parameters);
        }
        while i < types.len()
            invariant
                i <= types.len(),
                self@ == old(self)@.with_plain_parameters(types@, i as int),
            decreases types.len() - i,
        {
            proof {
                reveal(Lowering::with_plain_parameters);
            }
            self.push_parameter(types[i].clone());
            i += 1;
        }
    }

    fn build_copy_body(&mut self, parameters: &Vec<Type>)
        ensures
            final(self)@ == old(self)@.copy_body(parameters@),
    {
        proof {
            reveal(Lowering::copy_body);
        }
        self.push_parameters(parameters);
        let handle = self.push_instruction(
            Instruction::Deref(Value::Parameter(ENTRY_BLOCK, 0)),
            Type::Primitive(PrimitiveType::Pointer),
        );
        self.push_instruction(Instruction::RcRetain(handle), Type::Primitive(PrimitiveType::Unit));
        self.terminate_block(TerminatorInstruction::Return(handle));
    }

    fn find_copy_method(impl_type: &Type) -> (method: Option<FunctionType>)
        ensures
            method == Lowering::copy_method(*impl_type),
    {
        match impl_type.tuple_fields() {
            Some(fields) => {
                if fields.len() != 1 {
                    return None;
                }
                match &fields[0] {
                    Type::Function(method) => match &method.return_type {
                        Type::Primitive(PrimitiveType::Pointer) => Some((**method).clone()),
                        _ => None,
                    },
                    _ => None,
                }
            },
            None => None,
        }
    }

    /// Make the impl of `Copy` for a shared type. A copy of a handle is a handle of its own, and
    /// nothing that can be written in its place retains it. An impl of another shape is left to
    /// what was written.
    pub fn build_shared_copy_impl(&mut self, impl_type: Type) -> (value: Option<Value>)
        ensures
            match Lowering::copy_method(impl_type) {
                Some(method) => match value {
                    Some(value) => (value, final(self)@) == old(self)@.copy_impl_made(
                        impl_type,
                        method,
                    ),
                    None => false,
                },
                None => value is None && final(self)@ == old(self)@,
            },
    {
        proof {
            reveal(Lowering::copy_impl_made);
        }
        let method = match Self::find_copy_method(&impl_type) {
            Some(method) => method,
            None => {
                return None;
            },
        };
        let mut parameters = method.parameters.to_vec();
        parameters.push(method.environment.clone());
        let typ = Type::function_of(
            &parameters,
            Type::Primitive(PrimitiveType::NoClosureEnv),
            method.return_type.clone(),
        );
        let count = self.generic_count();
        let ghost before = self@;
        let outer = self.start_global("copy_shared".to_owned(), None, count, typ.clone());
        self.build_copy_body(&parameters);
        let id = self.end_global(outer, Ghost(before));
        let function = self.make_definition_value(id, "copy_shared".to_owned(), typ);
        let environment = self.push_instruction(
            Instruction::Transmute(Value::Unit),
            Type::Primitive(PrimitiveType::Pointer),
        );
        let closure = self.push_instruction(
            Instruction::PackClosure { function, environment },
            Type::Function(Box::new(method)),
        );
        let mut fields: Vec<Value> = Vec::new();
        fields.push(closure);
        assert(fields@ =~= seq![closure]);
        Some(self.push_instruction(Instruction::MakeTuple(fields), impl_type))
    }

    pub fn pack_without_env(&mut self, value: Value, expected: Type) -> (closure: Value)
        ensures
            (closure, final(self)@) == old(self)@.packed_without_env(value, expected),
    {
        proof {
            reveal(Lowering::packed_without_env);
        }
        let environment = self.push_instruction(
            Instruction::Transmute(Value::Unit),
            Type::Primitive(PrimitiveType::Pointer),
        );
        self.push_instruction(Instruction::PackClosure { function: value, environment }, expected)
    }

    fn build_field_wrapper_body(
        &mut self,
        expected: &FunctionType,
        target: (DefinitionId, Option<Vec<Type>>),
        target_type: Type,
    )
        ensures
            final(self)@ == old(self)@.field_wrapper_body(
                *expected,
                (
                    target.0,
                    match target.1 {
                        Some(types) => Some(types@),
                        None => None,
                    },
                ),
                target_type,
            ),
    {
        proof {
            reveal(Lowering::field_wrapper_body);
        }
        let parameters = expected.parameters.to_vec();
        self.push_parameters(&parameters);
        self.push_parameter(expected.environment.clone());
        let function = self.push_target(target.0, target.1, target_type);
        let arguments = list_entry_parameters(parameters.len());
        let result = self.push_instruction(
            Instruction::Call { function, arguments },
            expected.return_type.clone(),
        );
        self.terminate_block(TerminatorInstruction::Return(result));
    }

    fn wrap_field(
        &mut self,
        expected: &FunctionType,
        target: (DefinitionId, Option<Vec<Type>>),
        target_type: Type,
    ) -> (value: Value)
        ensures
            (value, final(self)@) == old(self)@.field_wrapped(
                *expected,
                (
                    target.0,
                    match target.1 {
                        Some(types) => Some(types@),
                        None => None,
                    },
                ),
                target_type,
            ),
    {
        proof {
            reveal(Lowering::field_wrapped);
        }
        let typ = Type::Function(Box::new(expected.clone()));
        let count = self.generic_count();
        let ghost before = self@;
        let outer = self.start_global("ability_field_wrapper".to_owned(), None, count, typ.clone());
        self.build_field_wrapper_body(expected, target, target_type);
        let id = self.end_global(outer, Ghost(before));
        let function = self.make_definition_value(
            id,
            "ability_field_wrapper".to_owned(),
            typ.clone(),
        );
        self.pack_without_env(function, typ)
    }

    /// Make a field what the layout of an ability expects.
    pub fn coerce_field_to_pointer_env(&mut self, value: Value, expected: Option<&Type>) -> (coerced:
        Value)
        ensures
            (coerced, final(self)@) == old(self)@.field_coerced(
                value,
                match expected {
                    Some(expected) => Some(*expected),
                    None => None,
                },
            ),
    {
        proof {
            reveal(Lowering::field_coerced);
        }
        let expected = match expected {
            Some(Type::Function(expected)) => expected,
            _ => {
                return value;
            },
        };
        let own = match self.type_of_value(&value) {
            Type::Function(own) => own,
            _ => {
                return value;
            },
        };
        match &expected.environment {
            Type::Primitive(PrimitiveType::Pointer) => {},
            _ => {
                return value;
            },
        }
        match &own.environment {
            Type::Primitive(PrimitiveType::NoClosureEnv) => {},
            _ => {
                return value;
            },
        }
        match self.as_static_function(value) {
            Some(target) => self.wrap_field(expected, target, Type::Function(own)),
            None => match value {
                Value::InstructionResult(_) => self.pack_without_env(
                    value,
                    Type::Function(Box::new((**expected).clone())),
                ),
                _ => value,
            },
        }
    }
}

} // verus!

//! What types values, functions and environments are of.

#[allow(unused_imports)]
use crate::cst::ExprForm;
#[allow(unused_imports)]
use crate::ids::{DefinitionId, ExprId, Origin, PathId, RELEASE_FUNCTION};
#[allow(unused_imports)]
use crate::mir::builder::evidence::differ_in_evidence;
#[allow(unused_imports)]
use crate::mir::builder::lambdas::env_extended;
#[allow(unused_imports)]
use crate::mir::builder::state::Lowering;
#[allow(unused_imports)]
use crate::mir::{FunctionType, Operation, PrimitiveType, Type, Types, Value};
#[allow(unused_imports)]
use crate::types::{FloatKind, IntegerKind};
use vstd::prelude::*;

verus! {

impl Lowering {
    /// A constant is of the type that its number is written in.
    pub proof fn law_a_constant_is_of_the_type_it_is_written_in(self, value: Value)
        ensures
            match value {
                Value::Integer(constant) => self.value_type(value) == Type::Primitive(
                    PrimitiveType::Int(
                        if constant is I8 {
                            IntegerKind::I8
                        } else if constant is I16 {
                            IntegerKind::I16
                        } else if constant is I32 {
                            IntegerKind::I32
                        } else if constant is I64 {
                            IntegerKind::I64
                        } else if constant is Isz {
                            IntegerKind::Isz
                        } else if constant is U8 {
                            IntegerKind::U8
                        } else if constant is U16 {
                            IntegerKind::U16
                        } else if constant is U32 {
                            IntegerKind::U32
                        } else if constant is U64 {
                            IntegerKind::U64
                        } else {
                            IntegerKind::Usz
                        },
                    ),
                ),
                Value::Float(constant) => self.value_type(value) == Type::Primitive(
                    PrimitiveType::Float(
                        if constant is F32 {
                            FloatKind::F32
                        } else {
                            FloatKind::F64
                        },
                    ),
                ),
                Value::Bool(_) => self.value_type(value) == Type::Primitive(PrimitiveType::Bool),
                Value::Char(_) => self.value_type(value) == Type::Primitive(PrimitiveType::Char),
                Value::Unit => self.value_type(value) == Type::Primitive(PrimitiveType::Unit),
                _ => true,
            },
    {
        reveal(Lowering::value_type);
    }

    /// What an operation gives is of the type that the operation was given, and all that was there
    /// before stays of its type.
    pub proof fn law_a_result_is_of_its_type(self, operation: Operation, typ: Type, other: Value)
        requires
            self.is_running(),
            self.function.unwrap().instruction_result_types.len()
                == self.function.unwrap().instructions.len() < u32::MAX,
            other matches Value::InstructionResult(id) ==> id
                < self.function.unwrap().instructions.len(),
        ensures
            ({
                let (value, after) = self.pushed(operation, typ);
                &&& self.does(operation, value, after)
                &&& after.value_type(value) == typ
                &&& after.value_type(other) == self.value_type(other)
            }),
    {
        self.pushing_does(operation, typ);
        reveal(Lowering::pushed);
        reveal(Lowering::value_type);
    }

    /// A definition is of the type it has: one that is finished of that of its code, and one of
    /// another item of that it is declared with. The function that is being made has its own.
    pub proof fn law_a_definition_is_of_its_type(self, id: DefinitionId)
        ensures
            self.function matches Some(function) && function.id == id ==> self.value_type(
                Value::Definition(id),
            ) == self.function.unwrap().typ,
            !(self.function matches Some(function) && function.id == id)
                && self.finished.contains_key(id) ==> self.value_type(Value::Definition(id))
                == self.finished[id].typ,
            !(self.function matches Some(function) && function.id == id)
                && !self.finished.contains_key(id) && self.external.contains_key(id)
                ==> self.value_type(Value::Definition(id)) == self.external[id].typ,
    {
        reveal(Lowering::value_type);
    }

    /// A use of a generic definition is made for the types it is used at. It is of the layout of
    /// what the path stands for, but for the release of a handle, which is called with the handle
    /// alone and gives nothing back.
    pub proof fn law_a_release_is_called_with_the_handle_alone(self, path: PathId, id: DefinitionId)
        requires
            self.is_running(),
            self.function.unwrap().instruction_result_types.len()
                == self.function.unwrap().instructions.len() < u32::MAX,
            self.answers.instantiations@.contains_key(path),
        ensures
            ({
                let (value, after) = self.instantiated(path, Value::Definition(id));
                let typ = after.value_type(value);
                let is_release = match self.answers.context@.path_origin(path) {
                    Some(Origin::TopLevelDefinition(name)) => name.local_name_id
                        == RELEASE_FUNCTION,
                    _ => false,
                };
                &&& self.does(
                    Operation::Instantiate(
                        id,
                        self.layouts_of(self.answers.instantiations@[path]@),
                    ),
                    value,
                    after,
                )
                &&& is_release ==> match typ {
                    Type::Function(function) => {
                        &&& function.parameters == Types::of(seq![Type::pointer()])
                        &&& function.return_type == Type::Primitive(PrimitiveType::Unit)
                    },
                    _ => false,
                }
                &&& !is_release ==> typ == self.layout(self.path_type(path))
            }),
    {
        reveal(Lowering::instantiated);
        let operation = Operation::Instantiate(
            id,
            self.layouts_of(self.answers.instantiations@[path]@),
        );
        let typ = if self.is_release_path(path) {
            crate::mir::builder::counted::release_signature()
        } else {
            self.layout(self.path_type(path))
        };
        self.law_a_result_is_of_its_type(operation, typ, Value::Unit);
    }

    /// Something is a symbol of another language if it is declared so, with or without a type
    /// written on it, and nothing else is.
    pub proof fn law_an_annotation_does_not_change_what_is_declared(self, expr: ExprId, depth: nat)
        requires
            depth > 0,
        ensures
            match self.answers.context@.expr(expr) {
                ExprForm::Extern(_) => self.is_extern_expr(expr, depth),
                ExprForm::TypeAnnotation { lhs } => self.is_extern_expr(expr, depth)
                    == self.is_extern_expr(lhs, (depth - 1) as nat),
                _ => !self.is_extern_expr(expr, depth),
            },
    {
        reveal_with_fuel(Lowering::is_extern_expr, 2);
    }
}

/// Two functions differ in their evidence if and only if they differ in their last parameter, and
/// agree in those in front of it and in what they return.
pub proof fn law_evidence_is_the_last_parameter(
    a: FunctionType,
    b: FunctionType,
    front: Seq<Type>,
    last: Type,
)
    requires
        a.parameters.items() == front.push(last),
    ensures
        differ_in_evidence(a, b) ==> exists|other: Type|
            other != last && b.parameters.items() == #[trigger] front.push(other),
        differ_in_evidence(a, b) ==> a.return_type == b.return_type,
        forall|other: Type|
            other != last && b.parameters.items() == #[trigger] front.push(other) && a.return_type
                == b.return_type ==> differ_in_evidence(a, b),
{
    let right = b.parameters.items();
    assert(front.push(last).drop_last() =~= front);
    if differ_in_evidence(a, b) {
        assert(right =~= front.push(right.last()));
    }
    assert forall|other: Type|
        other != last && right == #[trigger] front.push(other) && a.return_type
            == b.return_type implies differ_in_evidence(a, b) by {
        assert(front.push(other).drop_last() =~= front);
        assert(front.push(other)[front.len() as int] == other);
        assert(front.push(last)[front.len() as int] == last);
    }
}

/// An environment grows at its end: what it held stays where it was, and what is added stands
/// behind it, in order.
pub proof fn law_an_environment_grows_at_its_end(environment: Types, added: Seq<Type>)
    ensures
        ({
            let held = environment.items();
            match env_extended(Type::Tuple(Box::new(environment)), added).fields() {
                Some(fields) => {
                    &&& fields.len() == held.len() + added.len()
                    &&& forall|i: int| 0 <= i < held.len() ==> #[trigger] fields[i] == held[i]
                    &&& forall|i: int|
                        0 <= i < added.len() ==> fields[held.len() + i] == #[trigger] added[i]
                },
                None => false,
            }
        }),
{
    Types::law_items_of(environment.items() + added);
}

} // verus!

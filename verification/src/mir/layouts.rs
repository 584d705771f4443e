//! The shapes of layouts.

use crate::mir::{FunctionType, PrimitiveType, Type, Types};
use crate::types::IntegerKind;
use vstd::prelude::*;

verus! {

impl Types {
    /// The layouts of the list, in order.
    pub open spec fn items(self) -> Seq<Type>
        decreases self,
    {
        match self {
            Types::Nil => Seq::empty(),
            Types::Cons(typ, rest) => seq![*typ] + rest.items(),
        }
    }

    /// The list of `types`, in order.
    pub open spec fn of(types: Seq<Type>) -> Types
        decreases types.len(),
    {
        if types.len() == 0 {
            Types::Nil
        } else {
            Types::Cons(Box::new(types[0]), Box::new(Types::of(types.drop_first())))
        }
    }

    /// A list holds what it is made of.
    pub proof fn law_items_of(types: Seq<Type>)
        ensures
            Types::of(types).items() == types,
        decreases types.len(),
    {
        if types.len() > 0 {
            Types::law_items_of(types.drop_first());
            assert(seq![types[0]] + types.drop_first() =~= types);
        } else {
            assert(types =~= Seq::<Type>::empty());
        }
    }

    fn push_onto(&self, types: &mut Vec<Type>)
        ensures
            final(types)@ == old(types)@ + self.items(),
        decreases self,
    {
        match self {
            Types::Nil => {
                assert(types@ =~= old(types)@ + self.items());
            },
            Types::Cons(first, rest) => {
                types.push((**first).clone());
                rest.push_onto(types);
                assert(types@ =~= old(types)@ + self.items());
            },
        }
    }

    /// The layouts of the list, in order.
    pub fn to_vec(&self) -> (types: Vec<Type>)
        ensures
            types@ == self.items(),
    {
        let mut types: Vec<Type> = Vec::new();
        self.push_onto(&mut types);
        assert(types@ =~= self.items());
        types
    }

    /// The list of `types`, in order.
    pub fn from_vec(types: &Vec<Type>) -> (list: Types)
        ensures
            list == Types::of(types@),
    {
        let mut list = Types::Nil;
        let mut i: usize = types.len();
        assert(types@.skip(i as int) =~= Seq::<Type>::empty());
        while i > 0
            invariant
                i <= types.len(),
                list == Types::of(types@.skip(i as int)),
            decreases i,
        {
            i -= 1;
            list = Types::Cons(Box::new(types[i].clone()), Box::new(list));
            assert(types@.skip(i as int).drop_first() =~= types@.skip(i + 1));
        }
        assert(types@.skip(0) =~= types@);
        list
    }
}

/// Copy of a list of layouts.
pub fn copy_types(types: &Vec<Type>) -> (copy: Vec<Type>)
    ensures
        copy@ == types@,
{
    let mut copy: Vec<Type> = Vec::new();
    let mut i: usize = 0;
    while i < types.len()
        invariant
            i <= types.len(),
            copy@ == types@.take(i as int),
        decreases types.len() - i,
    {
        copy.push(types[i].clone());
        assert(copy@ =~= types@.take(i + 1));
        i += 1;
    }
    assert(types@.take(i as int) =~= types@);
    copy
}

impl Type {
    pub open spec fn error() -> Type {
        Type::Primitive(PrimitiveType::Error)
    }

    pub open spec fn unit() -> Type {
        Type::Primitive(PrimitiveType::Unit)
    }

    pub open spec fn boolean() -> Type {
        Type::Primitive(PrimitiveType::Bool)
    }

    pub open spec fn pointer() -> Type {
        Type::Primitive(PrimitiveType::Pointer)
    }

    pub open spec fn no_env() -> Type {
        Type::Primitive(PrimitiveType::NoClosureEnv)
    }

    pub open spec fn tuple(fields: Seq<Type>) -> Type {
        Type::Tuple(Box::new(Types::of(fields)))
    }

    pub open spec fn function(parameters: Seq<Type>, environment: Type, return_type: Type) -> Type {
        Type::Function(
            Box::new(
                FunctionType { parameters: Types::of(parameters), environment, return_type },
            ),
        )
    }

    /// The layout of a string: its data, its count, its length and its offset.
    pub open spec fn string() -> Type {
        let number = Type::Primitive(PrimitiveType::Int(IntegerKind::U32));
        Type::tuple(seq![Type::pointer(), Type::pointer(), number, number])
    }

    /// The layout of a function with an environment.
    pub open spec fn is_closure(self) -> bool {
        match self {
            Type::Function(function) => function.environment != Type::no_env(),
            _ => false,
        }
    }

    /// What a function returns.
    pub open spec fn returned(self) -> Option<Type> {
        match self {
            Type::Function(function) => Some(function.return_type),
            _ => None,
        }
    }

    /// The fields of a tuple.
    pub open spec fn fields(self) -> Option<Seq<Type>> {
        match self {
            Type::Tuple(fields) => Some(fields.items()),
            _ => None,
        }
    }

    /// The union of a tagged union, and its variants.
    pub open spec fn tagged_union(self) -> Option<(Type, Seq<Type>)> {
        match self {
            Type::Tuple(fields) => if fields.items().len() == 2 {
                match fields.items()[1] {
                    Type::Union(variants) => Some((fields.items()[1], variants.items())),
                    _ => None,
                }
            } else {
                None
            },
            _ => None,
        }
    }

    pub fn tuple_of(fields: &Vec<Type>) -> (typ: Type)
        ensures
            typ == Type::tuple(fields@),
    {
        Type::Tuple(Box::new(Types::from_vec(fields)))
    }

    pub fn function_of(parameters: &Vec<Type>, environment: Type, return_type: Type) -> (typ: Type)
        ensures
            typ == Type::function(parameters@, environment, return_type),
    {
        Type::Function(
            Box::new(
                FunctionType {
                    parameters: Types::from_vec(parameters),
                    environment,
                    return_type,
                },
            ),
        )
    }

    pub fn string_layout() -> (typ: Type)
        ensures
            typ == Type::string(),
    {
        let mut fields: Vec<Type> = Vec::new();
        fields.push(Type::Primitive(PrimitiveType::Pointer));
        fields.push(Type::Primitive(PrimitiveType::Pointer));
        fields.push(Type::Primitive(PrimitiveType::Int(IntegerKind::U32)));
        fields.push(Type::Primitive(PrimitiveType::Int(IntegerKind::U32)));
        proof {
            let number = Type::Primitive(PrimitiveType::Int(IntegerKind::U32));
            assert(fields@ =~= seq![Type::pointer(), Type::pointer(), number, number]);
        }
        Type::tuple_of(&fields)
    }

    pub fn has_environment(&self) -> (closure: bool)
        ensures
            closure == self.is_closure(),
    {
        match self {
            Type::Function(function) => match &function.environment {
                Type::Primitive(PrimitiveType::NoClosureEnv) => false,
                _ => true,
            },
            _ => false,
        }
    }

    /// What a function returns.
    pub fn function_return_type(&self) -> (returned: Option<Type>)
        ensures
            returned == self.returned(),
    {
        match self {
            Type::Function(function) => Some(function.return_type.clone()),
            _ => None,
        }
    }

    /// The fields of a tuple.
    pub fn tuple_fields(&self) -> (fields: Option<Vec<Type>>)
        ensures
            match fields {
                Some(fields) => self.fields() == Some(fields@),
                None => self.fields() is None,
            },
    {
        match self {
            Type::Tuple(fields) => Some(fields.to_vec()),
            _ => None,
        }
    }

    /// The union of a tagged union, and its variants.
    pub fn split_tagged_union(&self) -> (union: Option<(Type, Vec<Type>)>)
        ensures
            match union {
                Some((typ, variants)) => self.tagged_union() == Some((typ, variants@)),
                None => self.tagged_union() is None,
            },
    {
        match self {
            Type::Tuple(fields) => {
                let fields = fields.to_vec();
                if fields.len() != 2 {
                    return None;
                }
                match &fields[1] {
                    Type::Union(variants) => Some((fields[1].clone(), variants.to_vec())),
                    _ => None,
                }
            },
            _ => None,
        }
    }
}

} // verus!

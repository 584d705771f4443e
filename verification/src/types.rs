//! Types of the source language, as inference leaves them.

use crate::collections::{map_get, map_len, Key};
use crate::ids::{NameId, Origin, TypeVariableId};
use rustc_hash::FxHashMap;
use vstd::prelude::*;

verus! {

#[derive(Clone, Copy, Debug, PartialEq, Eq, Structural)]
pub enum ReferenceKind {
    Ref,
    Mut,
    Imm,
    Uniq,
}

#[derive(Clone, Copy, Debug, PartialEq, Eq, Structural)]
pub enum IntegerKind {
    I8,
    I16,
    I32,
    I64,
    Isz,
    U8,
    U16,
    U32,
    U64,
    Usz,
}

#[derive(Clone, Copy, Debug, PartialEq, Eq, Structural)]
pub enum FloatKind {
    F32,
    F64,
}

#[derive(Clone, Copy, Debug, PartialEq, Eq, Structural)]
pub enum PrimitiveType {
    Error,
    Unit,
    Bool,
    Pointer,
    Char,
    Never,
    NoClosureEnv,
    Int(IntegerKind),
    Float(FloatKind),
    Reference(ReferenceKind),
}

/// A generic a type may quantify over.
#[derive(Clone, Copy, Debug, PartialEq, Eq, Structural)]
pub enum Generic {
    Named(Origin),
    Inferred(TypeVariableId),
}

#[derive(Debug, Eq)]
pub enum Generics {
    Nil,
    Cons(Generic, Box<Generics>),
}

#[derive(Debug, Eq)]
pub enum TypeList {
    Nil,
    Cons(Box<Type>, Box<TypeList>),
}

/// The parameters of a function: whether each is implicit, and its type.
#[derive(Debug, Eq)]
pub enum Parameters {
    Nil,
    Cons(bool, Box<Type>, Box<Parameters>),
}

#[derive(Debug, Eq)]
pub struct FunctionType {
    pub parameters: Parameters,
    pub environment: Type,
    pub return_type: Type,
    pub effects: Type,
}

#[derive(Debug, Eq)]
pub enum Type {
    Primitive(PrimitiveType),
    Generic(Generic),
    Variable(TypeVariableId),
    Function(Box<FunctionType>),
    Application(Box<Type>, Box<TypeList>),
    UserDefined(Origin),
    Forall(Generics, Box<Type>),
    Tuple(Box<TypeList>),
    /// An effect row: its effects, and the rest it is open in.
    Effects(Box<TypeList>, Option<Box<Type>>),
    U32(u32),
}

/// What each bound type variable stands for.
pub type TypeBindings = FxHashMap<u32, Type>;

impl PartialEq for Generics {
    fn eq(&self, other: &Self) -> (equal: bool)
        decreases self,
    {
        match (self, other) {
            (Generics::Nil, Generics::Nil) => true,
            (Generics::Cons(a, rest), Generics::Cons(b, other_rest)) => *a == *b && **rest
                == **other_rest,
            _ => false,
        }
    }
}

impl vstd::std_specs::cmp::PartialEqSpecImpl for Generics {
    open spec fn obeys_eq_spec() -> bool {
        true
    }

    open spec fn eq_spec(&self, other: &Self) -> bool {
        *self == *other
    }
}

impl PartialEq for TypeList {
    fn eq(&self, other: &Self) -> (equal: bool)
        decreases self,
    {
        match (self, other) {
            (TypeList::Nil, TypeList::Nil) => true,
            (TypeList::Cons(a, rest), TypeList::Cons(b, other_rest)) => **a == **b && **rest
                == **other_rest,
            _ => false,
        }
    }
}

impl vstd::std_specs::cmp::PartialEqSpecImpl for TypeList {
    open spec fn obeys_eq_spec() -> bool {
        true
    }

    open spec fn eq_spec(&self, other: &Self) -> bool {
        *self == *other
    }
}

impl PartialEq for Parameters {
    fn eq(&self, other: &Self) -> (equal: bool)
        decreases self,
    {
        match (self, other) {
            (Parameters::Nil, Parameters::Nil) => true,
            (Parameters::Cons(i, a, rest), Parameters::Cons(j, b, other_rest)) => *i == *j && **a
                == **b && **rest == **other_rest,
            _ => false,
        }
    }
}

impl vstd::std_specs::cmp::PartialEqSpecImpl for Parameters {
    open spec fn obeys_eq_spec() -> bool {
        true
    }

    open spec fn eq_spec(&self, other: &Self) -> bool {
        *self == *other
    }
}

impl PartialEq for FunctionType {
    fn eq(&self, other: &Self) -> (equal: bool)
        decreases self,
    {
        self.parameters == other.parameters && self.environment == other.environment
            && self.return_type == other.return_type && self.effects == other.effects
    }
}

impl vstd::std_specs::cmp::PartialEqSpecImpl for FunctionType {
    open spec fn obeys_eq_spec() -> bool {
        true
    }

    open spec fn eq_spec(&self, other: &Self) -> bool {
        *self == *other
    }
}

impl PartialEq for Type {
    fn eq(&self, other: &Self) -> (equal: bool)
        decreases self,
    {
        match (self, other) {
            (Type::Primitive(a), Type::Primitive(b)) => *a == *b,
            (Type::Generic(a), Type::Generic(b)) => *a == *b,
            (Type::Variable(a), Type::Variable(b)) => *a == *b,
            (Type::Function(a), Type::Function(b)) => **a == **b,
            (Type::Application(a, args), Type::Application(b, other_args)) => **a == **b && **args
                == **other_args,
            (Type::UserDefined(a), Type::UserDefined(b)) => *a == *b,
            (Type::Forall(a, inner), Type::Forall(b, other_inner)) => *a == *b && **inner
                == **other_inner,
            (Type::Tuple(a), Type::Tuple(b)) => **a == **b,
            (Type::Effects(a, rest), Type::Effects(b, other_rest)) => **a == **b && match (
                rest,
                other_rest,
            ) {
                (Some(c), Some(d)) => **c == **d,
                (None, None) => true,
                _ => false,
            },
            (Type::U32(a), Type::U32(b)) => *a == *b,
            _ => false,
        }
    }
}

impl vstd::std_specs::cmp::PartialEqSpecImpl for Type {
    open spec fn obeys_eq_spec() -> bool {
        true
    }

    open spec fn eq_spec(&self, other: &Self) -> bool {
        *self == *other
    }
}

impl Key for Type {
    fn same(&self, other: &Self) -> (equal: bool) {
        *self == *other
    }
}

impl Key for TypeList {
    fn same(&self, other: &Self) -> (equal: bool) {
        *self == *other
    }
}

impl Clone for Generics {
    fn clone(&self) -> (copy: Self)
        ensures
            copy == *self,
        decreases self,
    {
        match self {
            Generics::Nil => Generics::Nil,
            Generics::Cons(generic, rest) => Generics::Cons(*generic, Box::new((**rest).clone())),
        }
    }
}

impl Clone for TypeList {
    fn clone(&self) -> (copy: Self)
        ensures
            copy == *self,
        decreases self,
    {
        match self {
            TypeList::Nil => TypeList::Nil,
            TypeList::Cons(typ, rest) => TypeList::Cons(
                Box::new((**typ).clone()),
                Box::new((**rest).clone()),
            ),
        }
    }
}

impl Clone for Parameters {
    fn clone(&self) -> (copy: Self)
        ensures
            copy == *self,
        decreases self,
    {
        match self {
            Parameters::Nil => Parameters::Nil,
            Parameters::Cons(implicit, typ, rest) => Parameters::Cons(
                *implicit,
                Box::new((**typ).clone()),
                Box::new((**rest).clone()),
            ),
        }
    }
}

impl Clone for FunctionType {
    fn clone(&self) -> (copy: Self)
        ensures
            copy == *self,
        decreases self,
    {
        FunctionType {
            parameters: self.parameters.clone(),
            environment: self.environment.clone(),
            return_type: self.return_type.clone(),
            effects: self.effects.clone(),
        }
    }
}

impl Clone for Type {
    fn clone(&self) -> (copy: Self)
        ensures
            copy == *self,
        decreases self,
    {
        match self {
            Type::Primitive(primitive) => Type::Primitive(*primitive),
            Type::Generic(generic) => Type::Generic(*generic),
            Type::Variable(id) => Type::Variable(*id),
            Type::Function(function) => Type::Function(Box::new((**function).clone())),
            Type::Application(constructor, args) => Type::Application(
                Box::new((**constructor).clone()),
                Box::new((**args).clone()),
            ),
            Type::UserDefined(origin) => Type::UserDefined(*origin),
            Type::Forall(generics, inner) => Type::Forall(
                generics.clone(),
                Box::new((**inner).clone()),
            ),
            Type::Tuple(elements) => Type::Tuple(Box::new((**elements).clone())),
            Type::Effects(effects, rest) => {
                let rest = match rest {
                    Some(rest) => Some(Box::new((**rest).clone())),
                    None => None,
                };
                Type::Effects(Box::new((**effects).clone()), rest)
            },
            Type::U32(value) => Type::U32(*value),
        }
    }
}

impl Generics {
    pub open spec fn items(self) -> Seq<Generic>
        decreases self,
    {
        match self {
            Generics::Nil => Seq::empty(),
            Generics::Cons(generic, rest) => seq![generic] + rest.items(),
        }
    }
}

impl Key for Generics {
    fn same(&self, other: &Self) -> (equal: bool) {
        *self == *other
    }
}

impl Generics {
    /// The list of `generics`, in order.
    pub open spec fn of(generics: Seq<Generic>) -> Generics
        decreases generics.len(),
    {
        if generics.len() == 0 {
            Generics::Nil
        } else {
            Generics::Cons(generics[0], Box::new(Generics::of(generics.drop_first())))
        }
    }

    /// The list of `generics`, in order.
    pub fn from_vec(generics: &Vec<Generic>) -> (list: Generics)
        ensures
            list == Generics::of(generics@),
    {
        let mut list = Generics::Nil;
        let mut i: usize = generics.len();
        assert(generics@.skip(i as int) =~= Seq::<Generic>::empty());
        while i > 0
            invariant
                i <= generics.len(),
                list == Generics::of(generics@.skip(i as int)),
            decreases i,
        {
            i -= 1;
            list = Generics::Cons(generics[i], Box::new(list));
            assert(generics@.skip(i as int).drop_first() =~= generics@.skip(i + 1));
        }
        assert(generics@.skip(0) =~= generics@);
        list
    }

    fn push_onto(&self, generics: &mut Vec<Generic>)
        ensures
            final(generics)@ == old(generics)@ + self.items(),
        decreases self,
    {
        match self {
            Generics::Nil => {
                assert(generics@ =~= old(generics)@ + self.items());
            },
            Generics::Cons(first, rest) => {
                generics.push(*first);
                rest.push_onto(generics);
                assert(generics@ =~= old(generics)@ + self.items());
            },
        }
    }

    /// The generics of the list, in order.
    pub fn to_vec(&self) -> (generics: Vec<Generic>)
        ensures
            generics@ == self.items(),
    {
        let mut generics: Vec<Generic> = Vec::new();
        self.push_onto(&mut generics);
        assert(generics@ =~= self.items());
        generics
    }

    /// The list holding a generic for each of `names`, in order.
    pub open spec fn named(names: Seq<NameId>) -> Generics
        decreases names.len(),
    {
        if names.len() == 0 {
            Generics::Nil
        } else {
            Generics::Cons(
                Generic::Named(Origin::Local(names[0])),
                Box::new(Generics::named(names.drop_first())),
            )
        }
    }

    /// The list holding a generic for each of `names`, in order.
    pub fn from_names(names: &Vec<NameId>) -> (generics: Generics)
        ensures
            generics == Generics::named(names@),
    {
        let mut generics = Generics::Nil;
        let mut i: usize = names.len();
        assert(names@.skip(i as int) =~= Seq::<NameId>::empty());
        while i > 0
            invariant
                i <= names.len(),
                generics == Generics::named(names@.skip(i as int)),
            decreases i,
        {
            i -= 1;
            generics = Generics::Cons(Generic::Named(Origin::Local(names[i])), Box::new(generics));
            assert(names@.skip(i as int).drop_first() =~= names@.skip(i + 1));
        }
        assert(names@.skip(0) =~= names@);
        generics
    }
}

impl Parameters {
    /// The types of the parameters, in order.
    pub open spec fn types(self) -> Seq<Type>
        decreases self,
    {
        match self {
            Parameters::Nil => Seq::empty(),
            Parameters::Cons(_, typ, rest) => seq![*typ] + rest.types(),
        }
    }

    fn push_types_onto(&self, types: &mut Vec<Type>)
        ensures
            final(types)@ == old(types)@ + self.types(),
        decreases self,
    {
        match self {
            Parameters::Nil => {
                assert(types@ =~= old(types)@ + self.types());
            },
            Parameters::Cons(_, typ, rest) => {
                types.push((**typ).clone());
                rest.push_types_onto(types);
                assert(types@ =~= old(types)@ + self.types());
            },
        }
    }

    /// The types of the parameters, in order.
    pub fn list_types(&self) -> (types: Vec<Type>)
        ensures
            types@ == self.types(),
    {
        let mut types: Vec<Type> = Vec::new();
        self.push_types_onto(&mut types);
        assert(types@ =~= self.types());
        types
    }
}

impl TypeList {
    pub open spec fn items(self) -> Seq<Type>
        decreases self,
    {
        match self {
            TypeList::Nil => Seq::empty(),
            TypeList::Cons(typ, rest) => seq![*typ] + rest.items(),
        }
    }

    /// The list holding `types` in order.
    pub open spec fn of(types: Seq<Type>) -> TypeList
        decreases types.len(),
    {
        if types.len() == 0 {
            TypeList::Nil
        } else {
            TypeList::Cons(Box::new(types[0]), Box::new(TypeList::of(types.drop_first())))
        }
    }

    /// The list holding `types` in order.
    pub fn from_vec(types: &Vec<Type>) -> (list: TypeList)
        ensures
            list == TypeList::of(types@),
    {
        let mut list = TypeList::Nil;
        let mut i: usize = types.len();
        assert(types@.skip(i as int) =~= Seq::<Type>::empty());
        while i > 0
            invariant
                i <= types.len(),
                list == TypeList::of(types@.skip(i as int)),
            decreases i,
        {
            i -= 1;
            list = TypeList::Cons(Box::new(types[i].clone()), Box::new(list));
            assert(types@.skip(i as int).drop_first() =~= types@.skip(i + 1));
        }
        assert(types@.skip(0) =~= types@);
        list
    }

    fn push_onto(&self, types: &mut Vec<Type>)
        ensures
            final(types)@ == old(types)@ + self.items(),
        decreases self,
    {
        match self {
            TypeList::Nil => {
                assert(types@ =~= old(types)@ + self.items());
            },
            TypeList::Cons(first, rest) => {
                types.push((**first).clone());
                rest.push_onto(types);
                assert(types@ =~= old(types)@ + self.items());
            },
        }
    }

    /// The types of the list, in order.
    pub fn to_vec(&self) -> (types: Vec<Type>)
        ensures
            types@ == self.items(),
    {
        let mut types: Vec<Type> = Vec::new();
        self.push_onto(&mut types);
        assert(types@ =~= self.items());
        types
    }

    pub open spec fn head(self) -> Option<Type> {
        match self {
            TypeList::Nil => None,
            TypeList::Cons(typ, _) => Some(*typ),
        }
    }

    pub fn first(&self) -> (head: Option<&Type>)
        ensures
            match head {
                Some(typ) => self.head() == Some(*typ),
                None => self.head() is None,
            },
    {
        match self {
            TypeList::Nil => None,
            TypeList::Cons(typ, _) => Some(typ),
        }
    }

    /// The second of exactly two types.
    pub open spec fn second_of_two(self) -> Option<Type> {
        match self {
            TypeList::Cons(_, rest) => match *rest {
                TypeList::Cons(second, end) => if *end is Nil {
                    Some(*second)
                } else {
                    None
                },
                TypeList::Nil => None,
            },
            TypeList::Nil => None,
        }
    }

    pub fn get_second_of_two(&self) -> (second: Option<&Type>)
        ensures
            match second {
                Some(typ) => self.second_of_two() == Some(*typ),
                None => self.second_of_two() is None,
            },
    {
        match self {
            TypeList::Cons(_, rest) => match &**rest {
                TypeList::Cons(second, end) => match &**end {
                    TypeList::Nil => Some(second),
                    _ => None,
                },
                TypeList::Nil => None,
            },
            TypeList::Nil => None,
        }
    }
}

impl Type {
    pub open spec fn unit() -> Type {
        Type::Primitive(PrimitiveType::Unit)
    }

    pub open spec fn error() -> Type {
        Type::Primitive(PrimitiveType::Error)
    }

    /// The list's types behind each other as a `Type::Application` of `constructor`.
    pub open spec fn apply(constructor: Type, argument: Type) -> Type {
        Type::Application(
            Box::new(constructor),
            Box::new(TypeList::Cons(Box::new(argument), Box::new(TypeList::Nil))),
        )
    }

    /// What this type is after at most `steps` bindings of its head are followed.
    pub open spec fn follow_steps(self, bindings: Map<u32, Type>, steps: nat) -> Type
        decreases steps,
    {
        match self {
            Type::Variable(id) => if steps > 0 && bindings.contains_key(id) {
                bindings[id].follow_steps(bindings, (steps - 1) as nat)
            } else {
                self
            },
            _ => self,
        }
    }

    /// This type with the binding of its head followed to the end.
    pub open spec fn followed(self, bindings: Map<u32, Type>) -> Type {
        self.follow_steps(bindings, bindings.len())
    }

    /// This is a variable with a binding to follow.
    pub open spec fn is_bound(self, bindings: Map<u32, Type>) -> bool {
        self matches Type::Variable(id) && bindings.contains_key(id)
    }

    proof fn following_on(self, bindings: Map<u32, Type>, first: nat, more: nat)
        ensures
            self.follow_steps(bindings, first).follow_steps(bindings, more) == self.follow_steps(
                bindings,
                first + more,
            ),
        decreases first,
    {
        match self {
            Type::Variable(id) => {
                if first > 0 && bindings.contains_key(id) {
                    bindings[id].following_on(bindings, (first - 1) as nat, more);
                }
            },
            _ => {},
        }
    }

    /// What is bound in the end was bound all the way.
    proof fn bound_before(self, bindings: Map<u32, Type>, steps: nat, last: nat)
        requires
            steps <= last,
            self.follow_steps(bindings, last).is_bound(bindings),
        ensures
            self.follow_steps(bindings, steps).is_bound(bindings),
    {
        self.following_on(bindings, steps, (last - steps) as nat);
    }

    /// A chain of bindings that comes back to where it was does not end.
    proof fn bound_ever(self, bindings: Map<u32, Type>, first: nat, second: nat, steps: nat)
        requires
            first < second,
            self.follow_steps(bindings, first) == self.follow_steps(bindings, second),
            self.follow_steps(bindings, second).is_bound(bindings),
        ensures
            self.follow_steps(bindings, steps).is_bound(bindings),
        decreases steps,
    {
        if steps <= second {
            self.bound_before(bindings, steps, second);
        } else {
            let rest = (steps - second) as nat;
            self.following_on(bindings, first, rest);
            self.following_on(bindings, second, rest);
            self.bound_ever(bindings, first, second, first + rest);
        }
    }

    /// Following a type leads to its end: what is followed once is not bound, unless the bindings
    /// lead in a circle, where it stays a variable however long it is followed.
    pub proof fn law_following_ends(self, bindings: Map<u32, Type>)
        ensures
            !self.followed(bindings).is_bound(bindings) ==> self.followed(bindings).followed(
                bindings,
            ) == self.followed(bindings),
            self.followed(bindings).is_bound(bindings) ==> self.followed(bindings).followed(
                bindings,
            ).is_bound(bindings),
    {
        if self.followed(bindings).is_bound(bindings) {
            let count = bindings.len();
            let passed = Seq::new(
                count + 1,
                |k: int| self.follow_steps(bindings, k as nat)->Variable_0,
            );
            assert forall|k: int| 0 <= k <= count implies self.follow_steps(
                bindings,
                k as nat,
            ).is_bound(bindings) && bindings.contains_key(#[trigger] passed[k]) by {
                self.bound_before(bindings, k as nat, count);
            }
            broadcast use vstd::set_lib::full_set_properties;

            vstd::set_lib::lemma_len_subset(bindings.dom(), Set::<u32>::full());
            if passed.no_duplicates() {
                passed.unique_seq_to_set();
                assert(passed.to_set().subset_of(bindings.dom()));
                vstd::set_lib::lemma_len_subset(passed.to_set(), bindings.dom());
            }
            let (i, j) = choose|i: int, j: int|
                0 <= i < passed.len() && 0 <= j < passed.len() && i != j && passed[i] == passed[j];
            let (first, second) = if i < j {
                (i as nat, j as nat)
            } else {
                (j as nat, i as nat)
            };
            assert(bindings.contains_key(passed[i]) && bindings.contains_key(passed[j]));
            self.bound_before(bindings, first, count);
            self.bound_before(bindings, second, count);
            self.bound_ever(bindings, first, second, count + count);
            self.following_on(bindings, count, count);
        }
    }

    /// Follow the bindings of the head: as long as this is a bound variable, it is what the
    /// variable is bound to.
    pub fn follow<'a>(&'a self, bindings: &'a TypeBindings) -> (end: &'a Type)
        ensures
            *end == self.followed(bindings@),
    {
        let mut current: &'a Type = self;
        let mut steps: usize = map_len(bindings);
        while steps > 0
            invariant
                current.follow_steps(bindings@, steps as nat) == self.followed(bindings@),
            decreases steps,
        {
            match current {
                Type::Variable(id) => match map_get(bindings, *id) {
                    Some(next) => {
                        current = next;
                        steps -= 1;
                    },
                    None => {
                        return current;
                    },
                },
                _ => {
                    return current;
                },
            }
        }
        current
    }

    /// The kind of reference this constructor makes.
    pub open spec fn reference_kind(self, bindings: Map<u32, Type>) -> Option<ReferenceKind> {
        match self.followed(bindings) {
            Type::Primitive(PrimitiveType::Reference(kind)) => Some(kind),
            _ => None,
        }
    }

    pub fn reference_constructor(&self, bindings: &TypeBindings) -> (kind: Option<ReferenceKind>)
        ensures
            kind == self.reference_kind(bindings@),
    {
        match self.follow(bindings) {
            Type::Primitive(PrimitiveType::Reference(kind)) => Some(*kind),
            _ => None,
        }
    }

    /// What a reference of this type refers to.
    pub open spec fn referent(self, bindings: Map<u32, Type>) -> Option<Type> {
        match self.followed(bindings) {
            Type::Application(constructor, args) => if constructor.reference_kind(bindings) is Some {
                args.second_of_two()
            } else {
                None
            },
            _ => None,
        }
    }

    pub fn reference_element<'a>(&'a self, bindings: &'a TypeBindings) -> (element: Option<&'a Type>)
        ensures
            match element {
                Some(typ) => self.referent(bindings@) == Some(*typ),
                None => self.referent(bindings@) is None,
            },
    {
        match self.follow(bindings) {
            Type::Application(constructor, args) => {
                if constructor.reference_constructor(bindings).is_some() {
                    args.get_second_of_two()
                } else {
                    None
                }
            },
            _ => None,
        }
    }

    /// What a raw pointer of this type points to.
    pub open spec fn pointee(self, bindings: Map<u32, Type>) -> Option<Type> {
        match self.followed(bindings) {
            Type::Application(constructor, args) => if constructor.followed(bindings)
                == Type::Primitive(PrimitiveType::Pointer) {
                args.head()
            } else {
                None
            },
            _ => None,
        }
    }

    pub fn pointer_element<'a>(&'a self, bindings: &'a TypeBindings) -> (element: Option<&'a Type>)
        ensures
            match element {
                Some(typ) => self.pointee(bindings@) == Some(*typ),
                None => self.pointee(bindings@) is None,
            },
    {
        match self.follow(bindings) {
            Type::Application(constructor, args) => match constructor.follow(bindings) {
                Type::Primitive(PrimitiveType::Pointer) => args.first(),
                _ => None,
            },
            _ => None,
        }
    }

    /// This type with every bound variable in it replaced by what it is bound to.
    pub open spec fn substituted(self, bindings: Map<u32, Type>, depth: nat) -> Type
        decreases depth, self,
    {
        if depth == 0 {
            self
        } else {
            let depth = (depth - 1) as nat;
            match self.followed(bindings) {
                Type::Function(function) => Type::Function(
                    Box::new(
                        FunctionType {
                            parameters: function.parameters.substituted(bindings, depth),
                            environment: function.environment.substituted(bindings, depth),
                            return_type: function.return_type.substituted(bindings, depth),
                            effects: function.effects.substituted(bindings, depth),
                        },
                    ),
                ),
                Type::Application(constructor, args) => Type::Application(
                    Box::new(constructor.substituted(bindings, depth)),
                    Box::new(args.substituted(bindings, depth)),
                ),
                Type::Forall(generics, inner) => Type::Forall(
                    generics,
                    Box::new(inner.substituted(bindings, depth)),
                ),
                Type::Tuple(elements) => Type::Tuple(
                    Box::new(elements.substituted(bindings, depth)),
                ),
                Type::Effects(effects, rest) => Type::Effects(
                    Box::new(effects.substituted(bindings, depth)),
                    match rest {
                        Some(rest) => Some(Box::new(rest.substituted(bindings, depth))),
                        None => None,
                    },
                ),
                other => other,
            }
        }
    }

    pub fn substitute(&self, bindings: &TypeBindings, depth: u64) -> (typ: Type)
        ensures
            typ == self.substituted(bindings@, depth as nat),
        decreases depth, self,
    {
        if depth == 0 {
            return self.clone();
        }
        let depth: u64 = depth - 1;
        match self.follow(bindings) {
            Type::Function(function) => Type::Function(
                Box::new(
                    FunctionType {
                        parameters: function.parameters.substitute(bindings, depth),
                        environment: function.environment.substitute(bindings, depth),
                        return_type: function.return_type.substitute(bindings, depth),
                        effects: function.effects.substitute(bindings, depth),
                    },
                ),
            ),
            Type::Application(constructor, args) => Type::Application(
                Box::new(constructor.substitute(bindings, depth)),
                Box::new(args.substitute(bindings, depth)),
            ),
            Type::Forall(generics, inner) => Type::Forall(
                generics.clone(),
                Box::new(inner.substitute(bindings, depth)),
            ),
            Type::Tuple(elements) => Type::Tuple(Box::new(elements.substitute(bindings, depth))),
            Type::Effects(effects, rest) => {
                let rest = match rest {
                    Some(rest) => Some(Box::new(rest.substitute(bindings, depth))),
                    None => None,
                };
                Type::Effects(Box::new(effects.substitute(bindings, depth)), rest)
            },
            other => other.clone(),
        }
    }

    /// The unbound variables and the generics that occur in this type, from left to right.
    pub open spec fn free_in(self, bindings: Map<u32, Type>, depth: nat) -> Seq<Generic>
        decreases depth, self,
    {
        if depth == 0 {
            Seq::empty()
        } else {
            let depth = (depth - 1) as nat;
            match self.followed(bindings) {
                Type::Variable(id) => seq![Generic::Inferred(id)],
                Type::Generic(generic) => seq![generic],
                Type::Function(function) => function.parameters.free_in(bindings, depth)
                    + function.environment.free_in(bindings, depth)
                    + function.return_type.free_in(bindings, depth) + function.effects.free_in(
                    bindings,
                    depth,
                ),
                Type::Application(constructor, args) => constructor.free_in(bindings, depth)
                    + args.free_in(bindings, depth),
                Type::Forall(generics, inner) => inner.free_in(bindings, depth).filter(
                    |generic: Generic| !generics.items().contains(generic),
                ),
                Type::Tuple(elements) => elements.free_in(bindings, depth),
                Type::Effects(effects, rest) => effects.free_in(bindings, depth) + match rest {
                    Some(rest) => rest.free_in(bindings, depth),
                    None => Seq::empty(),
                },
                _ => Seq::empty(),
            }
        }
    }

    pub fn free_variables(&self, bindings: &TypeBindings, depth: u64) -> (free: Vec<Generic>)
        ensures
            free@ == self.free_in(bindings@, depth as nat),
        decreases depth, self,
    {
        if depth == 0 {
            return Vec::new();
        }
        let depth: u64 = depth - 1;
        let mut free: Vec<Generic> = Vec::new();
        match self.follow(bindings) {
            Type::Variable(id) => {
                free.push(Generic::Inferred(*id));
            },
            Type::Generic(generic) => {
                free.push(*generic);
            },
            Type::Function(function) => {
                free = function.parameters.free_variables(bindings, depth);
                let mut more = function.environment.free_variables(bindings, depth);
                free.append(&mut more);
                let mut more = function.return_type.free_variables(bindings, depth);
                free.append(&mut more);
                let mut more = function.effects.free_variables(bindings, depth);
                free.append(&mut more);
            },
            Type::Application(constructor, args) => {
                free = constructor.free_variables(bindings, depth);
                let mut more = args.free_variables(bindings, depth);
                free.append(&mut more);
            },
            Type::Forall(generics, inner) => {
                let inner_free = inner.free_variables(bindings, depth);
                free = generics.without(&inner_free);
            },
            Type::Tuple(elements) => {
                free = elements.free_variables(bindings, depth);
            },
            Type::Effects(effects, rest) => {
                free = effects.free_variables(bindings, depth);
                match rest {
                    Some(rest) => {
                        let mut more = rest.free_variables(bindings, depth);
                        free.append(&mut more);
                    },
                    None => {},
                }
            },
            _ => {},
        }
        assert(free@ =~= self.free_in(bindings@, (depth + 1) as nat));
        free
    }
}

impl Generics {
    fn has(&self, generic: Generic) -> (found: bool)
        ensures
            found == self.items().contains(generic),
        decreases self,
    {
        match self {
            Generics::Nil => false,
            Generics::Cons(first, rest) => {
                let found = *first == generic || rest.has(generic);
                proof {
                    let tail = rest.items();
                    assert(self.items() == seq![*first] + tail);
                    if *first == generic {
                        assert(self.items()[0] == generic);
                    }
                    if tail.contains(generic) {
                        let i = choose|i: int| 0 <= i < tail.len() && tail[i] == generic;
                        assert(self.items()[i + 1] == generic);
                    }
                    if self.items().contains(generic) && *first != generic {
                        let i = choose|i: int|
                            0 <= i < self.items().len() && self.items()[i] == generic;
                        assert(tail[i - 1] == generic);
                    }
                }
                found
            },
        }
    }

    /// The generics of `free` that are not in this list.
    fn without(&self, free: &Vec<Generic>) -> (kept: Vec<Generic>)
        ensures
            kept@ == free@.filter(|generic: Generic| !self.items().contains(generic)),
    {
        let ghost keep = |generic: Generic| !self.items().contains(generic);
        let mut kept: Vec<Generic> = Vec::new();
        let mut i: usize = 0;
        proof {
            assert(free@.take(0) =~= Seq::<Generic>::empty());
            reveal(Seq::filter);
        }
        while i < free.len()
            invariant
                i <= free.len(),
                keep == (|generic: Generic| !self.items().contains(generic)),
                kept@ == free@.take(i as int).filter(keep),
            decreases free.len() - i,
        {
            if !self.has(free[i]) {
                kept.push(free[i]);
            }
            proof {
                assert(free@.take(i + 1).drop_last() =~= free@.take(i as int));
                reveal(Seq::filter);
            }
            i += 1;
        }
        assert(free@.take(i as int) =~= free@);
        kept
    }
}

impl TypeList {
    pub open spec fn substituted(self, bindings: Map<u32, Type>, depth: nat) -> TypeList
        decreases depth, self,
    {
        match self {
            TypeList::Nil => TypeList::Nil,
            TypeList::Cons(typ, rest) => TypeList::Cons(
                Box::new(typ.substituted(bindings, depth)),
                Box::new(rest.substituted(bindings, depth)),
            ),
        }
    }

    pub fn substitute(&self, bindings: &TypeBindings, depth: u64) -> (list: TypeList)
        ensures
            list == self.substituted(bindings@, depth as nat),
        decreases depth, self,
    {
        match self {
            TypeList::Nil => TypeList::Nil,
            TypeList::Cons(typ, rest) => TypeList::Cons(
                Box::new(typ.substitute(bindings, depth)),
                Box::new(rest.substitute(bindings, depth)),
            ),
        }
    }

    pub open spec fn free_in(self, bindings: Map<u32, Type>, depth: nat) -> Seq<Generic>
        decreases depth, self,
    {
        match self {
            TypeList::Nil => Seq::empty(),
            TypeList::Cons(typ, rest) => typ.free_in(bindings, depth) + rest.free_in(
                bindings,
                depth,
            ),
        }
    }

    pub fn free_variables(&self, bindings: &TypeBindings, depth: u64) -> (free: Vec<Generic>)
        ensures
            free@ == self.free_in(bindings@, depth as nat),
        decreases depth, self,
    {
        match self {
            TypeList::Nil => Vec::new(),
            TypeList::Cons(typ, rest) => {
                let mut free = typ.free_variables(bindings, depth);
                let mut more = rest.free_variables(bindings, depth);
                free.append(&mut more);
                free
            },
        }
    }
}

impl Parameters {
    pub open spec fn substituted(self, bindings: Map<u32, Type>, depth: nat) -> Parameters
        decreases depth, self,
    {
        match self {
            Parameters::Nil => Parameters::Nil,
            Parameters::Cons(implicit, typ, rest) => Parameters::Cons(
                implicit,
                Box::new(typ.substituted(bindings, depth)),
                Box::new(rest.substituted(bindings, depth)),
            ),
        }
    }

    pub fn substitute(&self, bindings: &TypeBindings, depth: u64) -> (parameters: Parameters)
        ensures
            parameters == self.substituted(bindings@, depth as nat),
        decreases depth, self,
    {
        match self {
            Parameters::Nil => Parameters::Nil,
            Parameters::Cons(implicit, typ, rest) => Parameters::Cons(
                *implicit,
                Box::new(typ.substitute(bindings, depth)),
                Box::new(rest.substitute(bindings, depth)),
            ),
        }
    }

    pub open spec fn free_in(self, bindings: Map<u32, Type>, depth: nat) -> Seq<Generic>
        decreases depth, self,
    {
        match self {
            Parameters::Nil => Seq::empty(),
            Parameters::Cons(_, typ, rest) => typ.free_in(bindings, depth) + rest.free_in(
                bindings,
                depth,
            ),
        }
    }

    pub fn free_variables(&self, bindings: &TypeBindings, depth: u64) -> (free: Vec<Generic>)
        ensures
            free@ == self.free_in(bindings@, depth as nat),
        decreases depth, self,
    {
        match self {
            Parameters::Nil => Vec::new(),
            Parameters::Cons(_, typ, rest) => {
                let mut free = typ.free_variables(bindings, depth);
                let mut more = rest.free_variables(bindings, depth);
                free.append(&mut more);
                free
            },
        }
    }
}

impl Type {
    /// This type with `choice` in place of its generics and type variables.
    pub open spec fn instance(self, choice: spec_fn(Generic) -> Type) -> Type
        decreases self,
    {
        match self {
            Type::Generic(generic) => choice(generic),
            Type::Variable(id) => choice(Generic::Inferred(id)),
            Type::Function(function) => Type::Function(Box::new(function.instance(choice))),
            Type::Application(constructor, args) => Type::Application(
                Box::new(constructor.instance(choice)),
                Box::new(args.instance(choice)),
            ),
            Type::Forall(generics, inner) => Type::Forall(
                generics,
                Box::new(inner.instance(choice)),
            ),
            Type::Tuple(elements) => Type::Tuple(Box::new(elements.instance(choice))),
            Type::Effects(effects, rest) => Type::Effects(
                Box::new(effects.instance(choice)),
                match rest {
                    Some(rest) => Some(Box::new(rest.instance(choice))),
                    None => None,
                },
            ),
            other => other,
        }
    }
}

impl FunctionType {
    pub open spec fn instance(self, choice: spec_fn(Generic) -> Type) -> FunctionType
        decreases self,
    {
        FunctionType {
            parameters: self.parameters.instance(choice),
            environment: self.environment.instance(choice),
            return_type: self.return_type.instance(choice),
            effects: self.effects.instance(choice),
        }
    }
}

impl TypeList {
    pub open spec fn instance(self, choice: spec_fn(Generic) -> Type) -> TypeList
        decreases self,
    {
        match self {
            TypeList::Nil => TypeList::Nil,
            TypeList::Cons(typ, rest) => TypeList::Cons(
                Box::new(typ.instance(choice)),
                Box::new(rest.instance(choice)),
            ),
        }
    }
}

impl Parameters {
    pub open spec fn instance(self, choice: spec_fn(Generic) -> Type) -> Parameters
        decreases self,
    {
        match self {
            Parameters::Nil => Parameters::Nil,
            Parameters::Cons(implicit, typ, rest) => Parameters::Cons(
                implicit,
                Box::new(typ.instance(choice)),
                Box::new(rest.instance(choice)),
            ),
        }
    }
}

} // verus!

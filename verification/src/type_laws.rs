//! What holds of types: what occurs in them, and what becomes of them where variables are bound.

#[allow(unused_imports)]
use crate::types::{
    FunctionType, Generic, Generics, Parameters, PrimitiveType, ReferenceKind, Type, TypeList,
};
use vstd::prelude::*;

verus! {

proof fn joining_lists(first: Seq<Generic>, second: Seq<Generic>, generic: Generic)
    ensures
        (first + second).contains(generic) <==> first.contains(generic) || second.contains(generic),
{
    let all = first + second;
    if first.contains(generic) {
        let i = choose|i: int| 0 <= i < first.len() && first[i] == generic;
        assert(all[i] == generic);
    }
    if second.contains(generic) {
        let i = choose|i: int| 0 <= i < second.len() && second[i] == generic;
        assert(all[first.len() + i] == generic);
    }
    if all.contains(generic) {
        let i = choose|i: int| 0 <= i < all.len() && all[i] == generic;
        if i < first.len() {
            assert(first[i] == generic);
        } else {
            assert(second[i - first.len()] == generic);
        }
    }
}

proof fn filtering_lists(list: Seq<Generic>, keep: spec_fn(Generic) -> bool, generic: Generic)
    ensures
        list.filter(keep).contains(generic) <==> list.contains(generic) && keep(generic),
    decreases list.len(),
{
    reveal(Seq::filter);
    if list.len() > 0 {
        let before = list.drop_last();
        filtering_lists(before, keep, generic);
        assert(list =~= before + seq![list.last()]);
        joining_lists(before, seq![list.last()], generic);
        assert(seq![list.last()].contains(generic) <==> list.last() == generic) by {
            if list.last() == generic {
                assert(seq![list.last()][0] == generic);
            }
        }
        if keep(list.last()) {
            assert(list.filter(keep) =~= before.filter(keep) + seq![list.last()]);
            joining_lists(before.filter(keep), seq![list.last()], generic);
        }
    }
}

proof fn a_lone_generic(own: Generic, generic: Generic)
    ensures
        seq![own].contains(generic) <==> own == generic,
{
    if own == generic {
        assert(seq![own][0] == generic);
    }
}

impl Type {
    /// The generic, or the variable that it stands for, occurs free in what this type is where
    /// variables are bound, as far as `depth` levels show.
    pub open spec fn has_free(self, bindings: Map<u32, Type>, generic: Generic, depth: nat) -> bool
        decreases depth, self,
    {
        depth > 0 && match self.followed(bindings) {
            Type::Variable(id) => generic == Generic::Inferred(id),
            Type::Generic(own) => generic == own,
            Type::Function(function) => {
                ||| function.parameters.have_free(bindings, generic, (depth - 1) as nat)
                ||| function.environment.has_free(bindings, generic, (depth - 1) as nat)
                ||| function.return_type.has_free(bindings, generic, (depth - 1) as nat)
                ||| function.effects.has_free(bindings, generic, (depth - 1) as nat)
            },
            Type::Application(constructor, args) => {
                ||| constructor.has_free(bindings, generic, (depth - 1) as nat)
                ||| args.have_free(bindings, generic, (depth - 1) as nat)
            },
            Type::Forall(generics, inner) => {
                &&& inner.has_free(bindings, generic, (depth - 1) as nat)
                &&& !generics.items().contains(generic)
            },
            Type::Tuple(elements) => elements.have_free(bindings, generic, (depth - 1) as nat),
            Type::Effects(effects, rest) => {
                ||| effects.have_free(bindings, generic, (depth - 1) as nat)
                ||| rest is Some && rest->0.has_free(bindings, generic, (depth - 1) as nat)
            },
            _ => false,
        }
    }

    /// What is listed as free in a type is what occurs free in it.
    pub proof fn law_what_is_free_occurs(
        self,
        bindings: Map<u32, Type>,
        generic: Generic,
        depth: nat,
    )
        ensures
            self.free_in(bindings, depth).contains(generic) <==> self.has_free(
                bindings,
                generic,
                depth,
            ),
        decreases depth, self,
    {
        if depth > 0 {
            let inner = (depth - 1) as nat;
            match self.followed(bindings) {
                Type::Variable(id) => {
                    a_lone_generic(Generic::Inferred(id), generic);
                },
                Type::Generic(own) => {
                    a_lone_generic(own, generic);
                },
                Type::Function(function) => {
                    function.parameters.free_parameters_occur(bindings, generic, inner);
                    function.environment.law_what_is_free_occurs(bindings, generic, inner);
                    function.return_type.law_what_is_free_occurs(bindings, generic, inner);
                    function.effects.law_what_is_free_occurs(bindings, generic, inner);
                    let one = function.parameters.free_in(bindings, inner);
                    let two = function.environment.free_in(bindings, inner);
                    let three = function.return_type.free_in(bindings, inner);
                    let four = function.effects.free_in(bindings, inner);
                    joining_lists(one, two, generic);
                    joining_lists(one + two, three, generic);
                    joining_lists(one + two + three, four, generic);
                },
                Type::Application(constructor, args) => {
                    constructor.law_what_is_free_occurs(bindings, generic, inner);
                    args.free_types_occur(bindings, generic, inner);
                    joining_lists(
                        constructor.free_in(bindings, inner),
                        args.free_in(bindings, inner),
                        generic,
                    );
                },
                Type::Forall(generics, own) => {
                    own.law_what_is_free_occurs(bindings, generic, inner);
                    let keep = |generic: Generic| !generics.items().contains(generic);
                    filtering_lists(own.free_in(bindings, inner), keep, generic);
                },
                Type::Tuple(elements) => {
                    elements.free_types_occur(bindings, generic, inner);
                },
                Type::Effects(effects, rest) => {
                    effects.free_types_occur(bindings, generic, inner);
                    let last = match rest {
                        Some(rest) => {
                            rest.law_what_is_free_occurs(bindings, generic, inner);
                            rest.free_in(bindings, inner)
                        },
                        None => Seq::empty(),
                    };
                    joining_lists(effects.free_in(bindings, inner), last, generic);
                },
                _ => {},
            }
        }
    }
}

impl TypeList {
    /// The generic occurs free in one of the types.
    pub open spec fn have_free(self, bindings: Map<u32, Type>, generic: Generic, depth: nat) -> bool
        decreases depth, self,
    {
        match self {
            TypeList::Nil => false,
            TypeList::Cons(typ, rest) => typ.has_free(bindings, generic, depth) || rest.have_free(
                bindings,
                generic,
                depth,
            ),
        }
    }

    proof fn free_types_occur(self, bindings: Map<u32, Type>, generic: Generic, depth: nat)
        ensures
            self.free_in(bindings, depth).contains(generic) <==> self.have_free(
                bindings,
                generic,
                depth,
            ),
        decreases depth, self,
    {
        match self {
            TypeList::Nil => {},
            TypeList::Cons(typ, rest) => {
                typ.law_what_is_free_occurs(bindings, generic, depth);
                rest.free_types_occur(bindings, generic, depth);
                joining_lists(
                    typ.free_in(bindings, depth),
                    rest.free_in(bindings, depth),
                    generic,
                );
            },
        }
    }
}

impl Parameters {
    /// The generic occurs free in the type of one of the parameters.
    pub open spec fn have_free(self, bindings: Map<u32, Type>, generic: Generic, depth: nat) -> bool
        decreases depth, self,
    {
        match self {
            Parameters::Nil => false,
            Parameters::Cons(_, typ, rest) => typ.has_free(bindings, generic, depth)
                || rest.have_free(bindings, generic, depth),
        }
    }

    proof fn free_parameters_occur(self, bindings: Map<u32, Type>, generic: Generic, depth: nat)
        ensures
            self.free_in(bindings, depth).contains(generic) <==> self.have_free(
                bindings,
                generic,
                depth,
            ),
        decreases depth, self,
    {
        match self {
            Parameters::Nil => {},
            Parameters::Cons(_, typ, rest) => {
                typ.law_what_is_free_occurs(bindings, generic, depth);
                rest.free_parameters_occur(bindings, generic, depth);
                joining_lists(
                    typ.free_in(bindings, depth),
                    rest.free_in(bindings, depth),
                    generic,
                );
            },
        }
    }
}

impl Type {
    /// Where nothing is bound, a type stays as it is.
    pub proof fn law_without_bindings_a_type_stays(self, depth: nat)
        ensures
            self.substituted(Map::empty(), depth) == self,
            self.followed(Map::empty()) == self,
        decreases depth, self,
    {
        assert(Map::<u32, Type>::empty().len() == 0);
        assert(self.followed(Map::empty()) == self);
        if depth > 0 {
            let inner = (depth - 1) as nat;
            match self {
                Type::Function(function) => {
                    function.parameters.unbound_parameters_stay(inner);
                    function.environment.law_without_bindings_a_type_stays(inner);
                    function.return_type.law_without_bindings_a_type_stays(inner);
                    function.effects.law_without_bindings_a_type_stays(inner);
                },
                Type::Application(constructor, args) => {
                    constructor.law_without_bindings_a_type_stays(inner);
                    args.unbound_types_stay(inner);
                },
                Type::Forall(_, own) => {
                    own.law_without_bindings_a_type_stays(inner);
                },
                Type::Tuple(elements) => {
                    elements.unbound_types_stay(inner);
                },
                Type::Effects(effects, rest) => {
                    effects.unbound_types_stay(inner);
                    match rest {
                        Some(rest) => {
                            rest.law_without_bindings_a_type_stays(inner);
                        },
                        None => {},
                    }
                },
                _ => {},
            }
        }
    }

    /// A variable that is bound becomes what it is bound to, wherever it stands: in what is
    /// applied and what it is applied to, in each element, parameter, environment, result and
    /// effect. What else a type is made of stays.
    pub proof fn law_each_part_is_substituted(self, bindings: Map<u32, Type>, depth: nat)
        ensures
            ({
                let whole = self.substituted(bindings, depth + 1);
                match self.followed(bindings) {
                    Type::Application(constructor, args) => {
                        whole matches Type::Application(after, list) && *after
                            == constructor.substituted(bindings, depth) && list.items()
                            == args.items().map_values(
                            |typ: Type| typ.substituted(bindings, depth),
                        )
                    },
                    Type::Tuple(elements) => {
                        whole matches Type::Tuple(list) && list.items()
                            == elements.items().map_values(
                            |typ: Type| typ.substituted(bindings, depth),
                        )
                    },
                    Type::Function(function) => {
                        whole matches Type::Function(after) && {
                            &&& after.parameters.types() == function.parameters.types().map_values(
                                |typ: Type| typ.substituted(bindings, depth),
                            )
                            &&& after.parameters.implicits() == function.parameters.implicits()
                            &&& after.environment == function.environment.substituted(
                                bindings,
                                depth,
                            )
                            &&& after.return_type == function.return_type.substituted(
                                bindings,
                                depth,
                            )
                            &&& after.effects == function.effects.substituted(bindings, depth)
                        }
                    },
                    Type::Forall(generics, inner) => {
                        whole matches Type::Forall(names, after) && names == generics && *after
                            == inner.substituted(bindings, depth)
                    },
                    Type::Effects(effects, rest) => {
                        whole matches Type::Effects(list, last) && {
                            &&& list.items() == effects.items().map_values(
                                |typ: Type| typ.substituted(bindings, depth),
                            )
                            &&& last is Some <==> rest is Some
                            &&& last is Some ==> *last->0 == rest->0.substituted(bindings, depth)
                        }
                    },
                    other => whole == other,
                }
            }),
    {
        match self.followed(bindings) {
            Type::Application(_, args) => {
                args.each_type_is_substituted(bindings, depth);
            },
            Type::Tuple(elements) => {
                elements.each_type_is_substituted(bindings, depth);
            },
            Type::Function(function) => {
                function.parameters.each_parameter_is_substituted(bindings, depth);
            },
            Type::Effects(effects, _) => {
                effects.each_type_is_substituted(bindings, depth);
            },
            _ => {},
        }
    }

    /// A variable is followed to what it is bound to, if that is no variable with a binding of its
    /// own. Anything else stands for itself.
    pub proof fn law_a_variable_is_what_it_is_bound_to(self, bindings: Map<u32, Type>)
        requires
            bindings.dom().finite(),
        ensures
            !self.is_bound(bindings) ==> self.followed(bindings) == self,
            self matches Type::Variable(id) ==> bindings.contains_key(id)
                && !bindings[id].is_bound(bindings) ==> self.followed(bindings) == bindings[id],
    {
        reveal_with_fuel(Type::follow_steps, 3);
        match self {
            Type::Variable(id) => {
                if bindings.contains_key(id) {
                    assert(bindings.dom().contains(id));
                    assert(bindings.len() > 0) by {
                        if bindings.dom().len() == 0 {
                            assert(bindings.dom() =~= Set::empty());
                        }
                    }
                }
            },
            _ => {},
        }
    }

    /// A reference is one of a kind, applied to a lifetime and to what it refers to; a raw pointer
    /// is applied to what it points to. Nothing else refers or points to anything, and nothing does
    /// both.
    pub proof fn law_references_and_pointers(self, bindings: Map<u32, Type>, element: Type)
        ensures
            self.referent(bindings) == Some(element) <==> match self.followed(bindings) {
                Type::Application(constructor, args) => match constructor.followed(bindings) {
                    Type::Primitive(PrimitiveType::Reference(_)) => args.items().len() == 2
                        && args.items()[1] == element,
                    _ => false,
                },
                _ => false,
            },
            self.pointee(bindings) == Some(element) <==> match self.followed(bindings) {
                Type::Application(constructor, args) => constructor.followed(bindings)
                    == Type::Primitive(PrimitiveType::Pointer) && args.items().len() > 0
                    && args.items()[0] == element,
                _ => false,
            },
            self.referent(bindings) is None || self.pointee(bindings) is None,
    {
        match self.followed(bindings) {
            Type::Application(_, args) => {
                args.two_items();
            },
            _ => {},
        }
    }
}

impl TypeList {
    proof fn two_items(self)
        ensures
            self.head() == if self.items().len() > 0 {
                Some(self.items()[0])
            } else {
                None
            },
            self.second_of_two() == if self.items().len() == 2 {
                Some(self.items()[1])
            } else {
                None
            },
    {
        reveal_with_fuel(TypeList::items, 4);
        match self {
            TypeList::Nil => {},
            TypeList::Cons(first, rest) => {
                assert(self.items()[0] == *first);
                match *rest {
                    TypeList::Nil => {},
                    TypeList::Cons(second, end) => {
                        assert(self.items()[1] == rest.items()[0]);
                        assert(rest.items()[0] == *second);
                        match *end {
                            TypeList::Nil => {},
                            TypeList::Cons(_, more) => {
                                assert(end.items().len() == 1 + more.items().len());
                            },
                        }
                    },
                }
            },
        }
    }

    proof fn unbound_types_stay(self, depth: nat)
        ensures
            self.substituted(Map::empty(), depth) == self,
        decreases depth, self,
    {
        match self {
            TypeList::Nil => {},
            TypeList::Cons(typ, rest) => {
                typ.law_without_bindings_a_type_stays(depth);
                rest.unbound_types_stay(depth);
            },
        }
    }

    proof fn each_type_is_substituted(self, bindings: Map<u32, Type>, depth: nat)
        ensures
            self.substituted(bindings, depth).items() == self.items().map_values(
                |typ: Type| typ.substituted(bindings, depth),
            ),
        decreases self,
    {
        let each = |typ: Type| typ.substituted(bindings, depth);
        match self {
            TypeList::Nil => {
                assert(self.items().map_values(each) =~= Seq::<Type>::empty());
            },
            TypeList::Cons(typ, rest) => {
                rest.each_type_is_substituted(bindings, depth);
                assert(self.items().map_values(each) =~= seq![typ.substituted(bindings, depth)]
                    + rest.items().map_values(each));
            },
        }
    }

    /// A list that is made of types holds them, and a list is the one made of what it holds.
    pub proof fn law_a_list_is_what_it_holds(self, types: Seq<Type>)
        ensures
            TypeList::of(types).items() == types,
            TypeList::of(self.items()) == self,
        decreases self, types.len(),
    {
        if types.len() > 0 {
            TypeList::Nil.list_holds(types);
        } else {
            assert(types =~= Seq::<Type>::empty());
        }
        match self {
            TypeList::Nil => {},
            TypeList::Cons(typ, rest) => {
                rest.law_a_list_is_what_it_holds(Seq::empty());
                assert(self.items().drop_first() =~= rest.items());
                assert(self.items()[0] == *typ);
            },
        }
    }

    proof fn list_holds(self, types: Seq<Type>)
        ensures
            TypeList::of(types).items() == types,
        decreases types.len(),
    {
        if types.len() > 0 {
            self.list_holds(types.drop_first());
            assert(seq![types[0]] + types.drop_first() =~= types);
        } else {
            assert(types =~= Seq::<Type>::empty());
        }
    }
}

impl Parameters {
    /// Which of the parameters are implicit, in order.
    pub open spec fn implicits(self) -> Seq<bool>
        decreases self,
    {
        match self {
            Parameters::Nil => Seq::empty(),
            Parameters::Cons(implicit, _, rest) => seq![implicit] + rest.implicits(),
        }
    }

    proof fn unbound_parameters_stay(self, depth: nat)
        ensures
            self.substituted(Map::empty(), depth) == self,
        decreases depth, self,
    {
        match self {
            Parameters::Nil => {},
            Parameters::Cons(_, typ, rest) => {
                typ.law_without_bindings_a_type_stays(depth);
                rest.unbound_parameters_stay(depth);
            },
        }
    }

    proof fn each_parameter_is_substituted(self, bindings: Map<u32, Type>, depth: nat)
        ensures
            self.substituted(bindings, depth).types() == self.types().map_values(
                |typ: Type| typ.substituted(bindings, depth),
            ),
            self.substituted(bindings, depth).implicits() == self.implicits(),
        decreases self,
    {
        let each = |typ: Type| typ.substituted(bindings, depth);
        match self {
            Parameters::Nil => {
                assert(self.types().map_values(each) =~= Seq::<Type>::empty());
            },
            Parameters::Cons(_, typ, rest) => {
                rest.each_parameter_is_substituted(bindings, depth);
                assert(self.types().map_values(each) =~= seq![typ.substituted(bindings, depth)]
                    + rest.types().map_values(each));
            },
        }
    }
}

} // verus!

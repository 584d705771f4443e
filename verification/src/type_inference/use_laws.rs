//! What holds of uses of moved values, and of which types are `Copy`.

#[allow(unused_imports)]
use crate::collections::lookup;
#[allow(unused_imports)]
use crate::ids::{Location, NameId, Origin, TopLevelName, NESTING_LIMIT};
#[allow(unused_imports)]
use crate::type_inference::affine::{ability_applied, Cache};
#[allow(unused_imports)]
use crate::type_inference::checker::{RepeatedContext, Report, State};
#[allow(unused_imports)]
use crate::type_inference::moves::{is_under, MovePath, Moves, Place};
#[allow(unused_imports)]
use crate::types::{PrimitiveType, Type};
use vstd::prelude::*;

verus! {

/// The place that the first `length` fields of `place` lead to.
pub open spec fn shortened(place: Place, length: int) -> Place {
    (place.0, place.1.take(length))
}

impl Moves {
    /// A place counts as moved if and only if it was, or something it lies in was, and it counts as
    /// moved where the innermost of these was moved.
    pub proof fn law_a_place_is_moved_with_what_it_lies_in(self, place: Place)
        ensures
            self.moved_at(place) is None <==> forall|length: int|
                0 <= length <= place.1.len() ==> !self.moved.contains_key(
                    #[trigger] shortened(place, length),
                ),
            self.moved_at(place) is Some ==> exists|length: int|
                {
                    &&& 0 <= length <= place.1.len()
                    &&& self.moved.contains_key(#[trigger] shortened(place, length))
                    &&& self.moved_at(place) == Some(self.moved[shortened(place, length)])
                    &&& forall|longer: int|
                        length < longer <= place.1.len() ==> !self.moved.contains_key(
                            #[trigger] shortened(place, longer),
                        )
                },
        decreases place.1.len(),
    {
        let count = place.1.len() as int;
        assert(shortened(place, count).1 =~= place.1);
        assert(shortened(place, count) == place);
        if self.moved.contains_key(place) {
            assert(self.moved.contains_key(shortened(place, count)));
        } else if count > 0 {
            let parent = (place.0, place.1.drop_last());
            self.law_a_place_is_moved_with_what_it_lies_in(parent);
            assert forall|length: int| 0 <= length < count implies #[trigger] shortened(
                place,
                length,
            ) == shortened(parent, length) by {
                assert(place.1.take(length) =~= parent.1.take(length));
            }
            if self.moved_at(parent) is Some {
                let length = choose|length: int|
                    {
                        &&& 0 <= length <= parent.1.len()
                        &&& self.moved.contains_key(#[trigger] shortened(parent, length))
                        &&& self.moved_at(parent) == Some(self.moved[shortened(parent, length)])
                        &&& forall|longer: int|
                            length < longer <= parent.1.len() ==> !self.moved.contains_key(
                                #[trigger] shortened(parent, longer),
                            )
                    };
                assert(self.moved.contains_key(shortened(place, length)));
                assert forall|longer: int|
                    length < longer <= place.1.len() implies !self.moved.contains_key(
                    #[trigger] shortened(place, longer),
                ) by {
                    if longer < count {
                        assert(shortened(place, longer) == shortened(parent, longer));
                    }
                }
            } else {
                assert forall|length: int|
                    0 <= length <= place.1.len() implies !self.moved.contains_key(
                    #[trigger] shortened(place, length),
                ) by {
                    if length < count {
                        assert(shortened(place, length) == shortened(parent, length));
                    }
                }
            }
        }
    }
}

impl State {
    /// The value, or something it lies in or that lies in it, was moved.
    pub open spec fn is_not_whole(self, place: Place) -> bool {
        ||| exists|length: int|
            0 <= length <= place.1.len() && self.moves.moved.contains_key(
                #[trigger] shortened(place, length),
            )
        ||| exists|part: Place| #[trigger]
            self.moves.moved.contains_key(part) && is_under(part, place)
    }

    /// A use is reported if and only if the value is not whole any more, nothing was reported of it
    /// yet, and it is not `Copy` where values are dropped automatically. The one report names where
    /// it is used, and where it, what it lies in or a part of it was moved.
    pub proof fn law_the_use_of_a_moved_value_is_reported(
        self,
        place: Place,
        location: Location,
        after: State,
    )
        requires
            self.use_checked(place, location, after),
        ensures
            ({
                let known = self.name_types.contains_key(place.0);
                let copied = self.facts.database.auto_drop && known && self.is_copy(
                    self.name_types[place.0],
                );
                let reported = !self.moves.errored.contains(place) && !copied
                    && self.is_not_whole(place);
                &&& !reported ==> after.diagnostics == self.diagnostics && after.moves == self.moves
                &&& reported ==> {
                    &&& after.diagnostics.len() == self.diagnostics.len() + 1
                    &&& after.diagnostics.drop_last() == self.diagnostics
                    &&& after.diagnostics.last() matches Report::UseOfMovedValue {
                        location: used,
                        moved_in,
                        ..
                    } && used == location && exists|moved: Place| #[trigger]
                        self.moves.moved.contains_key(moved) && self.moves.moved[moved] == moved_in
                            && (moved == place || is_under(place, moved) || is_under(moved, place))
                    &&& after.moves.errored == self.moves.errored.insert(place)
                    &&& after.moves.moved == self.moves.moved
                }
            }),
    {
        self.moves.law_a_place_is_moved_with_what_it_lies_in(place);
        let asked = self.use_asked(place);
        if after.diagnostics.len() > self.diagnostics.len() {
            assert(after.diagnostics.drop_last() =~= self.diagnostics);
        }
        match self.moves.moved_at(place) {
            Some(moved_in) => {
                let length = choose|length: int|
                    {
                        &&& 0 <= length <= place.1.len()
                        &&& self.moves.moved.contains_key(#[trigger] shortened(place, length))
                        &&& self.moves.moved_at(place) == Some(
                            self.moves.moved[shortened(place, length)],
                        )
                        &&& forall|longer: int|
                            length < longer <= place.1.len() ==> !self.moves.moved.contains_key(
                                #[trigger] shortened(place, longer),
                            )
                    };
                let moved = shortened(place, length);
                assert(self.moves.moved.contains_key(moved));
                if length == place.1.len() {
                    assert(moved.1 =~= place.1);
                } else {
                    assert(is_under(place, moved));
                }
            },
            None => {},
        }
    }

    /// Of the moves of outer places in what may run again, each that is not `Copy` is reported where
    /// it is, in turn. Gives the state in which it was asked whether it is.
    pub proof fn law_a_move_that_may_repeat_is_reported(
        self,
        order: Seq<(Place, Location)>,
        context: RepeatedContext,
        count: int,
    ) -> (asked: State)
        requires
            0 < count <= order.len(),
        ensures
            ({
                let before = self.repeated_moves(order, context, count - 1);
                let after = self.repeated_moves(order, context, count);
                let (place, location) = order[count - 1];
                &&& asked == before
                &&& if asked.is_copy(asked.type_of_name(place.0)) {
                    after.diagnostics == before.diagnostics
                } else {
                    &&& after.diagnostics.len() == before.diagnostics.len() + 1
                    &&& after.diagnostics.drop_last() == before.diagnostics
                    &&& after.diagnostics.last() matches Report::MoveInRepeatedContext {
                        context: within,
                        location: at,
                        ..
                    } && within == context && at == location
                }
                &&& after.moves == before.moves
            }),
    {
        let before = self.repeated_moves(order, context, count - 1);
        let after = self.repeated_moves(order, context, count);
        if after.diagnostics.len() > before.diagnostics.len() {
            assert(after.diagnostics.drop_last() =~= before.diagnostics);
        }
        before
    }

    /// Plain values and functions are `Copy`, and so are handles to shared cells and capabilities.
    /// Where values are dropped automatically, a variable that stands for a number is, and one that
    /// an implicit bounds; a generic of the signature without such a bound is not.
    pub proof fn law_plain_values_and_handles_are_copy(self, typ: Type)
        ensures
            ({
                let followed = self.follow(typ);
                let automatic = self.facts.database.auto_drop;
                &&& followed is Primitive || followed is Function ==> self.is_copy(typ)
                &&& !(followed is Tuple) && (self.is_shared(followed) || self.is_ability(followed))
                    ==> self.is_copy(typ)
                &&& automatic && followed is Variable && (self.is_literal(followed->Variable_0)
                    || self.constraint_in_scope(followed, self.facts.prelude.copy_type))
                    ==> self.is_copy(typ)
                &&& automatic && followed is Variable && !self.is_shared(followed)
                    && !self.is_ability(followed) && self.is_signature(followed->Variable_0)
                    && !self.is_literal(followed->Variable_0) && !self.constraint_in_scope(
                    followed,
                    self.facts.prelude.copy_type,
                ) ==> !self.is_copy(typ)
            }),
    {
        let unasked = self.unasked();
        let followed = self.follow(typ);
        assert(unasked.follow(typ) == followed);
        self.heads_stay(unasked, followed, NESTING_LIMIT as nat);
        match followed {
            Type::Variable(id) => {
                self.variables_stay(unasked, id);
                self.constraints_stay(unasked, followed, self.facts.prelude.copy_type);
            },
            _ => {},
        }
    }

    proof fn heads_stay(self, other: State, typ: Type, depth: nat)
        requires
            other.bindings == self.bindings,
            other.facts == self.facts,
        ensures
            other.defining_item_at(typ, depth) == self.defining_item_at(typ, depth),
            other.is_ability_at(typ, depth) == self.is_ability_at(typ, depth),
        decreases depth,
    {
        if depth > 0 {
            match self.follow(typ) {
                Type::Application(constructor, _) => {
                    self.heads_stay(other, *constructor, (depth - 1) as nat);
                },
                _ => {},
            }
        }
    }

    proof fn kinds_stay(self, other: State, typ: Type, ability: TopLevelName, depth: nat)
        requires
            other.bindings == self.bindings,
        ensures
            other.could_be_at(typ, ability, depth) == self.could_be_at(typ, ability, depth),
        decreases depth,
    {
        if depth > 0 {
            match self.follow(typ) {
                Type::Forall(_, inner) => {
                    self.kinds_stay(other, *inner, ability, (depth - 1) as nat);
                },
                _ => {},
            }
        }
    }

    proof fn constraints_stay(self, other: State, target: Type, ability: TopLevelName)
        requires
            other == self.unasked(),
        ensures
            other.constraint_in_scope(target, ability) == self.constraint_in_scope(target, ability),
    {
        let implicits = self.implicits_in_scope;
        assert forall|i: int| 0 <= i < implicits.len() implies self.is_constraint(
            #[trigger] implicits[i],
            target,
            ability,
        ) == other.is_constraint(implicits[i], target, ability) by {
            if self.name_types.contains_key(implicits[i]) {
                let typ = self.name_types[implicits[i]];
                self.kinds_stay(other, typ, ability, NESTING_LIMIT as nat);
            }
        }
        if self.constraint_in_scope(target, ability) {
            let i = choose|i: int|
                0 <= i < implicits.len() && self.is_constraint(
                    #[trigger] implicits[i],
                    target,
                    ability,
                );
            assert(other.is_constraint(other.implicits_in_scope[i], target, ability));
        }
        if other.constraint_in_scope(target, ability) {
            let i = choose|i: int|
                0 <= i < implicits.len() && other.is_constraint(
                    #[trigger] implicits[i],
                    target,
                    ability,
                );
            assert(self.is_constraint(self.implicits_in_scope[i], target, ability));
        }
    }

    proof fn variables_stay(self, other: State, id: u32)
        requires
            other == self.unasked(),
        ensures
            other.is_literal(id) == self.is_literal(id),
            other.is_signature(id) == self.is_signature(id),
    {
        assert forall|variable: u32|
            #[trigger] self.follow(Type::Variable(variable)) == other.follow(
            Type::Variable(variable),
        ) by {}
        assert forall|variable: u32|
            #[trigger] other.follow(Type::Variable(variable)) == self.follow(
            Type::Variable(variable),
        ) by {}
    }

    /// A type is shared, or an ability, if what it applies is: its arguments do not matter. A type
    /// that is defined nowhere is neither.
    pub proof fn law_the_constructor_decides(self, typ: Type, depth: nat)
        ensures
            self.follow(typ) is Application ==> {
                let constructor = *self.follow(typ)->Application_0;
                &&& self.defining_item_at(typ, depth + 1) == self.defining_item_at(
                    constructor,
                    depth,
                )
                &&& self.is_ability_at(typ, depth + 1) == self.is_ability_at(constructor, depth)
            },
            self.follow(typ) matches Type::UserDefined(Origin::TopLevelDefinition(name)) ==> {
                &&& self.defining_item_at(typ, depth + 1) == Some(name.top_level_item)
                &&& self.is_shared(typ) == (match self.facts.database.type_definition(
                    name.top_level_item,
                ) {
                    Some(definition) => definition.shared,
                    None => false,
                })
            },
            !(self.follow(typ) is Application) && !(self.follow(typ) is UserDefined) ==> {
                &&& !self.is_shared(typ)
                &&& !self.is_ability(typ)
            },
    {
    }

    proof fn searching_finds(
        self,
        cache: Cache,
        wanted: Type,
        candidates: Seq<TopLevelName>,
        start: int,
        guard: u32,
        depth: nat,
    )
        requires
            0 <= start <= candidates.len(),
        ensures
            ({
                let found = self.copy_impl_from(
                    cache,
                    wanted,
                    candidates,
                    start,
                    guard,
                    depth,
                ).0;
                &&& found ==> exists|i: int|
                    start <= i < candidates.len() && self.may_give(
                        #[trigger] candidates[i],
                        wanted,
                    )
                &&& (exists|i: int|
                    start <= i < candidates.len() && self.gives(#[trigger] candidates[i], wanted))
                    ==> found
            }),
        decreases candidates.len() - start,
    {
        if start < candidates.len() {
            let candidate = candidates[start];
            let (matches, after) = self.copy_candidate(cache, wanted, candidate, guard, depth);
            if !matches {
                self.searching_finds(after, wanted, candidates, start + 1, guard, depth);
            } else {
                assert(self.may_give(candidates[start], wanted));
            }
            assert(self.gives(candidate, wanted) ==> matches);
        }
    }

    /// The definition is of the wanted type.
    pub open spec fn gives(self, definition: TopLevelName, wanted: Type) -> bool {
        lookup(self.facts.top_level_types@, definition) matches Some(typ) && self.unifier(
            typ,
            wanted,
        ) is Some
    }

    /// The definition is of the wanted type, or a function that returns it.
    pub open spec fn may_give(self, definition: TopLevelName, wanted: Type) -> bool {
        lookup(self.facts.top_level_types@, definition) matches Some(typ) && (self.unifier(
            typ,
            wanted,
        ) is Some || (typ matches Type::Function(function) && self.unifier(
            function.return_type,
            wanted,
        ) is Some))
    }

    /// A type that is defined somewhere, and is neither shared nor an ability, is `Copy` if an impl
    /// that is visible says so, and only if one may: an implicit of the wanted type, or a definition
    /// that is of it or, as far as its constraints hold, returns it.
    pub proof fn law_an_impl_makes_a_type_copy(self, typ: Type)
        requires
            self.follow(typ) is UserDefined || self.follow(typ) is Application,
            !self.is_shared(self.follow(typ)),
            !self.is_ability(self.follow(typ)),
            self.current_item is Some,
            lookup(
                self.copy_search_cache,
                (self.current_item->0.source_file, self.follow(typ)),
            ) is None,
        ensures
            ({
                let unasked = self.unasked();
                let copy = self.facts.prelude.copy_type;
                let wanted = ability_applied(copy, self.follow(typ));
                let candidates = unasked.impl_candidates(
                    self.current_item->0.source_file,
                    wanted,
                );
                let local = unasked.local_impl(wanted, copy);
                &&& local || (exists|i: int|
                    0 <= i < candidates.len() && unasked.gives(#[trigger] candidates[i], wanted))
                    ==> self.is_copy(typ)
                &&& self.is_copy(typ) ==> local || exists|i: int|
                    0 <= i < candidates.len() && unasked.may_give(#[trigger] candidates[i], wanted)
            }),
    {
        let unasked = self.unasked();
        let followed = self.follow(typ);
        assert(unasked.follow(typ) == followed);
        self.heads_stay(unasked, followed, NESTING_LIMIT as nat);
        let wanted = ability_applied(self.facts.prelude.copy_type, followed);
        let candidates = unasked.impl_candidates(self.current_item->0.source_file, wanted);
        unasked.searching_finds(
            self.copy_search_cache,
            wanted,
            candidates,
            0,
            0,
            (NESTING_LIMIT - 1) as nat,
        );
    }
}

} // verus!

//! What holds of moves, of escapes and of searches for `Copy`.

#[allow(unused_imports)]
use crate::collections::{lookup, put};
#[allow(unused_imports)]
use crate::cst::ExprForm;
#[allow(unused_imports)]
use crate::ids::{ExprId, Location, NameId, TopLevelName, TypeVariableId, NESTING_LIMIT};
#[allow(unused_imports)]
use crate::type_inference::affine::{ability_applied, Cache, CONSTRAINT_LIMIT};
#[allow(unused_imports)]
use crate::type_inference::checker::{Report, State};
#[allow(unused_imports)]
use crate::type_inference::moves::Place;
#[allow(unused_imports)]
use crate::type_inference::origins::{OriginForm, OriginPlace, Origins};
#[allow(unused_imports)]
use crate::types::{Parameters, Type, TypeList};
use vstd::prelude::*;

verus! {

/// A report for each of `locations`.
pub open spec fn escape_reports(locations: Seq<Location>) -> Seq<Report> {
    locations.map_values(|location: Location| Report::ReferenceEscapesScope { location })
}

/// Where an origin is reported.
pub open spec fn reported_at(state: State, origin: OriginForm, returned: ExprId) -> Location {
    match origin.location {
        Some(location) => location,
        None => state.context.expr_location(returned),
    }
}

impl State {
    /// Apart from what was asked and reported, this is `before`.
    pub open spec fn only_asked(self, before: State) -> bool {
        self == (State {
            copy_search_cache: self.copy_search_cache,
            diagnostics: self.diagnostics,
            ..before
        })
    }

    proof fn rejecting_only_asks(self, tail: Origins, returned: ExprId, count: int)
        ensures
            self.escapes_rejected(tail, returned, count).1.only_asked(self),
        decreases count,
    {
        if count > 0 {
            self.rejecting_only_asks(tail, returned, count - 1);
        }
    }

    /// A value that leaves a function is reported once for each place that would dangle, whatever
    /// number of its references point there.
    pub proof fn law_each_escape_is_reported_once(
        self,
        tail: Origins,
        returned: ExprId,
        count: int,
    )
        ensures
            ({
                let (reported, state) = self.escapes_rejected(tail, returned, count);
                &&& reported.no_duplicates()
                &&& state.diagnostics == self.diagnostics + escape_reports(reported)
            }),
        decreases count,
    {
        if count > 0 {
            self.law_each_escape_is_reported_once(tail, returned, count - 1);
            let (before, state) = self.escapes_rejected(tail, returned, count - 1);
            let (reported, _) = self.escapes_rejected(tail, returned, count);
            if reported != before {
                let location = reported.last();
                assert(reported =~= before.push(location));
                assert(escape_reports(reported) =~= escape_reports(before).push(
                    Report::ReferenceEscapesScope { location },
                ));
                assert forall|i: int, j: int|
                    0 <= i < j < reported.len() implies reported[i] != reported[j] by {
                    if j == reported.len() - 1 {
                        assert(before.contains(before[i]));
                    }
                }
                assert(self.diagnostics + escape_reports(before).push(
                    Report::ReferenceEscapesScope { location },
                ) =~= (self.diagnostics + escape_reports(before)).push(
                    Report::ReferenceEscapesScope { location },
                ));
            }
        } else {
            assert(self.diagnostics + escape_reports(Seq::empty()) =~= self.diagnostics);
        }
    }

    /// A reference to what the caller owns, or to what never dies, may leave a function.
    pub proof fn law_callers_places_may_leave(self, tail: Origins, returned: ExprId, count: int)
        requires
            0 <= count <= tail.len(),
            forall|i: int|
                0 <= i < tail.len() ==> (#[trigger] tail[i]).kind is Param || tail[i].kind
                    is Immortal,
        ensures
            self.escapes_rejected(tail, returned, count) == (Seq::<Location>::empty(), self),
        decreases count,
    {
        if count > 0 {
            self.law_callers_places_may_leave(tail, returned, count - 1);
            assert(tail[count - 1].kind is Param || tail[count - 1].kind is Immortal);
        }
    }

    /// Every reference to what dies with the function is reported where it was taken, unless it is
    /// a capture that a closure may copy.
    pub proof fn law_every_dangling_reference_is_reported(
        self,
        tail: Origins,
        returned: ExprId,
        count: int,
        index: int,
    )
        requires
            0 <= index < count <= tail.len(),
            self.escapes(tail[index].kind),
            State::borrowed_variable(tail[index]) matches Some(name) ==> {
                let asked = self.escapes_rejected(tail, returned, index).1;
                !asked.is_copy(asked.type_of_name(name))
            },
        ensures
            self.escapes_rejected(tail, returned, count).0.contains(
                reported_at(self, tail[index], returned),
            ),
        decreases count,
    {
        let (before, state) = self.escapes_rejected(tail, returned, count - 1);
        self.rejecting_only_asks(tail, returned, count - 1);
        let location = reported_at(self, tail[index], returned);
        let (reported, _) = self.escapes_rejected(tail, returned, count);
        if index == count - 1 {
            if !before.contains(location) {
                assert(reported == before.push(location));
                assert(reported[reported.len() - 1] == location);
            }
        } else {
            self.law_every_dangling_reference_is_reported(tail, returned, count - 1, index);
            let at = choose|i: int| 0 <= i < before.len() && before[i] == location;
            assert(reported[at] == location);
        }
    }

    /// The borrow of a variable that a closure holds.
    pub open spec fn borrow_of(self, lambda: ExprId, name: NameId) -> OriginForm {
        OriginForm {
            kind: OriginPlace::Local((name, Seq::empty())),
            capture_borrow: true,
            location: Some(self.context.expr_location(lambda)),
        }
    }

    proof fn borrowed_may_be(self, names: Seq<NameId>, count: int, name: NameId)
        requires
            self.borrowed_among(names, count).0.contains(name),
        ensures
            self.may_borrow(name),
        decreases count,
    {
        if count > 0 {
            self.asking_only_asks(names, count - 1);
            let (before, state) = self.borrowed_among(names, count - 1);
            let borrowed = self.borrowed_among(names, count).0;
            let i = choose|i: int| 0 <= i < borrowed.len() && borrowed[i] == name;
            if i < before.len() {
                assert(before[i] == name);
                self.borrowed_may_be(names, count - 1, name);
            } else {
                assert(name == names[count - 1] && state.may_borrow(name));
            }
        }
    }

    proof fn asking_only_asks(self, names: Seq<NameId>, count: int)
        ensures
            self.borrowed_among(names, count).1.only_asked(self),
        decreases count,
    {
        if count > 0 {
            self.asking_only_asks(names, count - 1);
        }
    }

    proof fn captured_borrow_is_among(
        self,
        lambda: ExprId,
        bindings: Map<NameId, Origins>,
        locals: Seq<NameId>,
        count: int,
        index: int,
    )
        requires
            0 <= index < count <= locals.len(),
            self.captures(lambda, locals[index]),
            !self.is_reference_typed(locals[index]),
            bindings.contains_key(locals[index]) ==> bindings[locals[index]].len() == 0,
        ensures
            self.captured_origins(lambda, false, bindings, locals, count).contains(
                self.borrow_of(lambda, locals[index]),
            ),
        decreases count,
    {
        let before = self.captured_origins(lambda, false, bindings, locals, count - 1);
        let all = self.captured_origins(lambda, false, bindings, locals, count);
        let borrow = self.borrow_of(lambda, locals[index]);
        if index == count - 1 {
            assert(all == before.push(borrow));
            assert(all[before.len() as int] == borrow);
        } else {
            self.captured_borrow_is_among(lambda, bindings, locals, count - 1, index);
            let at = choose|i: int| 0 <= i < before.len() && before[i] == borrow;
            assert(all[at] == borrow);
        }
    }

    /// What a closure borrows of the function it is made in is checked where the closure leaves:
    /// the borrow is among its origins. What points somewhere itself is checked for that instead.
    pub proof fn law_every_borrowed_capture_is_checked(
        self,
        lambda: ExprId,
        names: Seq<NameId>,
        bindings: Map<NameId, Origins>,
        name: NameId,
    )
        requires
            self.context.expr(lambda) matches ExprForm::Lambda { is_move, .. } && !is_move,
            self.captures(lambda, name),
            self.borrowed_captures(names, false).0.contains(name),
            self.function_local_names.len() > 0,
            self.function_local_names.last().contains(name),
            bindings.contains_key(name) ==> bindings[name].len() == 0,
        ensures
            self.lambda_origin(lambda, bindings).contains(self.borrow_of(lambda, name)),
    {
        let locals = self.function_local_names.last();
        self.borrowed_may_be(names, names.len() as int, name);
        let index = choose|i: int| 0 <= i < locals.len() && locals[i] == name;
        self.captured_borrow_is_among(lambda, bindings, locals, locals.len() as int, index);
    }

    /// Once a use of a moved place was reported, no use of that place is reported again.
    pub proof fn law_a_place_is_reported_once(
        self,
        place: Place,
        first: Location,
        between: State,
        second: Location,
        after: State,
    )
        requires
            self.use_checked(place, first, between),
            between.diagnostics != self.diagnostics,
            between.use_checked(place, second, after),
        ensures
            after == between,
    {
    }

    /// A place that is owned, with all its parts, may be used.
    pub proof fn law_what_is_owned_may_be_used(self, place: Place, location: Location, after: State)
        requires
            self.use_checked(place, location, after),
            self.moves.moved_at(place) is None,
            !self.moves.moved_below(place),
        ensures
            after.diagnostics == self.diagnostics,
            after.moves == self.moves,
    {
    }
}

impl State {
    /// Only what was found for concrete types is remembered.
    pub open spec fn remembers_concrete(self, cache: Cache) -> bool {
        forall|i: int| 0 <= i < cache.len() ==> self.is_concrete((#[trigger] cache[i]).0.1)
    }

    proof fn putting_remembers(self, cache: Cache, key: (u32, Type), found: bool)
        requires
            self.remembers_concrete(cache),
            self.is_concrete(key.1),
        ensures
            self.remembers_concrete(put(cache, key, found)),
        decreases cache.len(),
    {
        if cache.len() > 0 && cache[0].0 != key {
            self.putting_remembers(cache.drop_first(), key, found);
            let rest = put(cache.drop_first(), key, found);
            let after = put(cache, key, found);
            assert(after =~= seq![cache[0]] + rest);
            assert forall|i: int| 0 <= i < after.len() implies self.is_concrete(
                (#[trigger] after[i]).0.1,
            ) by {
                if i > 0 {
                    assert(after[i] == rest[i - 1]);
                }
            }
        }
    }

    proof fn asking_remembers(self, cache: Cache, typ: Type, guard: u32, depth: nat)
        requires
            self.remembers_concrete(cache),
        ensures
            self.remembers_concrete(self.copy_at(cache, typ, guard, depth).1),
        decreases depth, 0nat, 0int, typ,
    {
        if depth > 0 {
            let inner = (depth - 1) as nat;
            let typ = self.follow(typ);
            match typ {
                Type::Tuple(elements) => {
                    self.asking_all_remembers(cache, *elements, guard, inner);
                },
                _ => match self.current_item {
                    None => {},
                    Some(item) => {
                        let wanted = ability_applied(self.facts.prelude.copy_type, typ);
                        let candidates = self.impl_candidates(item.source_file, wanted);
                        self.searching_remembers(cache, wanted, candidates, 0, guard, inner);
                        let (found, after) = self.copy_impl_from(
                            cache,
                            wanted,
                            candidates,
                            0,
                            guard,
                            inner,
                        );
                        if self.is_concrete(typ) {
                            self.putting_remembers(after, (item.source_file, typ), found);
                        }
                    },
                },
            }
        }
    }

    proof fn asking_all_remembers(self, cache: Cache, types: TypeList, guard: u32, depth: nat)
        requires
            self.remembers_concrete(cache),
        ensures
            self.remembers_concrete(self.all_copy_at(cache, types, guard, depth).1),
        decreases depth, 1nat, 0int, types,
    {
        match types {
            TypeList::Nil => {},
            TypeList::Cons(first, rest) => {
                self.asking_remembers(cache, *first, guard, depth);
                let (copy, after) = self.copy_at(cache, *first, guard, depth);
                if copy {
                    self.asking_all_remembers(after, *rest, guard, depth);
                }
            },
        }
    }

    proof fn searching_remembers(
        self,
        cache: Cache,
        wanted: Type,
        candidates: Seq<TopLevelName>,
        start: int,
        guard: u32,
        depth: nat,
    )
        requires
            self.remembers_concrete(cache),
        ensures
            self.remembers_concrete(
                self.copy_impl_from(cache, wanted, candidates, start, guard, depth).1,
            ),
        decreases depth, 3nat, candidates.len() - start, wanted,
    {
        if 0 <= start < candidates.len() {
            let candidate = candidates[start];
            self.trying_remembers(cache, wanted, candidate, guard, depth);
            let (matches, after) = self.copy_candidate(cache, wanted, candidate, guard, depth);
            if !matches {
                self.searching_remembers(after, wanted, candidates, start + 1, guard, depth);
            }
        }
    }

    proof fn trying_remembers(
        self,
        cache: Cache,
        wanted: Type,
        candidate: TopLevelName,
        guard: u32,
        depth: nat,
    )
        requires
            self.remembers_concrete(cache),
        ensures
            self.remembers_concrete(
                self.copy_candidate(cache, wanted, candidate, guard, depth).1,
            ),
        decreases depth, 3nat, 0int, wanted,
    {
        match lookup(self.facts.top_level_types@, candidate) {
            Some(Type::Function(function)) => match self.unifier(function.return_type, wanted) {
                Some(more) => {
                    if guard < CONSTRAINT_LIMIT {
                        self.constraining_remembers(
                            cache,
                            function.parameters,
                            self.with_unifier(more),
                            (guard + 1) as u32,
                            depth,
                        );
                    }
                },
                None => {},
            },
            _ => {},
        }
    }

    proof fn constraining_remembers(
        self,
        cache: Cache,
        parameters: Parameters,
        bindings: Map<TypeVariableId, Type>,
        guard: u32,
        depth: nat,
    )
        requires
            self.remembers_concrete(cache),
        ensures
            self.remembers_concrete(
                self.copy_constraints_at(cache, parameters, bindings, guard, depth).1,
            ),
        decreases depth, 2nat, 0int, parameters,
    {
        match parameters {
            Parameters::Nil => {},
            Parameters::Cons(implicit, typ, rest) => {
                let argument = State::constraint_argument(
                    *typ,
                    self.facts.prelude.copy_type,
                    bindings,
                );
                if implicit && argument is Some {
                    self.asking_remembers(cache, argument->0, guard, depth);
                    let (copy, after) = self.copy_at(cache, argument->0, guard, depth);
                    if copy {
                        self.constraining_remembers(after, *rest, bindings, guard, depth);
                    }
                } else {
                    self.constraining_remembers(cache, *rest, bindings, guard, depth);
                }
            },
        }
    }

    /// A search for `Copy` is remembered only for types in which nothing is left open.
    pub proof fn law_only_concrete_types_are_remembered(self, typ: Type)
        requires
            self.remembers_concrete(self.copy_search_cache),
        ensures
            self.copy_asked(typ).remembers_concrete(self.copy_asked(typ).copy_search_cache),
    {
        let unasked = self.unasked();
        assert forall|i: int| 0 <= i < self.copy_search_cache.len() implies unasked.is_concrete(
            (#[trigger] self.copy_search_cache[i]).0.1,
        ) by {
            assert(self.is_concrete(self.copy_search_cache[i].0.1));
        }
        unasked.asking_remembers(self.copy_search_cache, typ, 0, NESTING_LIMIT as nat);
        let after = self.copy_asked(typ);
        assert forall|i: int| 0 <= i < after.copy_search_cache.len() implies after.is_concrete(
            (#[trigger] after.copy_search_cache[i]).0.1,
        ) by {
            assert(unasked.is_concrete(after.copy_search_cache[i].0.1));
        }
    }
}

} // verus!

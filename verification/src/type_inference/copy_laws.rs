//! What remembering searches for `Copy` does not change.

#[allow(unused_imports)]
use crate::collections::{law_put, lookup, put};
#[allow(unused_imports)]
use crate::ids::{Location, TopLevelName, TypeVariableId, NESTING_LIMIT};
#[allow(unused_imports)]
use crate::type_inference::affine::{ability_applied, Cache, CONSTRAINT_LIMIT};
#[allow(unused_imports)]
use crate::type_inference::checker::State;
#[allow(unused_imports)]
use crate::type_inference::moves::Place;
#[allow(unused_imports)]
use crate::types::{Parameters, Type, TypeList};
use vstd::prelude::*;

verus! {

impl State {
    /// `after` answers all that `before` answers, in the same way, and what is new in it is about
    /// concrete types.
    pub open spec fn remembers_more(self, before: Cache, after: Cache) -> bool {
        forall|key: (u32, Type)|
            #![trigger lookup(before, key)]
            #![trigger lookup(after, key)]
            match lookup(before, key) {
                Some(found) => lookup(after, key) == Some(found),
                None => lookup(after, key) is Some ==> self.is_concrete(key.1),
            }
    }

    proof fn putting_adds(self, before: Cache, after: Cache, key: (u32, Type), found: bool)
        requires
            self.remembers_more(before, after),
            lookup(before, key) is None,
            self.is_concrete(key.1),
        ensures
            self.remembers_more(before, put(after, key, found)),
    {
        let last = put(after, key, found);
        assert forall|other: (u32, Type)|
            #![trigger lookup(before, other)]
            #![trigger lookup(last, other)]
            match lookup(before, other) {
                Some(known) => lookup(last, other) == Some(known),
                None => lookup(last, other) is Some ==> self.is_concrete(other.1),
            } by {
            law_put(after, key, found, other);
            assert(lookup(before, other) is Some ==> lookup(after, other) == lookup(
                before,
                other,
            ));
        }
    }

    proof fn asking_adds(self, cache: Cache, typ: Type, guard: u32, depth: nat)
        ensures
            self.remembers_more(cache, self.copy_at(cache, typ, guard, depth).1),
        decreases depth, 0nat, 0int, typ,
    {
        if depth > 0 {
            let inner = (depth - 1) as nat;
            let typ = self.follow(typ);
            match typ {
                Type::Tuple(elements) => {
                    self.asking_all_adds(cache, *elements, guard, inner);
                },
                _ => match self.current_item {
                    None => {},
                    Some(item) => {
                        let key = (item.source_file, typ);
                        let wanted = ability_applied(self.facts.prelude.copy_type, typ);
                        let candidates = self.impl_candidates(item.source_file, wanted);
                        self.searching_adds(cache, wanted, candidates, 0, guard, inner);
                        let (found, after) = self.copy_impl_from(
                            cache,
                            wanted,
                            candidates,
                            0,
                            guard,
                            inner,
                        );
                        if self.is_concrete(typ) && lookup(cache, key) is None {
                            self.putting_adds(cache, after, key, found);
                        }
                    },
                },
            }
        }
    }

    proof fn asking_all_adds(self, cache: Cache, types: TypeList, guard: u32, depth: nat)
        ensures
            self.remembers_more(cache, self.all_copy_at(cache, types, guard, depth).1),
        decreases depth, 1nat, 0int, types,
    {
        match types {
            TypeList::Nil => {},
            TypeList::Cons(first, rest) => {
                self.asking_adds(cache, *first, guard, depth);
                let (copy, after) = self.copy_at(cache, *first, guard, depth);
                if copy {
                    self.asking_all_adds(after, *rest, guard, depth);
                    self.adding_goes_on(
                        cache,
                        after,
                        self.all_copy_at(after, *rest, guard, depth).1,
                    );
                }
            },
        }
    }

    proof fn adding_goes_on(self, a: Cache, b: Cache, c: Cache)
        requires
            self.remembers_more(a, b),
            self.remembers_more(b, c),
        ensures
            self.remembers_more(a, c),
    {
        assert forall|key: (u32, Type)|
            #![trigger lookup(a, key)]
            #![trigger lookup(c, key)]
            match lookup(a, key) {
                Some(found) => lookup(c, key) == Some(found),
                None => lookup(c, key) is Some ==> self.is_concrete(key.1),
            } by {
            assert(lookup(b, key) is Some ==> lookup(c, key) == lookup(b, key));
        }
    }

    proof fn searching_adds(
        self,
        cache: Cache,
        wanted: Type,
        candidates: Seq<TopLevelName>,
        start: int,
        guard: u32,
        depth: nat,
    )
        ensures
            self.remembers_more(
                cache,
                self.copy_impl_from(cache, wanted, candidates, start, guard, depth).1,
            ),
        decreases depth, 3nat, candidates.len() - start, wanted,
    {
        if 0 <= start < candidates.len() {
            let candidate = candidates[start];
            self.trying_adds(cache, wanted, candidate, guard, depth);
            let (matches, after) = self.copy_candidate(cache, wanted, candidate, guard, depth);
            if !matches {
                self.searching_adds(after, wanted, candidates, start + 1, guard, depth);
                self.adding_goes_on(
                    cache,
                    after,
                    self.copy_impl_from(after, wanted, candidates, start + 1, guard, depth).1,
                );
            }
        }
    }

    proof fn trying_adds(
        self,
        cache: Cache,
        wanted: Type,
        candidate: TopLevelName,
        guard: u32,
        depth: nat,
    )
        ensures
            self.remembers_more(
                cache,
                self.copy_candidate(cache, wanted, candidate, guard, depth).1,
            ),
        decreases depth, 3nat, 0int, wanted,
    {
        match lookup(self.facts.top_level_types@, candidate) {
            Some(Type::Function(function)) => match self.unifier(function.return_type, wanted) {
                Some(more) => {
                    if guard < CONSTRAINT_LIMIT {
                        self.constraining_adds(
                            cache,
                            function.parameters,
                            self.with_unifier(more),
                            (guard + 1) as u32,
                            depth,
                        );
                    }
                },
                None => {},
            },
            _ => {},
        }
    }

    proof fn constraining_adds(
        self,
        cache: Cache,
        parameters: Parameters,
        bindings: Map<TypeVariableId, Type>,
        guard: u32,
        depth: nat,
    )
        ensures
            self.remembers_more(
                cache,
                self.copy_constraints_at(cache, parameters, bindings, guard, depth).1,
            ),
        decreases depth, 2nat, 0int, parameters,
    {
        match parameters {
            Parameters::Nil => {},
            Parameters::Cons(implicit, typ, rest) => {
                let argument = State::constraint_argument(
                    *typ,
                    self.facts.prelude.copy_type,
                    bindings,
                );
                if implicit && argument is Some {
                    self.asking_adds(cache, argument->0, guard, depth);
                    let (copy, after) = self.copy_at(cache, argument->0, guard, depth);
                    if copy {
                        self.constraining_adds(after, *rest, bindings, guard, depth);
                        self.adding_goes_on(
                            cache,
                            after,
                            self.copy_constraints_at(after, *rest, bindings, guard, depth).1,
                        );
                    }
                } else {
                    self.constraining_adds(cache, *rest, bindings, guard, depth);
                }
            },
        }
    }

    /// What was found to be `Copy` is found to be so again, by who remembers what was found.
    proof fn asking_again(self, cache: Cache, typ: Type, guard: u32, depth: nat, later: Cache)
        requires
            self.copy_at(cache, typ, guard, depth).0,
            self.remembers_more(self.copy_at(cache, typ, guard, depth).1, later),
        ensures
            self.copy_at(later, typ, guard, depth).0,
        decreases depth, 0nat, 0int, typ,
    {
        let inner = (depth - 1) as nat;
        let followed = self.follow(typ);
        self.asking_adds(cache, typ, guard, depth);
        self.adding_goes_on(cache, self.copy_at(cache, typ, guard, depth).1, later);
        match followed {
            Type::Tuple(elements) => {
                self.asking_all_again(cache, *elements, guard, inner, later);
            },
            _ => match self.current_item {
                None => {},
                Some(item) => {
                    let key = (item.source_file, followed);
                    let wanted = ability_applied(self.facts.prelude.copy_type, followed);
                    let candidates = self.impl_candidates(item.source_file, wanted);
                    let (found, after) = self.copy_impl_from(
                        cache,
                        wanted,
                        candidates,
                        0,
                        guard,
                        inner,
                    );
                    if self.copy_at(cache, typ, guard, depth) == (found, put(after, key, found)) {
                        law_put(after, key, found, key);
                    }
                    if lookup(cache, key) is None && found && !self.is_concrete(followed)
                        && self.copy_at(cache, typ, guard, depth) == (found, after) {
                        self.searching_again(cache, wanted, candidates, 0, guard, inner, later);
                    }
                    assert(lookup(cache, key) is Some ==> lookup(later, key) == lookup(cache, key));
                    assert(lookup(later, key) is Some ==> lookup(cache, key) is Some
                        || self.is_concrete(followed));
                },
            },
        }
    }

    proof fn asking_all_again(
        self,
        cache: Cache,
        types: TypeList,
        guard: u32,
        depth: nat,
        later: Cache,
    )
        requires
            self.all_copy_at(cache, types, guard, depth).0,
            self.remembers_more(self.all_copy_at(cache, types, guard, depth).1, later),
        ensures
            self.all_copy_at(later, types, guard, depth).0,
        decreases depth, 1nat, 0int, types,
    {
        match types {
            TypeList::Nil => {},
            TypeList::Cons(first, rest) => {
                let after = self.copy_at(cache, *first, guard, depth).1;
                let last = self.all_copy_at(after, *rest, guard, depth).1;
                self.asking_all_adds(after, *rest, guard, depth);
                self.adding_goes_on(after, last, later);
                self.asking_again(cache, *first, guard, depth, later);
                self.asking_adds(later, *first, guard, depth);
                let more = self.copy_at(later, *first, guard, depth).1;
                self.adding_goes_on(last, later, more);
                self.asking_all_again(after, *rest, guard, depth, more);
            },
        }
    }

    proof fn searching_again(
        self,
        cache: Cache,
        wanted: Type,
        candidates: Seq<TopLevelName>,
        start: int,
        guard: u32,
        depth: nat,
        later: Cache,
    )
        requires
            self.copy_impl_from(cache, wanted, candidates, start, guard, depth).0,
            self.remembers_more(
                self.copy_impl_from(cache, wanted, candidates, start, guard, depth).1,
                later,
            ),
        ensures
            self.copy_impl_from(later, wanted, candidates, start, guard, depth).0,
        decreases depth, 3nat, candidates.len() - start, wanted,
    {
        let candidate = candidates[start];
        let (matches, after) = self.copy_candidate(cache, wanted, candidate, guard, depth);
        if matches {
            self.trying_again(cache, wanted, candidate, guard, depth, later);
        } else {
            let last = self.copy_impl_from(after, wanted, candidates, start + 1, guard, depth).1;
            self.trying_adds(later, wanted, candidate, guard, depth);
            let more = self.copy_candidate(later, wanted, candidate, guard, depth).1;
            self.adding_goes_on(last, later, more);
            self.searching_again(after, wanted, candidates, start + 1, guard, depth, more);
        }
    }

    proof fn trying_again(
        self,
        cache: Cache,
        wanted: Type,
        candidate: TopLevelName,
        guard: u32,
        depth: nat,
        later: Cache,
    )
        requires
            self.copy_candidate(cache, wanted, candidate, guard, depth).0,
            self.remembers_more(
                self.copy_candidate(cache, wanted, candidate, guard, depth).1,
                later,
            ),
        ensures
            self.copy_candidate(later, wanted, candidate, guard, depth).0,
        decreases depth, 3nat, 0int, wanted,
    {
        match lookup(self.facts.top_level_types@, candidate) {
            Some(typ) => match typ {
                Type::Function(function) => match self.unifier(function.return_type, wanted) {
                    Some(more) => {
                        if self.unifier(typ, wanted) is None && self.facts.database.auto_drop {
                            self.constraining_again(
                                cache,
                                function.parameters,
                                self.with_unifier(more),
                                (guard + 1) as u32,
                                depth,
                                later,
                            );
                        }
                    },
                    None => {},
                },
                _ => {},
            },
            None => {},
        }
    }

    proof fn constraining_again(
        self,
        cache: Cache,
        parameters: Parameters,
        bindings: Map<TypeVariableId, Type>,
        guard: u32,
        depth: nat,
        later: Cache,
    )
        requires
            self.copy_constraints_at(cache, parameters, bindings, guard, depth).0,
            self.remembers_more(
                self.copy_constraints_at(cache, parameters, bindings, guard, depth).1,
                later,
            ),
        ensures
            self.copy_constraints_at(later, parameters, bindings, guard, depth).0,
        decreases depth, 2nat, 0int, parameters,
    {
        match parameters {
            Parameters::Nil => {},
            Parameters::Cons(implicit, typ, rest) => {
                let argument = State::constraint_argument(
                    *typ,
                    self.facts.prelude.copy_type,
                    bindings,
                );
                if implicit && argument is Some {
                    let after = self.copy_at(cache, argument->0, guard, depth).1;
                    let last = self.copy_constraints_at(after, *rest, bindings, guard, depth).1;
                    self.constraining_adds(after, *rest, bindings, guard, depth);
                    self.adding_goes_on(after, last, later);
                    self.asking_again(cache, argument->0, guard, depth, later);
                    self.asking_adds(later, argument->0, guard, depth);
                    let more = self.copy_at(later, argument->0, guard, depth).1;
                    self.adding_goes_on(last, later, more);
                    self.constraining_again(after, *rest, bindings, guard, depth, more);
                } else {
                    self.constraining_again(cache, *rest, bindings, guard, depth, later);
                }
            },
        }
    }

    /// What was found to be `Copy` is found to be so again.
    pub proof fn law_copy_stays_copy(self, typ: Type)
        requires
            self.is_copy(typ),
        ensures
            self.copy_asked(typ).is_copy(typ),
    {
        let cache = self.copy_search_cache;
        let asked = self.copy_asked(typ);
        assert(asked.unasked() == self.unasked());
        let after = asked.copy_search_cache;
        self.unasked().asking_again(cache, typ, 0, NESTING_LIMIT as nat, after);
    }

    /// A use of a place that was checked is checked again in silence: where it was reported, where
    /// it was fine, and where its variable read as `Copy`.
    pub proof fn law_a_second_check_is_silent(
        self,
        place: Place,
        first: Location,
        between: State,
        second: Location,
        after: State,
    )
        requires
            self.use_checked(place, first, between),
            between.use_checked(place, second, after),
        ensures
            after.diagnostics == between.diagnostics,
            after.moves == between.moves,
    {
        if self.facts.database.auto_drop && self.name_types.contains_key(place.0) {
            let typ = self.name_types[place.0];
            if self.is_copy(typ) {
                self.law_copy_stays_copy(typ);
            }
        }
    }
}

impl State {
    /// Whether the type is `Copy` to a search that remembers nothing of what it finds, and whether
    /// the search came to an end: whether no limit cut it short.
    pub open spec fn copy_alone(self, cache: Cache, typ: Type, guard: u32, depth: nat) -> (
        bool,
        bool,
    )
        decreases depth, 0nat, 0int, typ,
    {
        if depth == 0 {
            (false, false)
        } else {
            let typ = self.follow(typ);
            let copy = self.facts.prelude.copy_type;
            let automatic = self.facts.database.auto_drop;
            match typ {
                Type::Primitive(_) | Type::Function(_) => (true, true),
                Type::Tuple(elements) => self.all_copy_alone(
                    cache,
                    *elements,
                    guard,
                    (depth - 1) as nat,
                ),
                _ => if self.is_ability(typ) || self.is_shared(typ) {
                    (true, true)
                } else if automatic && (typ matches Type::Variable(id) && (self.is_literal(id)
                    || self.constraint_in_scope(typ, copy))) {
                    (true, true)
                } else if automatic && (typ matches Type::Variable(id) && self.is_signature(id)) {
                    (false, true)
                } else if self.local_impl(ability_applied(copy, typ), copy) {
                    (true, true)
                } else {
                    match self.current_item {
                        None => (false, true),
                        Some(item) => match lookup(cache, (item.source_file, typ)) {
                            Some(hit) => (hit, true),
                            None => self.impl_alone(
                                cache,
                                item.source_file,
                                typ,
                                guard,
                                (depth - 1) as nat,
                            ),
                        },
                    }
                },
            }
        }
    }

    pub open spec fn all_copy_alone(self, cache: Cache, types: TypeList, guard: u32, depth: nat) -> (
        bool,
        bool,
    )
        decreases depth, 1nat, 0int, types,
    {
        match types {
            TypeList::Nil => (true, true),
            TypeList::Cons(first, rest) => {
                let (copy, ended) = self.copy_alone(cache, *first, guard, depth);
                if copy {
                    let (all, all_ended) = self.all_copy_alone(cache, *rest, guard, depth);
                    (all, ended && all_ended)
                } else {
                    (false, ended)
                }
            },
        }
    }

    /// Whether an impl of `Copy` for the type is visible in `file`.
    pub open spec fn impl_alone(
        self,
        cache: Cache,
        file: u32,
        typ: Type,
        guard: u32,
        depth: nat,
    ) -> (bool, bool)
        decreases depth, 4nat, 0int, typ,
    {
        let wanted = ability_applied(self.facts.prelude.copy_type, typ);
        self.impl_alone_from(cache, wanted, self.impl_candidates(file, wanted), 0, guard, depth)
    }

    pub open spec fn impl_alone_from(
        self,
        cache: Cache,
        wanted: Type,
        candidates: Seq<TopLevelName>,
        start: int,
        guard: u32,
        depth: nat,
    ) -> (bool, bool)
        decreases depth, 3nat, candidates.len() - start, wanted,
    {
        if start < 0 || start >= candidates.len() {
            (false, true)
        } else {
            let (matches, ended) = self.candidate_alone(
                cache,
                wanted,
                candidates[start],
                guard,
                depth,
            );
            if matches {
                (true, ended)
            } else {
                let (found, all_ended) = self.impl_alone_from(
                    cache,
                    wanted,
                    candidates,
                    start + 1,
                    guard,
                    depth,
                );
                (found, ended && all_ended)
            }
        }
    }

    pub open spec fn candidate_alone(
        self,
        cache: Cache,
        wanted: Type,
        candidate: TopLevelName,
        guard: u32,
        depth: nat,
    ) -> (bool, bool)
        decreases depth, 3nat, 0int, wanted,
    {
        match lookup(self.facts.top_level_types@, candidate) {
            None => (false, true),
            Some(typ) => if self.unifier(typ, wanted) is Some {
                (true, true)
            } else {
                match typ {
                    Type::Function(function) => match self.unifier(function.return_type, wanted) {
                        None => (false, true),
                        Some(more) => if !self.facts.database.auto_drop {
                            (true, true)
                        } else if guard >= CONSTRAINT_LIMIT {
                            (false, false)
                        } else {
                            self.constraints_alone(
                                cache,
                                function.parameters,
                                self.with_unifier(more),
                                (guard + 1) as u32,
                                depth,
                            )
                        },
                    },
                    _ => (false, true),
                }
            },
        }
    }

    pub open spec fn constraints_alone(
        self,
        cache: Cache,
        parameters: Parameters,
        bindings: Map<TypeVariableId, Type>,
        guard: u32,
        depth: nat,
    ) -> (bool, bool)
        decreases depth, 2nat, 0int, parameters,
    {
        match parameters {
            Parameters::Nil => (true, true),
            Parameters::Cons(implicit, typ, rest) => {
                let argument = State::constraint_argument(
                    *typ,
                    self.facts.prelude.copy_type,
                    bindings,
                );
                if implicit && argument is Some {
                    let (copy, ended) = self.copy_alone(cache, argument.unwrap(), guard, depth);
                    if copy {
                        let (hold, all_ended) = self.constraints_alone(
                            cache,
                            *rest,
                            bindings,
                            guard,
                            depth,
                        );
                        (hold, ended && all_ended)
                    } else {
                        (false, ended)
                    }
                } else {
                    self.constraints_alone(cache, *rest, bindings, guard, depth)
                }
            },
        }
    }

    /// A search that came to an end comes to the same end with more room.
    proof fn more_room(
        self,
        cache: Cache,
        typ: Type,
        guard: u32,
        depth: nat,
        less: u32,
        more: nat,
    )
        requires
            self.copy_alone(cache, typ, guard, depth).1,
            less <= guard,
            depth <= more,
        ensures
            self.copy_alone(cache, typ, less, more) == self.copy_alone(cache, typ, guard, depth),
        decreases depth, 0nat, 0int, typ,
    {
        let inner = (depth - 1) as nat;
        let typ = self.follow(typ);
        match typ {
            Type::Tuple(elements) => {
                self.more_room_for_all(cache, *elements, guard, inner, less, (more - 1) as nat);
            },
            _ => match self.current_item {
                None => {},
                Some(item) => {
                    let wanted = ability_applied(self.facts.prelude.copy_type, typ);
                    let candidates = self.impl_candidates(item.source_file, wanted);
                    if self.impl_alone_from(cache, wanted, candidates, 0, guard, inner).1 {
                        self.more_room_to_search(
                            cache,
                            wanted,
                            candidates,
                            0,
                            guard,
                            inner,
                            less,
                            (more - 1) as nat,
                        );
                    }
                },
            },
        }
    }

    proof fn more_room_for_all(
        self,
        cache: Cache,
        types: TypeList,
        guard: u32,
        depth: nat,
        less: u32,
        more: nat,
    )
        requires
            self.all_copy_alone(cache, types, guard, depth).1,
            less <= guard,
            depth <= more,
        ensures
            self.all_copy_alone(cache, types, less, more) == self.all_copy_alone(
                cache,
                types,
                guard,
                depth,
            ),
        decreases depth, 1nat, 0int, types,
    {
        match types {
            TypeList::Nil => {},
            TypeList::Cons(first, rest) => {
                self.more_room(cache, *first, guard, depth, less, more);
                if self.copy_alone(cache, *first, guard, depth).0 {
                    self.more_room_for_all(cache, *rest, guard, depth, less, more);
                }
            },
        }
    }

    proof fn more_room_to_search(
        self,
        cache: Cache,
        wanted: Type,
        candidates: Seq<TopLevelName>,
        start: int,
        guard: u32,
        depth: nat,
        less: u32,
        more: nat,
    )
        requires
            self.impl_alone_from(cache, wanted, candidates, start, guard, depth).1,
            less <= guard,
            depth <= more,
        ensures
            self.impl_alone_from(cache, wanted, candidates, start, less, more)
                == self.impl_alone_from(cache, wanted, candidates, start, guard, depth),
        decreases depth, 3nat, candidates.len() - start, wanted,
    {
        if 0 <= start < candidates.len() {
            let candidate = candidates[start];
            self.more_room_to_try(cache, wanted, candidate, guard, depth, less, more);
            if !self.candidate_alone(cache, wanted, candidate, guard, depth).0 {
                self.more_room_to_search(
                    cache,
                    wanted,
                    candidates,
                    start + 1,
                    guard,
                    depth,
                    less,
                    more,
                );
            }
        }
    }

    proof fn more_room_to_try(
        self,
        cache: Cache,
        wanted: Type,
        candidate: TopLevelName,
        guard: u32,
        depth: nat,
        less: u32,
        more: nat,
    )
        requires
            self.candidate_alone(cache, wanted, candidate, guard, depth).1,
            less <= guard,
            depth <= more,
        ensures
            self.candidate_alone(cache, wanted, candidate, less, more) == self.candidate_alone(
                cache,
                wanted,
                candidate,
                guard,
                depth,
            ),
        decreases depth, 3nat, 0int, wanted,
    {
        match lookup(self.facts.top_level_types@, candidate) {
            Some(typ) => match typ {
                Type::Function(function) => match self.unifier(function.return_type, wanted) {
                    Some(unified) => {
                        if self.unifier(typ, wanted) is None && self.facts.database.auto_drop {
                            self.more_room_for_constraints(
                                cache,
                                function.parameters,
                                self.with_unifier(unified),
                                (guard + 1) as u32,
                                depth,
                                (less + 1) as u32,
                                more,
                            );
                        }
                    },
                    None => {},
                },
                _ => {},
            },
            None => {},
        }
    }

    proof fn more_room_for_constraints(
        self,
        cache: Cache,
        parameters: Parameters,
        bindings: Map<TypeVariableId, Type>,
        guard: u32,
        depth: nat,
        less: u32,
        more: nat,
    )
        requires
            self.constraints_alone(cache, parameters, bindings, guard, depth).1,
            less <= guard,
            depth <= more,
        ensures
            self.constraints_alone(cache, parameters, bindings, less, more)
                == self.constraints_alone(cache, parameters, bindings, guard, depth),
        decreases depth, 2nat, 0int, parameters,
    {
        match parameters {
            Parameters::Nil => {},
            Parameters::Cons(implicit, typ, rest) => {
                let argument = State::constraint_argument(
                    *typ,
                    self.facts.prelude.copy_type,
                    bindings,
                );
                if implicit && argument is Some {
                    self.more_room(cache, argument->0, guard, depth, less, more);
                    if self.copy_alone(cache, argument->0, guard, depth).0 {
                        self.more_room_for_constraints(
                            cache,
                            *rest,
                            bindings,
                            guard,
                            depth,
                            less,
                            more,
                        );
                    }
                } else {
                    self.more_room_for_constraints(
                        cache,
                        *rest,
                        bindings,
                        guard,
                        depth,
                        less,
                        more,
                    );
                }
            },
        }
    }

    /// `cache` answers what `known` answers, in the same way, and for the rest as searches do that
    /// come to an end.
    pub open spec fn answers_as(self, known: Cache, cache: Cache) -> bool {
        self.current_item matches Some(item) ==> forall|typ: Type|
            #![trigger lookup(known, (item.source_file, typ))]
            #![trigger lookup(cache, (item.source_file, typ))]
            match (
                lookup(known, (item.source_file, typ)),
                lookup(cache, (item.source_file, typ)),
            ) {
                (Some(known), found) => found == Some(known),
                (None, Some(found)) => self.impl_alone(
                    known,
                    item.source_file,
                    typ,
                    0,
                    NESTING_LIMIT as nat,
                ) == (found, true),
                (None, None) => true,
            }
    }

    proof fn putting_answers(self, known: Cache, cache: Cache, typ: Type, found: bool)
        requires
            self.answers_as(known, cache),
            self.current_item is Some,
            lookup(known, (self.current_item->0.source_file, typ)) is None,
            self.impl_alone(
                known,
                self.current_item->0.source_file,
                typ,
                0,
                NESTING_LIMIT as nat,
            ) == (found, true),
        ensures
            self.answers_as(known, put(cache, (self.current_item->0.source_file, typ), found)),
    {
        let file = self.current_item->0.source_file;
        let after = put(cache, (file, typ), found);
        assert forall|other: Type|
            #![trigger lookup(known, (file, other))]
            #![trigger lookup(after, (file, other))]
            match (lookup(known, (file, other)), lookup(after, (file, other))) {
                (Some(known), found) => found == Some(known),
                (None, Some(found)) => self.impl_alone(
                    known,
                    file,
                    other,
                    0,
                    NESTING_LIMIT as nat,
                ) == (found, true),
                (None, None) => true,
            } by {
            law_put(cache, (file, typ), found, (file, other));
            assert(lookup(known, (file, other)) is Some ==> lookup(cache, (file, other)) == lookup(
                known,
                (file, other),
            ));
        }
    }

    /// A search that comes to an end by itself comes to the same end with what was remembered.
    proof fn asking_as_alone(
        self,
        known: Cache,
        cache: Cache,
        typ: Type,
        guard: u32,
        depth: nat,
    )
        requires
            self.answers_as(known, cache),
            self.copy_alone(known, typ, guard, depth).1,
            depth <= NESTING_LIMIT,
        ensures
            self.copy_at(cache, typ, guard, depth).0 == self.copy_alone(known, typ, guard, depth).0,
            self.answers_as(known, self.copy_at(cache, typ, guard, depth).1),
        decreases depth, 0nat, 0int, typ,
    {
        let inner = (depth - 1) as nat;
        let followed = self.follow(typ);
        match followed {
            Type::Tuple(elements) => {
                self.asking_all_as_alone(known, cache, *elements, guard, inner);
            },
            _ => match self.current_item {
                None => {},
                Some(item) => {
                    let file = item.source_file;
                    let wanted = ability_applied(self.facts.prelude.copy_type, followed);
                    let candidates = self.impl_candidates(file, wanted);
                    let alone = self.impl_alone(known, file, followed, guard, inner);
                    assert(lookup(known, (file, followed)) is Some ==> lookup(
                        cache,
                        (file, followed),
                    ) == lookup(known, (file, followed)));
                    if lookup(known, (file, followed)) is None && alone.1 {
                        self.more_room_to_search(
                            known,
                            wanted,
                            candidates,
                            0,
                            guard,
                            inner,
                            0,
                            NESTING_LIMIT as nat,
                        );
                        self.searching_as_alone(known, cache, wanted, candidates, 0, guard, inner);
                        let (found, after) = self.copy_impl_from(
                            cache,
                            wanted,
                            candidates,
                            0,
                            guard,
                            inner,
                        );
                        self.putting_answers(known, after, followed, found);
                    }
                },
            },
        }
    }

    proof fn asking_all_as_alone(
        self,
        known: Cache,
        cache: Cache,
        types: TypeList,
        guard: u32,
        depth: nat,
    )
        requires
            self.answers_as(known, cache),
            self.all_copy_alone(known, types, guard, depth).1,
            depth <= NESTING_LIMIT,
        ensures
            self.all_copy_at(cache, types, guard, depth).0 == self.all_copy_alone(
                known,
                types,
                guard,
                depth,
            ).0,
            self.answers_as(known, self.all_copy_at(cache, types, guard, depth).1),
        decreases depth, 1nat, 0int, types,
    {
        match types {
            TypeList::Nil => {},
            TypeList::Cons(first, rest) => {
                self.asking_as_alone(known, cache, *first, guard, depth);
                let (copy, after) = self.copy_at(cache, *first, guard, depth);
                if copy {
                    self.asking_all_as_alone(known, after, *rest, guard, depth);
                }
            },
        }
    }

    proof fn searching_as_alone(
        self,
        known: Cache,
        cache: Cache,
        wanted: Type,
        candidates: Seq<TopLevelName>,
        start: int,
        guard: u32,
        depth: nat,
    )
        requires
            self.answers_as(known, cache),
            self.impl_alone_from(known, wanted, candidates, start, guard, depth).1,
            depth <= NESTING_LIMIT,
        ensures
            self.copy_impl_from(cache, wanted, candidates, start, guard, depth).0
                == self.impl_alone_from(known, wanted, candidates, start, guard, depth).0,
            self.answers_as(
                known,
                self.copy_impl_from(cache, wanted, candidates, start, guard, depth).1,
            ),
        decreases depth, 3nat, candidates.len() - start, wanted,
    {
        if 0 <= start < candidates.len() {
            let candidate = candidates[start];
            self.trying_as_alone(known, cache, wanted, candidate, guard, depth);
            let (matches, after) = self.copy_candidate(cache, wanted, candidate, guard, depth);
            if !matches {
                self.searching_as_alone(
                    known,
                    after,
                    wanted,
                    candidates,
                    start + 1,
                    guard,
                    depth,
                );
            }
        }
    }

    proof fn trying_as_alone(
        self,
        known: Cache,
        cache: Cache,
        wanted: Type,
        candidate: TopLevelName,
        guard: u32,
        depth: nat,
    )
        requires
            self.answers_as(known, cache),
            self.candidate_alone(known, wanted, candidate, guard, depth).1,
            depth <= NESTING_LIMIT,
        ensures
            self.copy_candidate(cache, wanted, candidate, guard, depth).0 == self.candidate_alone(
                known,
                wanted,
                candidate,
                guard,
                depth,
            ).0,
            self.answers_as(
                known,
                self.copy_candidate(cache, wanted, candidate, guard, depth).1,
            ),
        decreases depth, 3nat, 0int, wanted,
    {
        match lookup(self.facts.top_level_types@, candidate) {
            Some(typ) => match typ {
                Type::Function(function) => match self.unifier(function.return_type, wanted) {
                    Some(unified) => {
                        if self.unifier(typ, wanted) is None && self.facts.database.auto_drop {
                            self.constraining_as_alone(
                                known,
                                cache,
                                function.parameters,
                                self.with_unifier(unified),
                                (guard + 1) as u32,
                                depth,
                            );
                        }
                    },
                    None => {},
                },
                _ => {},
            },
            None => {},
        }
    }

    proof fn constraining_as_alone(
        self,
        known: Cache,
        cache: Cache,
        parameters: Parameters,
        bindings: Map<TypeVariableId, Type>,
        guard: u32,
        depth: nat,
    )
        requires
            self.answers_as(known, cache),
            self.constraints_alone(known, parameters, bindings, guard, depth).1,
            depth <= NESTING_LIMIT,
        ensures
            self.copy_constraints_at(cache, parameters, bindings, guard, depth).0
                == self.constraints_alone(known, parameters, bindings, guard, depth).0,
            self.answers_as(
                known,
                self.copy_constraints_at(cache, parameters, bindings, guard, depth).1,
            ),
        decreases depth, 2nat, 0int, parameters,
    {
        match parameters {
            Parameters::Nil => {},
            Parameters::Cons(implicit, typ, rest) => {
                let argument = State::constraint_argument(
                    *typ,
                    self.facts.prelude.copy_type,
                    bindings,
                );
                if implicit && argument is Some {
                    self.asking_as_alone(known, cache, argument->0, guard, depth);
                    let (copy, after) = self.copy_at(cache, argument->0, guard, depth);
                    if copy {
                        self.constraining_as_alone(known, after, *rest, bindings, guard, depth);
                    }
                } else {
                    self.constraining_as_alone(known, cache, *rest, bindings, guard, depth);
                }
            },
        }
    }

    /// The question whether the type is `Copy` is settled: a search for it comes to an end before
    /// a limit cuts it short.
    pub open spec fn copy_is_settled(self, typ: Type) -> bool {
        self.unasked().copy_alone(self.copy_search_cache, typ, 0, NESTING_LIMIT as nat).1
    }

    /// Where the question is settled, what is remembered on the way to the answer does not change
    /// it.
    pub proof fn law_remembering_changes_no_answer(self, typ: Type)
        requires
            self.copy_is_settled(typ),
        ensures
            self.is_copy(typ) == self.unasked().copy_alone(
                self.copy_search_cache,
                typ,
                0,
                NESTING_LIMIT as nat,
            ).0,
    {
        let cache = self.copy_search_cache;
        self.unasked().asking_as_alone(cache, cache, typ, 0, NESTING_LIMIT as nat);
    }

    /// What is remembered once the first `count` of `types` were asked for, whatever was found.
    pub open spec fn asked_in_turn(
        self,
        cache: Cache,
        types: Seq<Type>,
        count: int,
        guard: u32,
        depth: nat,
    ) -> Cache
        decreases count,
    {
        if count <= 0 {
            cache
        } else {
            self.copy_at(
                self.asked_in_turn(cache, types, count - 1, guard, depth),
                types[count - 1],
                guard,
                depth,
            ).1
        }
    }

    proof fn asking_on(
        self,
        cache: Cache,
        first: Type,
        rest: Seq<Type>,
        count: int,
        guard: u32,
        depth: nat,
    )
        requires
            0 <= count <= rest.len(),
        ensures
            self.asked_in_turn(cache, seq![first] + rest, count + 1, guard, depth)
                == self.asked_in_turn(
                self.copy_at(cache, first, guard, depth).1,
                rest,
                count,
                guard,
                depth,
            ),
        decreases count,
    {
        let types = seq![first] + rest;
        if count > 0 {
            self.asking_on(cache, first, rest, count - 1, guard, depth);
            assert(types[count] == rest[count - 1]);
        } else {
            assert(self.asked_in_turn(cache, types, 0, guard, depth) == cache);
            assert(types[0] == first);
        }
    }

    /// The elements of a tuple are `Copy` where each of them is, asked in turn: with what is
    /// remembered of those before it.
    pub proof fn law_elements_are_asked_in_turn(
        self,
        cache: Cache,
        types: TypeList,
        guard: u32,
        depth: nat,
    )
        ensures
            self.all_copy_at(cache, types, guard, depth).0 <==> forall|i: int|
                0 <= i < types.items().len() ==> self.copy_at(
                    self.asked_in_turn(cache, types.items(), i, guard, depth),
                    #[trigger] types.items()[i],
                    guard,
                    depth,
                ).0,
        decreases types,
    {
        match types {
            TypeList::Nil => {},
            TypeList::Cons(first, rest) => {
                let items = types.items();
                let later = rest.items();
                assert(items =~= seq![*first] + later);
                assert(items[0] == *first);
                assert(self.asked_in_turn(cache, items, 0, guard, depth) == cache);
                let after = self.copy_at(cache, *first, guard, depth).1;
                self.law_elements_are_asked_in_turn(after, *rest, guard, depth);
                assert forall|i: int| 0 <= i < later.len() implies self.asked_in_turn(
                    cache,
                    items,
                    i + 1,
                    guard,
                    depth,
                ) == self.asked_in_turn(after, later, i, guard, depth) && #[trigger] later[i]
                    == items[i + 1] by {
                    self.asking_on(cache, *first, later, i, guard, depth);
                }
                if self.copy_at(cache, *first, guard, depth).0 {
                    if self.all_copy_at(after, *rest, guard, depth).0 {
                        assert forall|i: int| 0 <= i < items.len() implies self.copy_at(
                            self.asked_in_turn(cache, items, i, guard, depth),
                            #[trigger] items[i],
                            guard,
                            depth,
                        ).0 by {
                            if i > 0 {
                                assert(later[i - 1] == items[i]);
                            }
                        }
                    } else {
                        let i = choose|i: int|
                            0 <= i < later.len() && !self.copy_at(
                                self.asked_in_turn(after, later, i, guard, depth),
                                #[trigger] later[i],
                                guard,
                                depth,
                            ).0;
                        assert(items[i + 1] == later[i]);
                    }
                }
            },
        }
    }

    /// This state once it was asked for each of the first `count` of `types` whether it is `Copy`.
    pub open spec fn after_asking(self, types: Seq<Type>, count: int) -> State
        decreases count,
    {
        if count <= 0 {
            self
        } else {
            self.after_asking(types, count - 1).copy_asked(types[count - 1])
        }
    }

    /// A search for `Copy` of the type does not come upon types that nest deeper than the limit.
    pub open spec fn nests_within_limit(self, typ: Type) -> bool {
        self.unasked().copy_at(self.copy_search_cache, typ, 0, (NESTING_LIMIT - 1) as nat)
            == self.copy_answer(typ)
    }

    proof fn asking_leaves_what_is_remembered(self, types: Seq<Type>, count: int)
        requires
            0 <= count <= types.len(),
            forall|i: int|
                0 <= i < count ==> self.after_asking(types, i).nests_within_limit(
                    #[trigger] types[i],
                ),
        ensures
            self.after_asking(types, count) == (State {
                copy_search_cache: self.unasked().asked_in_turn(
                    self.copy_search_cache,
                    types,
                    count,
                    0,
                    (NESTING_LIMIT - 1) as nat,
                ),
                ..self
            }),
        decreases count,
    {
        if count > 0 {
            self.asking_leaves_what_is_remembered(types, count - 1);
            let before = self.after_asking(types, count - 1);
            assert(before.nests_within_limit(types[count - 1]));
            assert(before.unasked() == self.unasked());
        }
    }

    /// A tuple is `Copy` where each of its elements is, when it is asked for one after the other.
    pub proof fn law_a_tuple_is_copy_if_each_element_in_turn_is(self, typ: Type)
        requires
            self.follow(typ) is Tuple,
            forall|i: int|
                0 <= i < self.follow(typ)->Tuple_0.items().len() ==> self.after_asking(
                    self.follow(typ)->Tuple_0.items(),
                    i,
                ).nests_within_limit(#[trigger] self.follow(typ)->Tuple_0.items()[i]),
        ensures
            self.is_copy(typ) <==> forall|i: int|
                0 <= i < self.follow(typ)->Tuple_0.items().len() ==> self.after_asking(
                    self.follow(typ)->Tuple_0.items(),
                    i,
                ).is_copy(#[trigger] self.follow(typ)->Tuple_0.items()[i]),
    {
        let elements = *self.follow(typ)->Tuple_0;
        let items = elements.items();
        let depth = (NESTING_LIMIT - 1) as nat;
        let cache = self.copy_search_cache;
        assert(self.unasked().follow(typ) == self.follow(typ));
        self.unasked().law_elements_are_asked_in_turn(cache, elements, 0, depth);
        assert forall|i: int| 0 <= i < items.len() implies self.after_asking(items, i).is_copy(
            #[trigger] items[i],
        ) == self.unasked().copy_at(
            self.unasked().asked_in_turn(cache, items, i, 0, depth),
            items[i],
            0,
            depth,
        ).0 by {
            self.asking_leaves_what_is_remembered(items, i);
            assert(self.after_asking(items, i).unasked() == self.unasked());
            assert(self.after_asking(items, i).nests_within_limit(items[i]));
        }
    }

    /// Each of `types` gets the answer it gets alone when those before it, all of them `Copy`, were
    /// asked for first.
    pub open spec fn are_asked_as_alone(self, types: Seq<Type>) -> bool {
        forall|i: int|
            0 <= i < types.len() && (forall|j: int| 0 <= j < i ==> self.is_copy(#[trigger] types[j]))
                ==> self.unasked().copy_at(
                self.unasked().asked_in_turn(
                    self.copy_search_cache,
                    types,
                    i,
                    0,
                    (NESTING_LIMIT - 1) as nat,
                ),
                #[trigger] types[i],
                0,
                (NESTING_LIMIT - 1) as nat,
            ).0 == self.is_copy(types[i])
    }

    /// A tuple is `Copy` where each of its elements is, asked alone. Left out are tuples with an
    /// element that is answered otherwise behind those before it: what is remembered of a search
    /// that a limit cut short may make up for another one, or stand in its way.
    pub proof fn law_a_tuple_is_copy_if_its_elements_are(self, typ: Type)
        requires
            self.follow(typ) is Tuple,
            self.are_asked_as_alone(self.follow(typ)->Tuple_0.items()),
        ensures
            self.is_copy(typ) <==> forall|i: int|
                0 <= i < self.follow(typ)->Tuple_0.items().len() ==> self.is_copy(
                    #[trigger] self.follow(typ)->Tuple_0.items()[i],
                ),
    {
        let elements = *self.follow(typ)->Tuple_0;
        let items = elements.items();
        let depth = (NESTING_LIMIT - 1) as nat;
        assert(self.unasked().follow(typ) == self.follow(typ));
        self.unasked().law_elements_are_asked_in_turn(self.copy_search_cache, elements, 0, depth);
        if self.is_copy(typ) {
            assert forall|i: int| 0 <= i < items.len() implies self.is_copy(#[trigger] items[i]) by {
                self.elements_before_are_copy(items, i + 1);
            }
        }
    }

    proof fn elements_before_are_copy(self, types: Seq<Type>, count: int)
        requires
            0 <= count <= types.len(),
            self.are_asked_as_alone(types),
            forall|i: int|
                0 <= i < types.len() ==> self.unasked().copy_at(
                    self.unasked().asked_in_turn(
                        self.copy_search_cache,
                        types,
                        i,
                        0,
                        (NESTING_LIMIT - 1) as nat,
                    ),
                    #[trigger] types[i],
                    0,
                    (NESTING_LIMIT - 1) as nat,
                ).0,
        ensures
            forall|i: int| 0 <= i < count ==> self.is_copy(#[trigger] types[i]),
        decreases count,
    {
        if count > 0 {
            self.elements_before_are_copy(types, count - 1);
            assert(self.is_copy(types[count - 1]));
        }
    }

    proof fn settled_elements(self, types: TypeList, index: int)
        requires
            self.unasked().all_copy_alone(
                self.copy_search_cache,
                types,
                0,
                (NESTING_LIMIT - 1) as nat,
            ).1,
            0 <= index < types.items().len(),
            forall|j: int| 0 <= j < index ==> self.is_copy(#[trigger] types.items()[j]),
        ensures
            self.unasked().copy_alone(
                self.copy_search_cache,
                types.items()[index],
                0,
                (NESTING_LIMIT - 1) as nat,
            ) == (self.is_copy(types.items()[index]), true),
        decreases types,
    {
        match types {
            TypeList::Nil => {},
            TypeList::Cons(first, rest) => {
                let cache = self.copy_search_cache;
                let full = NESTING_LIMIT as nat;
                let items = types.items();
                assert(items =~= seq![*first] + rest.items());
                assert(items[0] == *first);
                self.unasked().more_room(cache, *first, 0, (full - 1) as nat, 0, full);
                self.law_remembering_changes_no_answer(*first);
                if index > 0 {
                    assert(self.is_copy(items[0]));
                    assert forall|j: int| 0 <= j < index - 1 implies self.is_copy(
                        #[trigger] rest.items()[j],
                    ) by {
                        assert(items[j + 1] == rest.items()[j]);
                    }
                    self.settled_elements(*rest, index - 1);
                    assert(items[index] == rest.items()[index - 1]);
                }
            },
        }
    }

    proof fn settled_elements_add_answers(self, types: TypeList, count: int)
        requires
            self.unasked().all_copy_alone(
                self.copy_search_cache,
                types,
                0,
                (NESTING_LIMIT - 1) as nat,
            ).1,
            0 <= count <= types.items().len(),
            forall|j: int| 0 <= j < count ==> self.is_copy(#[trigger] types.items()[j]),
        ensures
            self.unasked().answers_as(
                self.copy_search_cache,
                self.unasked().asked_in_turn(
                    self.copy_search_cache,
                    types.items(),
                    count,
                    0,
                    (NESTING_LIMIT - 1) as nat,
                ),
            ),
        decreases count,
    {
        if count > 0 {
            let cache = self.copy_search_cache;
            let depth = (NESTING_LIMIT - 1) as nat;
            let items = types.items();
            self.settled_elements_add_answers(types, count - 1);
            self.settled_elements(types, count - 1);
            let before = self.unasked().asked_in_turn(cache, items, count - 1, 0, depth);
            self.unasked().asking_as_alone(cache, before, items[count - 1], 0, depth);
        }
    }

    /// Where the question is settled for a tuple, its elements are answered as they are alone, so
    /// that the tuple is `Copy` where each of them is.
    pub proof fn law_settled_elements_are_asked_as_alone(self, typ: Type)
        requires
            self.follow(typ) is Tuple,
            self.copy_is_settled(typ),
        ensures
            self.are_asked_as_alone(self.follow(typ)->Tuple_0.items()),
    {
        let elements = *self.follow(typ)->Tuple_0;
        let items = elements.items();
        let cache = self.copy_search_cache;
        let depth = (NESTING_LIMIT - 1) as nat;
        assert(self.unasked().follow(typ) == self.follow(typ));
        assert forall|i: int|
            0 <= i < items.len() && (forall|j: int| 0 <= j < i ==> self.is_copy(#[trigger] items[j]))
            implies self.unasked().copy_at(
            self.unasked().asked_in_turn(cache, items, i, 0, depth),
            #[trigger] items[i],
            0,
            depth,
        ).0 == self.is_copy(items[i]) by {
            self.settled_elements_add_answers(elements, i);
            self.settled_elements(elements, i);
            let before = self.unasked().asked_in_turn(cache, items, i, 0, depth);
            self.unasked().asking_as_alone(cache, before, items[i], 0, depth);
        }
    }

    /// The type is `Copy` without a search: it is primitive, or one of functions or of handles.
    pub open spec fn is_plain(self, typ: Type) -> bool {
        self.follow(typ) is Primitive || self.follow(typ) is Function || self.is_shared(
            self.follow(typ),
        )
    }

    proof fn plain_elements_are_copy(self, types: TypeList, depth: nat)
        requires
            0 < depth,
            forall|i: int| 0 <= i < types.items().len() ==> self.is_plain(#[trigger] types.items()[i]),
        ensures
            self.unasked().all_copy_alone(self.copy_search_cache, types, 0, depth) == (true, true),
        decreases types,
    {
        match types {
            TypeList::Nil => {},
            TypeList::Cons(first, rest) => {
                let items = types.items();
                assert(items =~= seq![*first] + rest.items());
                assert(self.is_plain(items[0]));
                assert forall|i: int| 0 <= i < rest.items().len() implies self.is_plain(
                    #[trigger] rest.items()[i],
                ) by {
                    assert(items[i + 1] == rest.items()[i]);
                }
                self.plain_elements_are_copy(*rest, depth);
                self.shared_type_is_one_for_all(*first);
                assert(self.unasked().follow(*first) == self.follow(*first));
                assert(self.unasked().copy_alone(self.copy_search_cache, *first, 0, depth) == (
                    true,
                    true,
                ));
            },
        }
    }

    proof fn shared_type_is_one_for_all(self, typ: Type)
        ensures
            self.unasked().is_shared(self.follow(typ)) == self.is_shared(self.follow(typ)),
            self.is_shared(self.follow(typ)) ==> !(self.follow(typ) is Tuple),
    {
        self.defining_item_is_one_for_all(self.follow(typ), NESTING_LIMIT as nat);
    }

    proof fn defining_item_is_one_for_all(self, typ: Type, depth: nat)
        ensures
            self.unasked().defining_item_at(typ, depth) == self.defining_item_at(typ, depth),
        decreases depth,
    {
        if depth > 0 {
            match self.follow(typ) {
                Type::Application(constructor, _) => {
                    self.defining_item_is_one_for_all(*constructor, (depth - 1) as nat);
                },
                _ => {},
            }
        }
    }

    /// A tuple of primitive values, of functions and of handles is `Copy`, and so is the empty one.
    pub proof fn law_tuples_of_plain_values_are_copy(self, typ: Type)
        requires
            self.follow(typ) is Tuple,
            forall|i: int|
                0 <= i < self.follow(typ)->Tuple_0.items().len() ==> self.is_plain(
                    #[trigger] self.follow(typ)->Tuple_0.items()[i],
                ),
        ensures
            self.is_copy(typ),
    {
        self.plain_elements_are_copy(*self.follow(typ)->Tuple_0, (NESTING_LIMIT - 1) as nat);
        self.law_remembering_changes_no_answer(typ);
    }
}

} // verus!

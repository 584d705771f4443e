//! What holds of the variables a closure captures, and of how it holds them.

#[allow(unused_imports)]
use crate::cst::{ContextState, ExprForm};
#[allow(unused_imports)]
use crate::ids::{ExprId, Location, NameId, NESTING_LIMIT};
#[allow(unused_imports)]
use crate::type_inference::checker::{Report, Request, State};
#[allow(unused_imports)]
use crate::type_inference::free_variables::own_name;
#[allow(unused_imports)]
use crate::type_inference::moves::Place;
#[allow(unused_imports)]
use crate::types::{PrimitiveType, ReferenceKind, Type, TypeList};
use vstd::prelude::*;

verus! {

/// `slot` is a reference of the given kind to a `typ`, of a lifetime that is still open.
pub open spec fn refers(slot: Type, kind: ReferenceKind, typ: Type) -> bool {
    match slot {
        Type::Application(constructor, arguments) => *constructor == Type::Primitive(
            PrimitiveType::Reference(kind),
        ) && match *arguments {
            TypeList::Cons(lifetime, rest) => *lifetime is Variable && match *rest {
                TypeList::Cons(inner, end) => *inner == typ && *end == TypeList::Nil,
                TypeList::Nil => false,
            },
            TypeList::Nil => false,
        },
        _ => false,
    }
}

/// The list at `index`, counted from its head.
pub open spec fn item_at(list: TypeList, index: nat) -> Option<Type>
    decreases index,
{
    match list {
        TypeList::Nil => None,
        TypeList::Cons(first, rest) => if index == 0 {
            Some(*first)
        } else {
            item_at(*rest, (index - 1) as nat)
        },
    }
}

proof fn items_are_listed(items: Seq<Type>, index: nat)
    ensures
        item_at(TypeList::of(items), index) == if index < items.len() {
            Some(items[index as int])
        } else {
            None
        },
    decreases items.len(),
{
    if items.len() > 0 && index > 0 {
        items_are_listed(items.drop_first(), (index - 1) as nat);
    }
}

impl State {
    proof fn borrowing_only_asks(self, names: Seq<NameId>, count: int)
        ensures
            self.borrowed_among(names, count).1.only_asked(self),
        decreases count,
    {
        if count > 0 {
            self.borrowing_only_asks(names, count - 1);
        }
    }

    proof fn borrowed_are_named(self, names: Seq<NameId>, count: int, name: NameId)
        requires
            0 <= count <= names.len(),
            self.borrowed_among(names, count).0.contains(name),
        ensures
            names.take(count).contains(name),
        decreases count,
    {
        if count > 0 {
            let before = self.borrowed_among(names, count - 1).0;
            let borrowed = self.borrowed_among(names, count).0;
            let i = choose|i: int| 0 <= i < borrowed.len() && borrowed[i] == name;
            let taken = names.take(count);
            if i < before.len() {
                assert(before[i] == name);
                self.borrowed_are_named(names, count - 1, name);
                let earlier = names.take(count - 1);
                let k = choose|k: int| 0 <= k < earlier.len() && earlier[k] == name;
                assert(taken[k] == name);
            } else {
                assert(taken[count - 1] == name);
            }
        }
    }

    /// A capture is borrowed if and only if it is not mutable, is no reference or raw pointer
    /// itself, and is not `Copy`. Gives the state in which it was asked whether it is, which
    /// differs in nothing but in what is remembered.
    pub proof fn law_what_may_dangle_is_borrowed(self, names: Seq<NameId>, count: int, index: int) -> (
    asked: State)
        requires
            names.no_duplicates(),
            0 <= index < count <= names.len(),
        ensures
            asked.only_asked(self),
            ({
                let name = names[index];
                let typ = self.type_of_name(name);
                let points = self.name_types.contains_key(name) && (typ.referent(
                    self.bindings,
                ) is Some || typ.pointee(self.bindings) is Some);
                self.borrowed_among(names, count).0.contains(name) <==> {
                    &&& !self.mutable_definitions.contains(name)
                    &&& !points
                    &&& !asked.is_copy(typ)
                }
            }),
        decreases count,
    {
        self.borrowing_only_asks(names, count - 1);
        let name = names[index];
        let (before, state) = self.borrowed_among(names, count - 1);
        let borrowed = self.borrowed_among(names, count).0;
        if index == count - 1 {
            if before.contains(name) {
                self.borrowed_are_named(names, count - 1, name);
                let earlier = names.take(count - 1);
                let k = choose|k: int| 0 <= k < earlier.len() && earlier[k] == name;
                assert(names[k] == names[index]);
                assert(false);
            }
            if borrowed.len() > before.len() {
                assert(borrowed[before.len() as int] == name);
            }
            state
        } else {
            let asked = self.law_what_may_dangle_is_borrowed(names, count - 1, index);
            if before.contains(name) {
                let i = choose|i: int| 0 <= i < before.len() && before[i] == name;
                assert(borrowed[i] == name);
            } else if borrowed.contains(name) {
                let i = choose|i: int| 0 <= i < borrowed.len() && borrowed[i] == name;
                if i < before.len() {
                    assert(before[i] == name);
                }
                assert(name == names[count - 1]);
                assert(false);
            }
            asked
        }
    }

    /// A `move` closure borrows nothing, and a closure borrows nothing but what it captures.
    pub proof fn law_only_captures_are_borrowed(self, names: Seq<NameId>, is_move: bool)
        ensures
            is_move ==> self.borrowed_captures(names, is_move).0.len() == 0,
            forall|name: NameId| #[trigger]
                self.borrowed_captures(names, is_move).0.contains(name) ==> names.contains(name),
            self.borrowed_captures(names, is_move).1.only_asked(self),
    {
        self.borrowing_only_asks(names, names.len() as int);
        assert forall|name: NameId| #[trigger]
            self.borrowed_captures(names, is_move).0.contains(name) implies names.contains(
            name,
        ) by {
            if !is_move && self.elaborates_drops() {
                self.borrowed_are_named(names, names.len() as int, name);
                assert(names.take(names.len() as int) =~= names);
            }
        }
    }

    /// The environment of a closure has a slot for each capture, in their order: a reference that
    /// can be written through to a mutable variable, a plain reference to a borrowed one, and the
    /// value of any other. A `move` closure holds mutable variables by value too.
    pub proof fn law_an_environment_holds_each_capture(
        self,
        names: Seq<NameId>,
        is_move: bool,
        borrowed: Seq<NameId>,
        count: int,
    )
        requires
            0 <= count <= names.len(),
        ensures
            ({
                let (slots, after) = self.env_slots(names, is_move, borrowed, count);
                &&& slots.len() == count
                &&& forall|i: int|
                    0 <= i < count ==> {
                        let name = names[i];
                        let typ = self.type_of_name(name);
                        if self.mutable_definitions.contains(name) && !is_move {
                            refers(#[trigger] slots[i], ReferenceKind::Mut, typ)
                        } else if borrowed.contains(name) {
                            refers(slots[i], ReferenceKind::Imm, typ)
                        } else {
                            slots[i] == typ
                        }
                    }
                &&& after == (State { next_variable: after.next_variable, ..self })
            }),
        decreases count,
    {
        if count > 0 {
            self.law_an_environment_holds_each_capture(names, is_move, borrowed, count - 1);
        }
    }

    /// A closure whose environment is not a bare pointer has one made of its slots, and a closure
    /// that captures something is recorded with what it captures, in order, and what of that it
    /// borrows. What is borrowed stays with its owner. Gives what is borrowed, the state in which
    /// the slots were made, and the slots.
    pub proof fn law_a_closure_is_recorded_with_its_captures(
        self,
        id: ExprId,
        expected: Type,
        self_name: Option<NameId>,
        is_move: bool,
    ) -> (stages: (Seq<NameId>, State, Seq<Type>))
        ensures
            ({
                let (borrowed, asked, slots) = stages;
                let after = self.closure_checked(id, expected, self_name, is_move);
                let names = self.context.free_names(id, own_name(self_name));
                let bare = match expected.followed(self.bindings) {
                    Type::Application(constructor, _) => constructor.followed(self.bindings),
                    typ => typ,
                } == Type::Primitive(PrimitiveType::Pointer);
                &&& if bare {
                    borrowed.len() == 0 && asked == self && after.requests == self.requests
                } else {
                    &&& (borrowed, asked) == self.borrowed_captures(names, is_move)
                    &&& slots == asked.env_slots(names, is_move, borrowed, names.len() as int).0
                    &&& after.requests.len() == self.requests.len() + 1
                    &&& after.requests.drop_last() == self.requests
                    &&& after.requests.last() matches Request::UnifyEnvironment {
                        actual,
                        expected: wanted,
                        expr,
                    } && wanted == expected && expr == id && if names.len() == 0 {
                        actual == Type::Primitive(PrimitiveType::NoClosureEnv)
                    } else {
                        actual matches Type::Tuple(elements) && forall|i: nat| #[trigger]
                            item_at(*elements, i) == if i < slots.len() {
                                Some(slots[i as int])
                            } else {
                                None
                            }
                    }
                }
                &&& names.len() == 0 ==> after.context == self.context && after.captured_names
                    == self.captured_names
                &&& names.len() > 0 ==> {
                    &&& after.context.closure_environments == self.context.closure_environments.insert(
                        id,
                        names,
                    )
                    &&& after.context.borrowed_captures == self.context.borrowed_captures.insert(
                        id,
                        borrowed,
                    )
                    &&& forall|other: ExprId| #[trigger]
                        after.context.move_closures.contains(other)
                            <==> self.context.move_closures.contains(other) || (is_move && other
                            == id)
                    &&& forall|name: NameId| #[trigger]
                        after.captured_names.contains(name) <==> self.captured_names.contains(name)
                            && !borrowed.contains(name)
                }
                &&& after.name_types == self.name_types
                &&& after.moves == self.moves
                &&& after.mutable_definitions == self.mutable_definitions
            }),
    {
        let names = self.context.free_names(id, own_name(self_name));
        if crate::type_inference::free_variables::pointer_env(expected, self.bindings) {
            (Seq::empty(), self, Seq::empty())
        } else {
            let (borrowed, asked) = self.borrowed_captures(names, is_move);
            self.law_only_captures_are_borrowed(names, is_move);
            let (slots, made) = asked.env_slots(names, is_move, borrowed, names.len() as int);
            asked.law_an_environment_holds_each_capture(
                names,
                is_move,
                borrowed,
                names.len() as int,
            );
            let after = self.closure_checked(id, expected, self_name, is_move);
            assert(after.requests.drop_last() =~= self.requests);
            assert forall|i: nat| #[trigger]
                item_at(TypeList::of(slots), i) == if i < slots.len() {
                    Some(slots[i as int])
                } else {
                    None
                } by {
                items_are_listed(slots, i);
            }
            (borrowed, asked, slots)
        }
    }

    /// A lambda captures a name if and only if it uses it without binding it first.
    pub proof fn law_what_is_used_from_outside_is_captured(self, id: ExprId, name: NameId)
        ensures
            self.captures(id, name) <==> self.context.is_used_free(
                id,
                name,
                NESTING_LIMIT as nat,
            ),
    {
        self.context.law_free_names_are_used_and_not_bound(id, Set::empty(), name);
    }

    /// A branch of a handler is said to resume if and only if its body uses the name without
    /// binding it first.
    pub proof fn law_a_branch_that_resumes_uses_the_name(self, name: NameId, branch: ExprId)
        ensures
            self.uses_resume(name, branch) <==> match self.context.expr(branch) {
                ExprForm::Lambda { body, .. } => self.context.is_used_free(
                    body,
                    name,
                    NESTING_LIMIT as nat,
                ),
                _ => false,
            },
    {
        match self.context.expr(branch) {
            ExprForm::Lambda { body, .. } => {
                self.context.law_free_names_are_used_and_not_bound(body, Set::empty(), name);
            },
            _ => {},
        }
    }

    /// Apart from what was asked, reported and moved, this is `before`.
    pub open spec fn only_moved(self, before: State) -> bool {
        self == (State {
            copy_search_cache: self.copy_search_cache,
            diagnostics: self.diagnostics,
            moves: self.moves,
            ..before
        })
    }

    proof fn capturing_only_moves(self, names: Seq<NameId>, location: Location, count: int)
        ensures
            self.moved_captures(names, location, count).1.only_moved(self),
        decreases count,
    {
        if count > 0 {
            self.capturing_only_moves(names, location, count - 1);
        }
    }

    proof fn owned_are_named(self, names: Seq<NameId>, location: Location, count: int, name: NameId)
        requires
            0 <= count <= names.len(),
            self.moved_captures(names, location, count).0.contains(name),
        ensures
            names.take(count).contains(name),
        decreases count,
    {
        if count > 0 {
            let before = self.moved_captures(names, location, count - 1).0;
            let owned = self.moved_captures(names, location, count).0;
            let i = choose|i: int| 0 <= i < owned.len() && owned[i] == name;
            let taken = names.take(count);
            if i < before.len() {
                assert(before[i] == name);
                self.owned_are_named(names, location, count - 1, name);
                let earlier = names.take(count - 1);
                let k = choose|k: int| 0 <= k < earlier.len() && earlier[k] == name;
                assert(taken[k] == name);
            } else {
                assert(taken[count - 1] == name);
            }
        }
    }

    /// A `move` closure moves each capture that is not `Copy`, there where the closure is, and owns
    /// those of them that are not mutable. Gives the state in which it was asked whether the capture
    /// is `Copy`.
    pub proof fn law_a_capture_that_is_no_copy_is_moved(
        self,
        names: Seq<NameId>,
        location: Location,
        count: int,
        index: int,
    ) -> (asked: State)
        requires
            names.no_duplicates(),
            0 <= index < count <= names.len(),
        ensures
            asked.only_moved(self),
            ({
                let name = names[index];
                let (owned, after) = self.moved_captures(names, location, count);
                let copy = asked.is_copy(self.type_of_name(name));
                let place = if self.binding_places.contains_key(name) {
                    self.binding_places[name]
                } else {
                    (name, Seq::empty())
                };
                &&& owned.contains(name) <==> !copy && !self.mutable_definitions.contains(name)
                &&& !copy ==> after.moves.moved.contains_key(place) && after.moves.moved[place]
                    == location
            }),
        decreases count,
    {
        self.capturing_only_moves(names, location, count - 1);
        let name = names[index];
        let (before, state) = self.moved_captures(names, location, count - 1);
        let owned = self.moved_captures(names, location, count).0;
        if index == count - 1 {
            if before.contains(name) {
                self.owned_are_named(names, location, count - 1, name);
                let earlier = names.take(count - 1);
                let k = choose|k: int| 0 <= k < earlier.len() && earlier[k] == name;
                assert(names[k] == names[index]);
                assert(false);
            }
            if owned.len() > before.len() {
                assert(owned[before.len() as int] == name);
            }
            state
        } else {
            let asked = self.law_a_capture_that_is_no_copy_is_moved(
                names,
                location,
                count - 1,
                index,
            );
            if before.contains(name) {
                let i = choose|i: int| 0 <= i < before.len() && before[i] == name;
                assert(owned[i] == name);
            } else if owned.contains(name) {
                let i = choose|i: int| 0 <= i < owned.len() && owned[i] == name;
                if i < before.len() {
                    assert(before[i] == name);
                }
                assert(name == names[count - 1]);
                assert(false);
            }
            asked
        }
    }

    /// Nothing is moved by a `move` closure but its captures.
    pub proof fn law_only_captures_are_moved(
        self,
        names: Seq<NameId>,
        location: Location,
        count: int,
        place: Place,
    )
        requires
            0 <= count <= names.len(),
            forall|i: int|
                0 <= i < count ==> place != if self.binding_places.contains_key(
                    #[trigger] names[i],
                ) {
                    self.binding_places[names[i]]
                } else {
                    (names[i], Seq::empty())
                },
        ensures
            ({
                let after = self.moved_captures(names, location, count).1;
                &&& after.moves.moved.contains_key(place) == self.moves.moved.contains_key(place)
                &&& after.moves.moved[place] == self.moves.moved[place]
                &&& after.moves.errored == self.moves.errored
            }),
        decreases count,
    {
        if count > 0 {
            self.law_only_captures_are_moved(names, location, count - 1, place);
            self.capturing_only_moves(names, location, count - 1);
            assert(names[count - 1] == names[count - 1]);
        }
    }

    /// What a `move` closure owns is no longer captured from its owner, and nothing else changes
    /// about what is captured.
    pub proof fn law_what_a_closure_owns_is_not_its_owners(
        self,
        id: ExprId,
        self_name: Option<NameId>,
        name: NameId,
    )
        ensures
            ({
                let names = self.context.free_names(id, own_name(self_name));
                let location = self.context.expr_location(id);
                let (owned, moved) = self.moved_captures(names, location, names.len() as int);
                let after = self.move_captures_recorded(id, self_name);
                &&& after.captured_names.contains(name) <==> self.captured_names.contains(name)
                    && !owned.contains(name)
                &&& after.moves == moved.moves
            }),
    {
        let names = self.context.free_names(id, own_name(self_name));
        self.capturing_only_moves(names, self.context.expr_location(id), names.len() as int);
    }

    /// The handles a closure takes a reference of its own to are those of its captures that are of a
    /// shared type and not mutable.
    pub proof fn law_shared_captures_are_handles(self, names: Seq<NameId>, count: int, name: NameId)
        requires
            0 <= count <= names.len(),
        ensures
            self.shared_among(names, count).contains(name) <==> {
                &&& names.take(count).contains(name)
                &&& self.is_shared(self.type_of_name(name))
                &&& !self.mutable_definitions.contains(name)
            },
        decreases count,
    {
        if count > 0 {
            self.law_shared_captures_are_handles(names, count - 1, name);
            let before = self.shared_among(names, count - 1);
            let shared = self.shared_among(names, count);
            let earlier = names.take(count - 1);
            let taken = names.take(count);
            if shared.contains(name) {
                let i = choose|i: int| 0 <= i < shared.len() && shared[i] == name;
                if i < before.len() {
                    assert(before[i] == name);
                    let k = choose|k: int| 0 <= k < earlier.len() && earlier[k] == name;
                    assert(taken[k] == name);
                } else {
                    assert(taken[count - 1] == name);
                }
            }
            if taken.contains(name) && self.is_shared(self.type_of_name(name))
                && !self.mutable_definitions.contains(name) {
                let k = choose|k: int| 0 <= k < taken.len() && taken[k] == name;
                if k < count - 1 {
                    assert(earlier[k] == name);
                    let i = choose|i: int| 0 <= i < before.len() && before[i] == name;
                    assert(shared[i] == name);
                } else {
                    assert(shared[before.len() as int] == name);
                }
            }
        }
    }

    /// The owner of a handle that a closure has its own reference to drops it again, and the
    /// closure's references are released with the variable it is bound to, if there is one.
    pub proof fn law_a_closure_keeps_its_own_handles(
        self,
        id: ExprId,
        self_name: Option<NameId>,
        name: NameId,
    )
        ensures
            ({
                let names = self.context.free_names(id, own_name(self_name));
                let after = self.shared_captures_recorded(id, self_name);
                let is_handle = |name: NameId|
                    {
                        &&& names.contains(name)
                        &&& self.is_shared(self.type_of_name(name))
                        &&& !self.mutable_definitions.contains(name)
                    };
                &&& after.captured_names.contains(name) <==> self.captured_names.contains(name)
                    && !is_handle(name)
                &&& self_name matches Some(binding) ==> is_handle(name)
                    ==> after.shared_closure_captures.contains_key(binding)
                    && after.shared_closure_captures[binding].contains(name)
                &&& self_name is None ==> after.shared_closure_captures
                    == self.shared_closure_captures
            }),
    {
        let names = self.context.free_names(id, own_name(self_name));
        self.law_shared_captures_are_handles(names, names.len() as int, name);
        assert(names.take(names.len() as int) =~= names);
        let shared = self.shared_among(names, names.len() as int);
        if shared.contains(name) {
            assert(shared.len() > 0);
        }
    }
}

} // verus!

//! What making drops leaves alone, and what is dropped.

#[allow(unused_imports)]
use crate::database::FieldForm;
#[allow(unused_imports)]
use crate::ids::{ExprId, Location, NameId, PatternId, TopLevelId, NESTING_LIMIT};
#[allow(unused_imports)]
use crate::type_inference::checker::{DropScopeKind, ScopeState, State};
#[allow(unused_imports)]
use crate::type_inference::drop_elaboration::{
    declared_in, edge_moves, moved_in_some, unwound, with_all_new,
};
#[allow(unused_imports)]
use crate::type_inference::drop_synthesis::payload_field;
#[allow(unused_imports)]
use crate::type_inference::moves::{field_of, is_under, moved_under, MoveTracker, Moves, Place};
#[allow(unused_imports)]
use crate::types::Type;
use vstd::prelude::*;

verus! {

impl State {
    /// In `after`, expressions were added to this state and none changed, and what was moved, what
    /// scopes declare, what closures captured and what types stand for is as it was.
    pub open spec fn only_grows_into(self, after: State) -> bool {
        &&& after.facts == self.facts
        &&& after.bindings == self.bindings
        &&& after.moves == self.moves
        &&& after.drop_scopes == self.drop_scopes
        &&& after.function_local_names == self.function_local_names
        &&& after.captured_names == self.captured_names
        &&& after.shared_closure_captures == self.shared_closure_captures
        &&& after.drop_expansion_depth == self.drop_expansion_depth
        &&& self.context.exprs.len() <= after.context.exprs.len()
        &&& forall|i: int|
            0 <= i < self.context.exprs.len() ==> #[trigger] after.context.exprs[i]
                == self.context.exprs[i]
    }

    proof fn grows_through(self, between: State, after: State)
        requires
            self.only_grows_into(between),
            between.only_grows_into(after),
        ensures
            self.only_grows_into(after),
    {
        assert forall|i: int| 0 <= i < self.context.exprs.len() implies #[trigger] after.context.exprs[i]
            == self.context.exprs[i] by {
            assert(between.context.exprs[i] == self.context.exprs[i]);
        }
    }

    proof fn place_expr_grows(self, place: Place, typ: Type, location: Location)
        ensures
            self.only_grows_into(self.place_expr(place, typ, location).1),
        decreases place.1.len(),
    {
        if place.1.len() > 0 {
            let known = place.1.len() == 1 && self.name_types.contains_key(place.0);
            let parent_type = if known {
                self.name_types[place.0]
            } else {
                self.fresh_type()
            };
            let typed = if known {
                self
            } else {
                self.with_fresh_type()
            };
            typed.place_expr_grows((place.0, place.1.drop_last()), parent_type, location);
        }
    }

    proof fn drop_call_grows(self, place: Place, typ: Type, location: Location)
        ensures
            self.only_grows_into(self.drop_call(place, typ, location).1),
    {
        self.place_expr_grows(place, typ, location);
    }

    proof fn sequenced_grows(self, drops: Seq<ExprId>, location: Location)
        ensures
            self.only_grows_into(self.sequenced(drops, location).1),
    {
    }

    proof fn drop_grows(self, place: Place, typ: Type, location: Location, depth: nat)
        ensures
            self.only_grows_into(self.drop_of(place, typ, location, depth).1),
        decreases depth, 0nat, 0int,
    {
        if depth > 0 {
            let below = (depth - 1) as nat;
            self.closure_drop_grows(place.0, typ, location, below);
            let followed = self.follow(typ);
            let asked = self.copy_asked(followed);
            assert(self.only_grows_into(asked));
            asked.drop_of_copy_grows(place, followed, location, below);
            asked.drop_of_owner_grows(place, followed, location, below);
            self.grows_through(asked, asked.drop_of_copy(place, followed, location, below).1);
            self.grows_through(asked, asked.drop_of_owner(place, followed, location, below).1);
        }
    }

    proof fn drop_of_copy_grows(self, place: Place, typ: Type, location: Location, depth: nat)
        ensures
            self.only_grows_into(self.drop_of_copy(place, typ, location, depth).1),
        decreases depth, 6nat, 0int,
    {
        self.place_expr_grows(place, typ, location);
        self.structural_drop_grows(place, typ, location, depth);
    }

    proof fn drop_of_owner_grows(self, place: Place, typ: Type, location: Location, depth: nat)
        ensures
            self.only_grows_into(self.drop_of_owner(place, typ, location, depth).1),
        decreases depth, 6nat, 0int,
    {
        self.drop_call_grows(place, typ, location);
        self.structural_drop_grows(place, typ, location, depth);
        self.slot_drops_grow(place, typ, location, depth);
        let (drops, made) = self.slot_drops(place, typ, location, depth);
        made.sequenced_grows(drops, location);
        self.grows_through(made, made.sequenced(drops, location).1);
    }

    proof fn structural_drop_grows(self, place: Place, typ: Type, location: Location, depth: nat)
        ensures
            self.only_grows_into(self.structural_drop(place, typ, location, depth).1),
        decreases depth, 5nat, 0int,
    {
        let inner = State {
            drop_expansion_depth: (self.drop_expansion_depth + 1) as u32,
            ..self
        };
        inner.parts_drop_grows(place, typ, location, depth);
    }

    proof fn parts_drop_grows(self, place: Place, typ: Type, location: Location, depth: nat)
        ensures
            self.only_grows_into(self.parts_drop(place, typ, location, depth).1),
        decreases depth, 4nat, 0int,
    {
        self.sum_drop_grows(place, typ, None, location, depth);
        let fields = self.facts.database.fields_of(typ);
        self.field_drops_grow(place, fields, fields.len() as int, location, depth);
        let (drops, made) = self.field_drops(place, fields, fields.len() as int, location, depth);
        made.sequenced_grows(drops, location);
        self.grows_through(made, made.sequenced(drops, location).1);
    }

    proof fn field_drops_grow(
        self,
        place: Place,
        fields: Seq<FieldForm>,
        count: int,
        location: Location,
        depth: nat,
    )
        ensures
            self.only_grows_into(self.field_drops(place, fields, count, location, depth).1),
        decreases depth, 1nat, count,
    {
        if count > 0 {
            self.field_drops_grow(place, fields, count - 1, location, depth);
            let made = self.field_drops(place, fields, count - 1, location, depth).1;
            let field = fields[count - 1];
            made.drop_grows(field_of(place, field.name), field.typ, location, depth);
            self.grows_through(
                made,
                made.drop_of(field_of(place, field.name), field.typ, location, depth).1,
            );
        }
    }

    proof fn sum_drop_grows(
        self,
        place: Place,
        typ: Type,
        moves: Option<Moves>,
        location: Location,
        depth: nat,
    )
        ensures
            self.only_grows_into(self.sum_drop(place, typ, moves, location, depth).1),
        decreases depth, 3nat, 0int,
    {
        let followed = self.follow(typ);
        match self.sum_of(followed) {
            None => {},
            Some((item, names, variants)) => {
                self.variant_cases_grow(
                    place,
                    item,
                    names,
                    variants,
                    variants.len() as int,
                    moves,
                    location,
                    depth,
                );
                let (cases, any, made) = self.variant_cases(
                    place,
                    item,
                    names,
                    variants,
                    variants.len() as int,
                    moves,
                    location,
                    depth,
                );
                made.place_expr_grows(place, followed, location);
                self.grows_through(made, made.match_on(place, followed, cases, location).1);
            },
        }
    }

    proof fn variant_cases_grow(
        self,
        place: Place,
        item: TopLevelId,
        names: Seq<NameId>,
        variants: Seq<(String, Vec<Type>)>,
        count: int,
        moves: Option<Moves>,
        location: Location,
        depth: nat,
    )
        ensures
            self.only_grows_into(
                self.variant_cases(
                    place,
                    item,
                    names,
                    variants,
                    count,
                    moves,
                    location,
                    depth,
                ).2,
            ),
        decreases depth, 2nat, count,
    {
        if count > 0 {
            self.variant_cases_grow(
                place,
                item,
                names,
                variants,
                count - 1,
                moves,
                location,
                depth,
            );
            let made = self.variant_cases(
                place,
                item,
                names,
                variants,
                count - 1,
                moves,
                location,
                depth,
            ).2;
            let text = variants[count - 1].0@;
            let payloads = variants[count - 1].1@;
            made.payload_drops_grow(
                place,
                text,
                payloads,
                payloads.len() as int,
                moves,
                location,
                depth,
            );
            let dropped = made.payload_drops(
                place,
                text,
                payloads,
                payloads.len() as int,
                moves,
                location,
                depth,
            ).2;
            self.grows_through(made, dropped);
        }
    }

    proof fn payload_drops_grow(
        self,
        place: Place,
        variant: Seq<char>,
        payloads: Seq<Type>,
        count: int,
        moves: Option<Moves>,
        location: Location,
        depth: nat,
    )
        ensures
            self.only_grows_into(
                self.payload_drops(place, variant, payloads, count, moves, location, depth).2,
            ),
        decreases depth, 1nat, count,
    {
        if count > 0 {
            self.payload_drops_grow(place, variant, payloads, count - 1, moves, location, depth);
            let made = self.payload_drops(
                place,
                variant,
                payloads,
                count - 1,
                moves,
                location,
                depth,
            ).2;
            let typ = payloads[count - 1];
            let name = made.next_name();
            let named = made.with_variable("drop_payload"@, typ, location);
            let bound = named.with_pattern(crate::cst::PatternForm::Variable(name), location);
            self.grows_through(made, bound);
            let binding = (name, Seq::empty());
            match moves {
                Some(moves) => {
                    let qualified = field_of(place, payload_field(variant, (count - 1) as nat));
                    let rest = moves.rerooted(qualified, binding);
                    bound.residual_drop_grows(binding, typ, rest, location, depth);
                    self.grows_through(
                        bound,
                        bound.residual_drop(binding, typ, rest, location, depth).1,
                    );
                },
                None => {
                    bound.drop_grows(binding, typ, location, depth);
                    self.grows_through(bound, bound.drop_of(binding, typ, location, depth).1);
                },
            }
        }
    }

    proof fn closure_drop_grows(self, name: NameId, typ: Type, location: Location, depth: nat)
        ensures
            self.only_grows_into(self.closure_drop(name, typ, location, depth).1),
        decreases depth, 5nat, 0int,
    {
        let followed = self.follow(typ);
        self.slot_drops_grow((name, Seq::empty()), followed, location, depth);
        let (drops, made) = self.slot_drops((name, Seq::empty()), followed, location, depth);
        let captures = made.shared_closure_captures[name];
        made.capture_drops_grow(captures, captures.len() as int, location, depth);
        let (more, dropped) = made.capture_drops(captures, captures.len() as int, location, depth);
        self.grows_through(made, dropped);
        if made.shared_closure_captures.contains_key(name) {
            dropped.sequenced_grows(drops + more, location);
            self.grows_through(dropped, dropped.sequenced(drops + more, location).1);
        } else {
            let none = Seq::<ExprId>::empty();
            made.sequenced_grows(drops + none, location);
            self.grows_through(made, made.sequenced(drops + none, location).1);
        }
    }

    proof fn slot_drops_grow(self, place: Place, typ: Type, location: Location, depth: nat)
        ensures
            self.only_grows_into(self.slot_drops(place, typ, location, depth).1),
        decreases depth, 2nat, 0int,
    {
        match self.follow(typ) {
            Type::Function(function) => match self.follow(function.environment) {
                Type::Tuple(slots) => {
                    self.owned_slot_drops_grow(
                        place,
                        typ,
                        slots.items(),
                        slots.items().len() as int,
                        location,
                        depth,
                    );
                },
                _ => {},
            },
            _ => {},
        }
    }

    proof fn owned_slot_drops_grow(
        self,
        place: Place,
        typ: Type,
        slots: Seq<Type>,
        count: int,
        location: Location,
        depth: nat,
    )
        ensures
            self.only_grows_into(
                self.owned_slot_drops(place, typ, slots, count, location, depth).1,
            ),
        decreases depth, 1nat, count,
    {
        if count > 0 {
            self.owned_slot_drops_grow(place, typ, slots, count - 1, location, depth);
            let made = self.owned_slot_drops(place, typ, slots, count - 1, location, depth).1;
            let slot = made.follow(slots[count - 1]);
            let name = made.next_name();
            let named = made.with_variable("env_slot"@, slot, location);
            self.grows_through(made, named);
            named.drop_grows((name, Seq::empty()), slot, location, depth);
            let dropped = named.drop_of((name, Seq::empty()), slot, location, depth).1;
            self.grows_through(named, dropped);
            dropped.place_expr_grows(place, typ, location);
            self.grows_through(dropped, dropped.place_expr(place, typ, location).1);
        }
    }

    proof fn capture_drops_grow(
        self,
        captures: Seq<NameId>,
        count: int,
        location: Location,
        depth: nat,
    )
        ensures
            self.only_grows_into(self.capture_drops(captures, count, location, depth).1),
        decreases depth, 1nat, count,
    {
        if count > 0 {
            self.capture_drops_grow(captures, count - 1, location, depth);
            let made = self.capture_drops(captures, count - 1, location, depth).1;
            let name = captures[count - 1];
            let typ = made.name_types[name];
            made.drop_grows((name, Seq::empty()), typ, location, depth);
            self.grows_through(made, made.drop_of((name, Seq::empty()), typ, location, depth).1);
        }
    }

    proof fn residual_drop_grows(
        self,
        place: Place,
        typ: Type,
        moves: Moves,
        location: Location,
        depth: nat,
    )
        ensures
            self.only_grows_into(self.residual_drop(place, typ, moves, location, depth).1),
        decreases depth, 0nat, 1int,
    {
        let followed = self.follow(typ);
        if depth > 0 {
            if self.is_shared(followed) {
                self.drop_grows(place, followed, location, depth);
            } else if moves.moved_at(place) is None {
                if !moves.moved_below(place) {
                    self.drop_grows(place, typ, location, depth);
                } else {
                    let asked = self.copy_asked(followed);
                    let inner = State {
                        drop_expansion_depth: (asked.drop_expansion_depth + 1) as u32,
                        ..asked
                    };
                    inner.residual_parts_drop_grows(
                        place,
                        followed,
                        moves,
                        location,
                        (depth - 1) as nat,
                    );
                }
            }
        }
    }

    proof fn residual_parts_drop_grows(
        self,
        place: Place,
        typ: Type,
        moves: Moves,
        location: Location,
        depth: nat,
    )
        ensures
            self.only_grows_into(self.residual_parts_drop(place, typ, moves, location, depth).1),
        decreases depth, 4nat, 0int,
    {
        let fields = self.facts.database.fields_of(typ);
        if fields.len() == 0 {
            self.sum_drop_grows(place, typ, Some(moves), location, depth);
        } else {
            let count = fields.len() as int;
            self.residual_field_drops_grow(place, fields, count, moves, location, depth);
            let (drops, made) = self.residual_field_drops(
                place,
                fields,
                count,
                moves,
                location,
                depth,
            );
            made.sequenced_grows(drops, location);
            self.grows_through(made, made.sequenced(drops, location).1);
        }
    }

    proof fn residual_field_drops_grow(
        self,
        place: Place,
        fields: Seq<FieldForm>,
        count: int,
        moves: Moves,
        location: Location,
        depth: nat,
    )
        ensures
            self.only_grows_into(
                self.residual_field_drops(place, fields, count, moves, location, depth).1,
            ),
        decreases depth, 1nat, count,
    {
        if count > 0 {
            self.residual_field_drops_grow(place, fields, count - 1, moves, location, depth);
            let made = self.residual_field_drops(
                place,
                fields,
                count - 1,
                moves,
                location,
                depth,
            ).1;
            let field = fields[count - 1];
            let part = field_of(place, field.name);
            made.residual_drop_grows(part, field.typ, moves, location, depth);
            self.grows_through(
                made,
                made.residual_drop(part, field.typ, moves, location, depth).1,
            );
        }
    }

    /// Making the drop of a place, or of what moves leave of it, changes no expression that is
    /// there, moves nothing, and leaves scopes and captures as they are.
    pub proof fn law_drops_only_add(
        self,
        place: Place,
        typ: Type,
        moves: Moves,
        location: Location,
    )
        ensures
            self.only_grows_into(self.place_dropped(place, typ, location).1),
            self.only_grows_into(self.remainder_dropped(place, typ, moves, location).1),
    {
        reveal(State::place_dropped);
        reveal(State::remainder_dropped);
        self.drop_grows(place, typ, location, NESTING_LIMIT as nat);
        self.residual_drop_grows(place, typ, moves, location, NESTING_LIMIT as nat);
    }

    /// What nothing was moved out of is dropped whole.
    pub proof fn law_untouched_is_dropped_whole(
        self,
        place: Place,
        typ: Type,
        moves: Moves,
        location: Location,
    )
        requires
            moves.moved_at(place) is None,
            !moves.moved_below(place),
            !self.is_shared(self.follow(typ)),
        ensures
            self.remainder_dropped(place, typ, moves, location) == self.place_dropped(
                place,
                typ,
                location,
            ),
    {
        reveal(State::place_dropped);
        reveal(State::remainder_dropped);
    }

    /// A handle to a shared cell is dropped whole, whatever was moved: what the tracker says of it
    /// does not matter. The type may be a variable that is bound to the shared one.
    pub proof fn law_a_handle_is_dropped_whatever_was_moved(
        self,
        place: Place,
        typ: Type,
        moves: Moves,
        location: Location,
    )
        requires
            self.is_shared(self.follow(typ)),
        ensures
            self.remainder_dropped(place, typ, moves, location) == self.place_dropped(
                place,
                typ,
                location,
            ),
            self.remainder_dropped(place, typ, moves, location).1.drop_expansion_depth
                == self.drop_expansion_depth,
    {
        typ.law_following_ends(self.bindings);
        self.law_drops_only_add(place, typ, moves, location);
        reveal(State::place_dropped);
        reveal(State::remainder_dropped);
        assert(self.follow(self.follow(typ)) == self.follow(typ));
    }

    /// What was moved is not dropped. A handle to a shared cell cannot be moved out of.
    pub proof fn law_moved_is_not_dropped(
        self,
        place: Place,
        typ: Type,
        moves: Moves,
        location: Location,
    )
        requires
            moves.moved_at(place) is Some,
            !self.is_shared(self.follow(typ)),
        ensures
            self.remainder_dropped(place, typ, moves, location) == (None::<ExprId>, self),
    {
        reveal(State::remainder_dropped);
    }

    /// A payload is dropped through a binding of its own: what was moved out of the payload is not
    /// dropped with the binding.
    pub proof fn law_what_left_a_payload_is_not_dropped(
        self,
        payload: Place,
        binding: Place,
        part: Place,
        typ: Type,
        moves: Moves,
        location: Location,
    )
        requires
            is_under(part, binding),
            moves.moved.contains_key(moved_under(part, binding, payload)),
            !self.is_shared(self.follow(typ)),
        ensures
            self.remainder_dropped(part, typ, moves.rerooted(payload, binding), location) == (
                None::<ExprId>,
                self,
            ),
    {
        let rest = moves.rerooted(payload, binding);
        assert(rest.moved.contains_key(part));
        self.law_moved_is_not_dropped(part, typ, rest, location);
    }

    /// Nothing is dropped that a closure captured, that only aliases another binding or that the
    /// caller owns.
    pub proof fn law_others_values_are_not_dropped(
        self,
        place: Place,
        typ: Type,
        location: Location,
    )
        requires
            self.captured_names.contains(place.0) || self.borrowed_bindings.contains(place.0)
                || self.borrowed_local_params.contains(place.0),
        ensures
            self.place_dropped(place, typ, location) == (None::<ExprId>, self),
    {
        reveal(State::place_dropped);
    }

    proof fn owned_drops_grow(self, names: Seq<NameId>, count: int, location: Location)
        ensures
            self.only_grows_into(self.owned_drops(names, count, location).1),
        decreases count,
    {
        if count > 0 {
            self.owned_drops_grow(names, count - 1, location);
            let made = self.owned_drops(names, count - 1, location).1;
            let name = names[count - 1];
            if !made.captured_names.contains(name) && made.name_types.contains_key(name) {
                let place = (name, Seq::empty());
                let typ = made.name_types[name];
                made.law_drops_only_add(place, typ, made.moves, location);
                self.grows_through(
                    made,
                    made.remainder_dropped(place, typ, made.moves, location).1,
                );
            }
        }
    }

    proof fn earlier_drops_stay(
        self,
        names: Seq<NameId>,
        fewer: int,
        count: int,
        location: Location,
    )
        requires
            fewer <= count,
        ensures
            self.owned_drops(names, fewer, location).0.is_prefix_of(
                self.owned_drops(names, count, location).0,
            ),
        decreases count,
    {
        if fewer < count && count > 0 {
            self.earlier_drops_stay(names, fewer, count - 1, location);
        }
    }

    /// Leaving scopes changes no expression that is there, and moves nothing.
    pub proof fn law_leaving_only_adds(
        self,
        diverges: bool,
        boundary: DropScopeKind,
        location: Location,
    )
        ensures
            self.elaborates_drops() ==> self.scope_left().only_grows_into(
                self.scope_popped(diverges, location).1,
            ),
            self.only_grows_into(self.exit_drops(boundary, location).1),
    {
        let names = self.drop_scopes.last().names.reverse();
        self.scope_left().owned_drops_grow(names, names.len() as int, location);
        let names = unwound(self.drop_scopes, boundary);
        self.owned_drops_grow(names, names.len() as int, location);
    }

    /// The drop of every local that is still owned is among the drops of the locals, and what
    /// the locals before it left to drop comes first.
    pub proof fn law_what_is_owned_is_dropped(
        self,
        names: Seq<NameId>,
        index: int,
        location: Location,
    )
        requires
            0 <= index < names.len(),
            !self.captured_names.contains(names[index]),
        ensures
            ({
                let (earlier, made) = self.owned_drops(names, index, location);
                let drops = self.owned_drops(names, names.len() as int, location).0;
                made.name_types.contains_key(names[index]) ==> {
                    let drop = made.remainder_dropped(
                        (names[index], Seq::empty()),
                        made.name_types[names[index]],
                        self.moves,
                        location,
                    ).0;
                    drop is Some ==> earlier.len() < drops.len() && drops[earlier.len() as int]
                        == drop->0
                }
            }),
    {
        self.owned_drops_grow(names, index, location);
        self.earlier_drops_stay(names, index + 1, names.len() as int, location);
        let (earlier, made) = self.owned_drops(names, index, location);
        if made.name_types.contains_key(names[index]) {
            let drop = made.remainder_dropped(
                (names[index], Seq::empty()),
                made.name_types[names[index]],
                self.moves,
                location,
            ).0;
            if drop is Some {
                let until = self.owned_drops(names, index + 1, location).0;
                assert(until == earlier.push(drop->0));
                assert(until[earlier.len() as int] == drop->0);
            }
        }
    }

    /// The drop that the end of the innermost scope owes the local declared as its `index`-th, with
    /// its place among the drops of the scope.
    pub open spec fn death(self, index: int, location: Location) -> Option<(int, ExprId)> {
        let names = self.drop_scopes.last().names;
        let name = names[index];
        let (earlier, made) = self.scope_left().owned_drops(
            names.reverse(),
            names.len() - 1 - index,
            location,
        );
        if made.captured_names.contains(name) || !made.name_types.contains_key(name) {
            None
        } else {
            match made.remainder_dropped(
                (name, Seq::empty()),
                made.name_types[name],
                made.moves,
                location,
            ).0 {
                Some(drop) => Some((earlier.len() as int, drop)),
                None => None,
            }
        }
    }

    proof fn death_is_listed(self, index: int, location: Location)
        requires
            self.elaborates_drops(),
            0 <= index < self.drop_scopes.last().names.len(),
            self.death(index, location) is Some,
        ensures
            ({
                let names = self.drop_scopes.last().names.reverse();
                let drops = self.scope_popped(false, location).0;
                let (at, drop) = self.death(index, location)->0;
                &&& at == self.scope_left().owned_drops(
                    names,
                    names.len() - 1 - index,
                    location,
                ).0.len()
                &&& at + 1 == self.scope_left().owned_drops(
                    names,
                    names.len() - index,
                    location,
                ).0.len()
                &&& at < drops.len()
                &&& drops[at] == drop
            }),
    {
        let names = self.drop_scopes.last().names.reverse();
        let count = names.len() as int;
        assert(names[count - 1 - index] == self.drop_scopes.last().names[index]);
        let until = self.scope_left().owned_drops(names, count - index, location).0;
        let (at, drop) = self.death(index, location)->0;
        assert(until.len() == at + 1 && until[at] == drop);
        self.scope_left().earlier_drops_stay(names, count - index, count, location);
    }

    /// The locals of a scope die at its end, in the reverse of the order they are declared in.
    pub proof fn law_locals_die_in_reverse(self, first: int, second: int, location: Location)
        requires
            self.elaborates_drops(),
            0 <= first < second < self.drop_scopes.last().names.len(),
            self.death(first, location) is Some,
            self.death(second, location) is Some,
        ensures
            ({
                let drops = self.scope_popped(false, location).0;
                let (late, last) = self.death(first, location)->0;
                let (early, sooner) = self.death(second, location)->0;
                &&& 0 <= early < late < drops.len()
                &&& drops[early] == sooner
                &&& drops[late] == last
            }),
    {
        let names = self.drop_scopes.last().names.reverse();
        let count = names.len() as int;
        self.death_is_listed(first, location);
        self.death_is_listed(second, location);
        self.scope_left().earlier_drops_stay(names, count - second, count - 1 - first, location);
    }

    proof fn edge_drops_grow(
        self,
        names: Seq<NameId>,
        count: int,
        moves: Moves,
        location: Location,
    )
        ensures
            self.only_grows_into(self.edge_drops(names, count, moves, location).1),
        decreases count,
    {
        if count > 0 {
            self.edge_drops_grow(names, count - 1, moves, location);
            let made = self.edge_drops(names, count - 1, moves, location).1;
            let name = names[count - 1];
            if made.name_types.contains_key(name) {
                let place = (name, Seq::empty());
                let typ = made.name_types[name];
                made.law_drops_only_add(place, typ, moves, location);
                self.grows_through(made, made.remainder_dropped(place, typ, moves, location).1);
            }
        }
    }

    proof fn earlier_edge_drops_stay(
        self,
        names: Seq<NameId>,
        fewer: int,
        count: int,
        moves: Moves,
        location: Location,
    )
        requires
            fewer <= count,
        ensures
            self.edge_drops(names, fewer, moves, location).0.is_prefix_of(
                self.edge_drops(names, count, moves, location).0,
            ),
        decreases count,
    {
        if fewer < count && count > 0 {
            self.earlier_edge_drops_stay(names, fewer, count - 1, moves, location);
        }
    }

    proof fn equalizing_grows(
        self,
        candidates: Seq<NameId>,
        edges: Seq<(ExprId, MoveTracker)>,
        count: int,
    )
        ensures
            self.only_grows_into(self.edges_equalized(candidates, edges, count)),
        decreases count,
    {
        if count > 0 {
            self.equalizing_grows(candidates, edges, count - 1);
            let made = self.edges_equalized(candidates, edges, count - 1);
            let location = made.context.expr_location(edges[count - 1].0);
            let moves = edges[count - 1].1@;
            made.edge_drops_grow(candidates, candidates.len() as int, moves, location);
            self.grows_through(
                made,
                made.edge_drops(candidates, candidates.len() as int, moves, location).1,
            );
        }
    }

    /// Dropping at the ends of branches changes no expression that is there, and moves nothing.
    pub proof fn law_joining_only_adds(
        self,
        before: Moves,
        edges: Seq<(ExprId, MoveTracker)>,
        branch: Moves,
        location: Location,
    )
        ensures
            self.only_grows_into(self.branches_equalized(before, edges)),
            self.only_grows_into(self.implicit_else_drops(before, branch, location).1),
    {
        let candidates = self.branch_candidates(before, edge_moves(edges));
        self.equalizing_grows(candidates, edges, edges.len() as int);
        let candidates = self.branch_candidates(before, seq![branch]);
        self.edge_drops_grow(candidates, candidates.len() as int, before, location);
    }

    /// At the end of a branch that moved a local, the local is not dropped. At the end of one that
    /// did not, the drop of what is left of it is among the drops.
    pub proof fn law_an_edge_drops_what_it_still_owns(
        self,
        names: Seq<NameId>,
        index: int,
        moves: Moves,
        location: Location,
    )
        requires
            0 <= index < names.len(),
        ensures
            ({
                let place = (names[index], Seq::<Seq<char>>::empty());
                let (earlier, made) = self.edge_drops(names, index, moves, location);
                let drops = self.edge_drops(names, names.len() as int, moves, location).0;
                made.name_types.contains_key(names[index]) ==> {
                    let typ = made.name_types[names[index]];
                    let drop = made.remainder_dropped(place, typ, moves, location).0;
                    &&& moves.moved_at(place) is Some && !made.is_shared(made.follow(typ))
                        ==> self.edge_drops(names, index + 1, moves, location) == (earlier, made)
                    &&& drop is Some ==> earlier.len() < drops.len() && drops[earlier.len() as int]
                        == drop->0
                }
            }),
    {
        self.earlier_edge_drops_stay(names, index + 1, names.len() as int, moves, location);
        let place = (names[index], Seq::<Seq<char>>::empty());
        let (earlier, made) = self.edge_drops(names, index, moves, location);
        if made.name_types.contains_key(names[index]) {
            let typ = made.name_types[names[index]];
            if moves.moved_at(place) is Some && !made.is_shared(made.follow(typ)) {
                made.law_moved_is_not_dropped(place, typ, moves, location);
            }
            let drop = made.remainder_dropped(place, typ, moves, location).0;
            if drop is Some {
                let until = self.edge_drops(names, index + 1, moves, location).0;
                assert(until == earlier.push(drop->0));
                assert(until[earlier.len() as int] == drop->0);
            }
        }
    }

    proof fn moved_locals_are_moved(
        self,
        names: Seq<NameId>,
        count: int,
        before: Moves,
        branches: Seq<Moves>,
        name: NameId,
    )
        requires
            0 <= count <= names.len(),
        ensures
            self.moved_locals(names, count, before, branches).contains(name) <==> (names.take(
                count,
            ).contains(name) && moved_in_some(name, before, branches) && self.is_own_local(name)),
        decreases count,
    {
        if count > 0 {
            self.moved_locals_are_moved(names, count - 1, before, branches, name);
            let earlier = names.take(count - 1);
            let moved = self.moved_locals(names, count - 1, before, branches);
            let last = names[count - 1];
            assert(names.take(count) =~= earlier.push(last));
            pushing_adds_one(earlier, last, name);
            pushing_adds_one(moved, last, name);
        }
    }

    /// What may have to be dropped at the ends of branches is every local of the function that
    /// some branch moved and none had moved before, and nothing else.
    pub proof fn law_candidates_are_moved_in_some_branch(
        self,
        before: Moves,
        branches: Seq<Moves>,
        name: NameId,
    )
        ensures
            self.branch_candidates(before, branches).contains(name) <==> (declared_in(
                self.drop_scopes,
            ).contains(name) && moved_in_some(name, before, branches) && self.is_own_local(name)),
    {
        let names = declared_in(self.drop_scopes);
        self.moved_locals_are_moved(names, names.len() as int, before, branches, name);
        assert(names.take(names.len() as int) =~= names);
    }

    proof fn owners_are_bound(self, names: Seq<NameId>, count: int, name: NameId)
        requires
            0 <= count <= names.len(),
        ensures
            self.owners(names, count).contains(name) <==> names.take(count).contains(name)
                && self.owns(name),
        decreases count,
    {
        if count > 0 {
            self.owners_are_bound(names, count - 1, name);
            let earlier = names.take(count - 1);
            let owners = self.owners(names, count - 1);
            let last = names[count - 1];
            assert(names.take(count) =~= earlier.push(last));
            pushing_adds_one(earlier, last, name);
            pushing_adds_one(owners, last, name);
        }
    }

    /// A scope declares each of its locals once, and all that own a value of what a pattern binds.
    pub proof fn law_a_local_is_declared_once(self, pattern: PatternId, name: NameId)
        requires
            self.elaborates_drops(),
            self.drop_scopes.len() > 0,
            self.drop_scopes.last().names.no_duplicates(),
        ensures
            self.locals_registered(pattern).drop_scopes.last().names.no_duplicates(),
            self.locals_registered(pattern).drop_scopes.last().names.contains(name) <==> (
            self.drop_scopes.last().names.contains(name) || (self.bound_names(pattern).contains(
                name,
            ) && self.owns(name))),
    {
        let bound = self.bound_names(pattern);
        let names = self.owners(bound, bound.len() as int);
        self.owners_are_bound(bound, bound.len() as int, name);
        assert(bound.take(bound.len() as int) =~= bound);
        adding_new_adds_once(self.drop_scopes.last().names, names, names.len() as int, name);
        assert(names.take(names.len() as int) =~= names);
    }

    /// Leaving a scope that was just entered gives back the state it was entered in.
    pub proof fn law_leaving_undoes_entering(self, kind: DropScopeKind, location: Location)
        ensures
            self.scope_entered(kind).scope_popped(false, location) == (Seq::<ExprId>::empty(), self),
            self.scope_entered(kind).scope_popped(true, location) == (Seq::<ExprId>::empty(), self),
    {
        if self.elaborates_drops() {
            let entered = self.scope_entered(kind);
            assert(entered.scope_left() =~= self);
            assert(entered.drop_scopes.last().names.reverse() =~= Seq::<NameId>::empty());
        }
    }

    /// While values are not dropped automatically, nothing is elaborated.
    pub proof fn law_nothing_is_elaborated_by_hand(
        self,
        kind: DropScopeKind,
        location: Location,
        expr: ExprId,
        pattern: PatternId,
    )
        requires
            !self.facts.database.auto_drop,
        ensures
            self.scope_entered(kind) == self,
            self.exit_drops(kind, location) == (Seq::<ExprId>::empty(), self),
            self.locals_registered(pattern) == self,
            self.escaping_closures_retracted(expr) == self,
            self.tail_retained(expr, NESTING_LIMIT as nat) == self,
    {
    }

    /// A shared type has a release function, and no other type has.
    pub proof fn law_shared_types_have_a_release(self, typ: Type)
        ensures
            self.is_shared(typ) == (self.shared_item(typ) is Some),
    {
    }
}

proof fn pushing_adds_one(names: Seq<NameId>, last: NameId, name: NameId)
    ensures
        names.push(last).contains(name) <==> names.contains(name) || name == last,
{
    let all = names.push(last);
    if names.contains(name) {
        let i = choose|i: int| 0 <= i < names.len() && names[i] == name;
        assert(all[i] == name);
    }
    if name == last {
        assert(all[names.len() as int] == name);
    }
}

proof fn adding_new_adds_once(names: Seq<NameId>, more: Seq<NameId>, count: int, name: NameId)
    requires
        0 <= count <= more.len(),
        names.no_duplicates(),
    ensures
        with_all_new(names, more, count).no_duplicates(),
        with_all_new(names, more, count).contains(name) <==> names.contains(name) || more.take(
            count,
        ).contains(name),
    decreases count,
{
    if count > 0 {
        adding_new_adds_once(names, more, count - 1, name);
        let earlier = with_all_new(names, more, count - 1);
        let last = more[count - 1];
        assert(more.take(count) =~= more.take(count - 1).push(last));
        pushing_adds_one(more.take(count - 1), last, name);
        pushing_adds_one(earlier, last, name);
    }
}

/// A jump drops nothing that is declared outside the scope it leaves: what lies further out does
/// not matter.
pub proof fn law_unwinding_stops_at_the_boundary(
    outer: Seq<ScopeState>,
    scopes: Seq<ScopeState>,
    boundary: DropScopeKind,
)
    requires
        exists|i: int| 0 <= i < scopes.len() && (#[trigger] scopes[i]).kind == boundary,
    ensures
        unwound(outer + scopes, boundary) == unwound(scopes, boundary),
    decreases scopes.len(),
{
    let all = outer + scopes;
    assert(all.last() == scopes.last());
    assert(all.drop_last() =~= outer + scopes.drop_last());
    if scopes.last().kind != boundary {
        let i = choose|i: int| 0 <= i < scopes.len() && (#[trigger] scopes[i]).kind == boundary;
        assert(scopes.drop_last()[i].kind == boundary);
        law_unwinding_stops_at_the_boundary(outer, scopes.drop_last(), boundary);
    }
}

} // verus!

//! The expressions that drop a value.
//!
//! A drop is made of ordinary expressions: a call of `drop`, a call of the function that releases
//! a shared cell, or a sequence or a match that drops the parts of a value. Each of them is handed
//! to inference, which finds the impl it calls as it does for one that is written by hand.

use crate::collections::{map_get, map_insert, set_contains};
use crate::cst::{copy_ids, Pattern};
#[allow(unused_imports)]
use crate::cst::PatternForm;
use crate::database::FieldType;
#[allow(unused_imports)]
use crate::database::{field_forms, FieldForm};
use crate::ids::{ExprId, Location, NameId, PatternId, TopLevelId, TopLevelName, NESTING_LIMIT};
use crate::text::decimal_text;
#[allow(unused_imports)]
use crate::text::decimal;
use crate::type_inference::checker::TypeChecker;
#[allow(unused_imports)]
use crate::type_inference::checker::State;
use crate::type_inference::moves::{MovePath, MoveTracker};
#[allow(unused_imports)]
use crate::type_inference::moves::{field_of, Moves, Place};
use crate::types::{PrimitiveType, Type};
use vstd::prelude::*;

verus! {

/// How deep drops of the parts of a value are nested. What lies deeper is not dropped.
pub const EXPANSION_LIMIT: u32 = 16;

/// The place that stands for a payload of a variant.
pub open spec fn payload_field(variant: Seq<char>, index: nat) -> Seq<char> {
    variant + "#"@ + decimal(index)
}

/// `drops` with one more, if there is one.
pub open spec fn with_drop(drops: Seq<ExprId>, drop: Option<ExprId>) -> Seq<ExprId> {
    match drop {
        Some(drop) => drops.push(drop),
        None => drops,
    }
}

/// What a tracker holds.
pub open spec fn held(tracker: Option<&MoveTracker>) -> Option<Moves> {
    match tracker {
        Some(tracker) => Some(tracker@),
        None => None,
    }
}

impl State {
    /// The drop of a place that is owned where it is dropped, if it needs one.
    ///
    /// Nothing is dropped that a closure captured, that only aliases another binding, or that
    /// belongs to the caller.
    pub open spec fn drop_of(self, place: Place, typ: Type, location: Location, depth: nat) -> (
        Option<ExprId>,
        State,
    )
        decreases depth, 0nat, 0int,
    {
        if depth == 0 || self.captured_names.contains(place.0) || self.borrowed_bindings.contains(
            place.0,
        ) || self.borrowed_local_params.contains(place.0) {
            (None, self)
        } else if place.1.len() == 0 && self.shared_closure_captures.contains_key(place.0) {
            self.closure_drop(place.0, typ, location, (depth - 1) as nat)
        } else {
            let typ = self.follow(typ);
            if typ == Type::error() {
                (None, self)
            } else if self.is_copy(typ) {
                self.copy_asked(typ).drop_of_copy(place, typ, location, (depth - 1) as nat)
            } else {
                self.copy_asked(typ).drop_of_owner(place, typ, location, (depth - 1) as nat)
            }
        }
    }

    /// The drop of a value that is `Copy`: a handle to a counted cell is released, and of anything
    /// else the parts are.
    pub open spec fn drop_of_copy(self, place: Place, typ: Type, location: Location, depth: nat) -> (
        Option<ExprId>,
        State,
    )
        decreases depth, 6nat, 0int,
    {
        match self.shared_item(typ) {
            Some(item) => {
                let (call, made) = self.release_call(item, place, typ, location);
                (Some(call), made)
            },
            None => if self.has_heap_env(typ) && !self.effect_continuation_names.contains(place.0) {
                let (expr, made) = self.closure_env_release(place, typ, location);
                (Some(expr), made)
            } else {
                self.structural_drop(place, typ, location, depth)
            },
        }
    }

    /// The drop of a value that is not `Copy`: through an impl, or else of its parts.
    pub open spec fn drop_of_owner(
        self,
        place: Place,
        typ: Type,
        location: Location,
        depth: nat,
    ) -> (Option<ExprId>, State)
        decreases depth, 6nat, 0int,
    {
        let drop_type = self.facts.prelude.drop_type;
        let free = typ.free_in(self.bindings, NESTING_LIMIT as nat);
        let (call, called) = self.drop_call(place, typ, location);
        match typ {
            Type::Function(_) => {
                let (drops, made) = self.slot_drops(place, typ, location, depth);
                made.sequenced(drops, location)
            },
            Type::Generic(_) => if self.constraint_in_scope(typ, drop_type) {
                (Some(call), called)
            } else {
                (None, self.missing_drop_reported(place, typ, location))
            },
            Type::Variable(id) => if self.constraint_in_scope(typ, drop_type) {
                (Some(call), called)
            } else if self.is_signature(id) {
                (None, self.missing_drop_reported(place, typ, location))
            } else {
                (None, self)
            },
            _ => if self.all_bounded(free) && self.has_drop_impl(typ) {
                (Some(call), called)
            } else {
                self.structural_drop(place, typ, location, depth)
            },
        }
    }

    /// The drops of the parts of a value: of its fields in order, or of the payloads of the
    /// variant it is.
    pub open spec fn structural_drop(
        self,
        place: Place,
        typ: Type,
        location: Location,
        depth: nat,
    ) -> (Option<ExprId>, State)
        decreases depth, 5nat, 0int,
    {
        if self.drop_expansion_depth >= EXPANSION_LIMIT {
            (None, self)
        } else {
            let inner = State {
                drop_expansion_depth: (self.drop_expansion_depth + 1) as u32,
                ..self
            };
            let (drop, made) = inner.parts_drop(place, typ, location, depth);
            (drop, State { drop_expansion_depth: self.drop_expansion_depth, ..made })
        }
    }

    pub open spec fn parts_drop(self, place: Place, typ: Type, location: Location, depth: nat) -> (
        Option<ExprId>,
        State,
    )
        decreases depth, 4nat, 0int,
    {
        let fields = self.facts.database.fields_of(typ);
        if fields.len() == 0 {
            self.sum_drop(place, typ, None, location, depth)
        } else {
            let (drops, made) = self.field_drops(
                place,
                fields,
                fields.len() as int,
                location,
                depth,
            );
            made.sequenced(drops, location)
        }
    }

    /// The drops of the first `count` of `fields`.
    pub open spec fn field_drops(
        self,
        place: Place,
        fields: Seq<FieldForm>,
        count: int,
        location: Location,
        depth: nat,
    ) -> (Seq<ExprId>, State)
        decreases depth, 1nat, count,
    {
        if count <= 0 {
            (Seq::empty(), self)
        } else {
            let (drops, made) = self.field_drops(place, fields, count - 1, location, depth);
            let field = fields[count - 1];
            let (drop, made) = made.drop_of(
                field_of(place, field.name),
                field.typ,
                location,
                depth,
            );
            (with_drop(drops, drop), made)
        }
    }

    /// A match that drops the payloads of the variant a value is, if any variant has some to drop.
    /// Payloads that were moved are left alone.
    pub open spec fn sum_drop(
        self,
        place: Place,
        typ: Type,
        moves: Option<Moves>,
        location: Location,
        depth: nat,
    ) -> (Option<ExprId>, State)
        decreases depth, 3nat, 0int,
    {
        let typ = self.follow(typ);
        match self.sum_of(typ) {
            None => (None, self),
            Some((item, names, variants)) => {
                let (cases, any, made) = self.variant_cases(
                    place,
                    item,
                    names,
                    variants,
                    variants.len() as int,
                    moves,
                    location,
                    depth,
                );
                if !any {
                    (None, made)
                } else {
                    let (id, matched) = made.match_on(place, typ, cases, location);
                    (Some(id), matched)
                }
            },
        }
    }

    /// The cases of the first `count` of `variants`, and whether one of them drops anything.
    pub open spec fn variant_cases(
        self,
        place: Place,
        item: TopLevelId,
        names: Seq<NameId>,
        variants: Seq<(String, Vec<Type>)>,
        count: int,
        moves: Option<Moves>,
        location: Location,
        depth: nat,
    ) -> (Seq<(PatternId, ExprId)>, bool, State)
        decreases depth, 2nat, count,
    {
        if count <= 0 {
            (Seq::empty(), false, self)
        } else {
            let (cases, any, made) = self.variant_cases(
                place,
                item,
                names,
                variants,
                count - 1,
                moves,
                location,
                depth,
            );
            let text = variants[count - 1].0@;
            let payloads = variants[count - 1].1@;
            let (arguments, drops, made) = made.payload_drops(
                place,
                text,
                payloads,
                payloads.len() as int,
                moves,
                location,
                depth,
            );
            let (case, made) = made.variant_case(
                text,
                TopLevelName { top_level_item: item, local_name_id: names[count - 1] },
                arguments,
                drops,
                location,
            );
            (cases.push(case), any || drops.len() > 0, made)
        }
    }

    /// The patterns that bind the first `count` of the payloads of a variant, and the drops of what
    /// `moves` leaves of those payloads. Moves out of a payload are moves out of its binding.
    pub open spec fn payload_drops(
        self,
        place: Place,
        variant: Seq<char>,
        payloads: Seq<Type>,
        count: int,
        moves: Option<Moves>,
        location: Location,
        depth: nat,
    ) -> (Seq<PatternId>, Seq<ExprId>, State)
        decreases depth, 1nat, count,
    {
        if count <= 0 {
            (Seq::empty(), Seq::empty(), self)
        } else {
            let (patterns, drops, made) = self.payload_drops(
                place,
                variant,
                payloads,
                count - 1,
                moves,
                location,
                depth,
            );
            let typ = payloads[count - 1];
            let name = made.next_name();
            let named = made.with_variable("drop_payload"@, typ, location);
            let pattern = named.next_pattern();
            let bound = named.with_pattern(PatternForm::Variable(name), location);
            let qualified = field_of(place, payload_field(variant, (count - 1) as nat));
            if moves matches Some(moves) && moves.moved_at(qualified) is Some {
                (patterns.push(pattern), drops, bound)
            } else {
                let binding = (name, Seq::empty());
                let (drop, made) = match moves {
                    Some(moves) => bound.residual_drop(
                        binding,
                        typ,
                        moves.rerooted(qualified, binding),
                        location,
                        depth,
                    ),
                    None => bound.drop_of(binding, typ, location, depth),
                };
                (patterns.push(pattern), with_drop(drops, drop), made)
            }
        }
    }

    /// The drop of a closure that is bound to `name`: of the slots its environment owns, and of
    /// the shared handles it captured.
    pub open spec fn closure_drop(
        self,
        name: NameId,
        typ: Type,
        location: Location,
        depth: nat,
    ) -> (Option<ExprId>, State)
        decreases depth, 5nat, 0int,
    {
        let typ = self.follow(typ);
        let (drops, made) = self.slot_drops((name, Seq::empty()), typ, location, depth);
        let (more, made) = if made.shared_closure_captures.contains_key(name) {
            let captures = made.shared_closure_captures[name];
            made.capture_drops(captures, captures.len() as int, location, depth)
        } else {
            (Seq::empty(), made)
        };
        made.sequenced(drops + more, location)
    }

    /// The drops of the slots that the environment of a closure owns. An environment that is not
    /// a tuple has no slots that are known.
    pub open spec fn slot_drops(self, place: Place, typ: Type, location: Location, depth: nat) -> (
        Seq<ExprId>,
        State,
    )
        decreases depth, 2nat, 0int,
    {
        match self.follow(typ) {
            Type::Function(function) => match self.follow(function.environment) {
                Type::Tuple(slots) => self.owned_slot_drops(
                    place,
                    typ,
                    slots.items(),
                    slots.items().len() as int,
                    location,
                    depth,
                ),
                _ => (Seq::empty(), self),
            },
            _ => (Seq::empty(), self),
        }
    }

    /// `slot = <the slot of the closure>; drop (mut slot)` for each of the first `count` of `slots`
    /// that the closure owns and that needs it.
    pub open spec fn owned_slot_drops(
        self,
        place: Place,
        typ: Type,
        slots: Seq<Type>,
        count: int,
        location: Location,
        depth: nat,
    ) -> (Seq<ExprId>, State)
        decreases depth, 1nat, count,
    {
        if count <= 0 {
            (Seq::empty(), self)
        } else {
            let (drops, made) = self.owned_slot_drops(
                place,
                typ,
                slots,
                count - 1,
                location,
                depth,
            );
            let slot = made.follow(slots[count - 1]);
            if !made.owns_slot(slot) {
                (drops, made)
            } else {
                let name = made.next_name();
                let (drop, made) = made.with_variable("env_slot"@, slot, location).drop_of(
                    (name, Seq::empty()),
                    slot,
                    location,
                    depth,
                );
                match drop {
                    None => (drops, made),
                    Some(drop) => {
                        let (extract, made) = made.place_expr(place, typ, location);
                        let marked = State {
                            context: made.context.with_closure_env_slot(
                                extract,
                                (count - 1) as u32,
                            ),
                            expr_types: made.expr_types.insert(extract, slot),
                            ..made
                        };
                        (
                            drops.push(marked.next_expr()).push(drop),
                            marked.with_binding(name, extract),
                        )
                    },
                }
            }
        }
    }

    /// The drops of the first `count` of `captures`, each by its own name.
    pub open spec fn capture_drops(
        self,
        captures: Seq<NameId>,
        count: int,
        location: Location,
        depth: nat,
    ) -> (Seq<ExprId>, State)
        decreases depth, 1nat, count,
    {
        if count <= 0 {
            (Seq::empty(), self)
        } else {
            let (drops, made) = self.capture_drops(captures, count - 1, location, depth);
            let name = captures[count - 1];
            if made.name_types.contains_key(name) {
                let (drop, made) = made.drop_of(
                    (name, Seq::empty()),
                    made.name_types[name],
                    location,
                    depth,
                );
                (with_drop(drops, drop), made)
            } else {
                (drops, made)
            }
        }
    }

    /// The drop of what `moves` leaves of a place: of all of it, of the parts that were not moved,
    /// or of nothing. A handle to a shared cell is released whatever was read out of it.
    pub open spec fn residual_drop(
        self,
        place: Place,
        typ: Type,
        moves: Moves,
        location: Location,
        depth: nat,
    ) -> (Option<ExprId>, State)
        decreases depth, 0nat, 1int,
    {
        let followed = self.follow(typ);
        if depth == 0 {
            (None, self)
        } else if self.is_shared(followed) {
            self.drop_of(place, followed, location, depth)
        } else if moves.moved_at(place) is Some {
            (None, self)
        } else if !moves.moved_below(place) {
            self.drop_of(place, typ, location, depth)
        } else if self.captured_names.contains(place.0) || followed == Type::error()
            || !self.is_concrete(followed) {
            (None, self)
        } else if self.is_copy(followed) {
            (None, self.copy_asked(followed))
        } else {
            let asked = self.copy_asked(followed);
            if asked.has_drop_impl(followed) || asked.drop_expansion_depth >= EXPANSION_LIMIT {
                (None, asked)
            } else {
                let inner = State {
                    drop_expansion_depth: (asked.drop_expansion_depth + 1) as u32,
                    ..asked
                };
                let (drop, made) = inner.residual_parts_drop(
                    place,
                    followed,
                    moves,
                    location,
                    (depth - 1) as nat,
                );
                (drop, State { drop_expansion_depth: asked.drop_expansion_depth, ..made })
            }
        }
    }

    pub open spec fn residual_parts_drop(
        self,
        place: Place,
        typ: Type,
        moves: Moves,
        location: Location,
        depth: nat,
    ) -> (Option<ExprId>, State)
        decreases depth, 4nat, 0int,
    {
        let fields = self.facts.database.fields_of(typ);
        if fields.len() == 0 {
            self.sum_drop(place, typ, Some(moves), location, depth)
        } else {
            let (drops, made) = self.residual_field_drops(
                place,
                fields,
                fields.len() as int,
                moves,
                location,
                depth,
            );
            made.sequenced(drops, location)
        }
    }

    /// The drops of what `moves` leaves of the first `count` of `fields`.
    pub open spec fn residual_field_drops(
        self,
        place: Place,
        fields: Seq<FieldForm>,
        count: int,
        moves: Moves,
        location: Location,
        depth: nat,
    ) -> (Seq<ExprId>, State)
        decreases depth, 1nat, count,
    {
        if count <= 0 {
            (Seq::empty(), self)
        } else {
            let (drops, made) = self.residual_field_drops(
                place,
                fields,
                count - 1,
                moves,
                location,
                depth,
            );
            let field = fields[count - 1];
            let (drop, made) = made.residual_drop(
                field_of(place, field.name),
                field.typ,
                moves,
                location,
                depth,
            );
            (with_drop(drops, drop), made)
        }
    }
}

impl State {
    /// The drop of a place that is owned, if it needs one.
    #[verifier::opaque]
    pub open spec fn place_dropped(self, place: Place, typ: Type, location: Location) -> (
        Option<ExprId>,
        State,
    ) {
        self.drop_of(place, typ, location, NESTING_LIMIT as nat)
    }

    /// The drop of what `moves` leaves of a place.
    #[verifier::opaque]
    pub open spec fn remainder_dropped(
        self,
        place: Place,
        typ: Type,
        moves: Moves,
        location: Location,
    ) -> (Option<ExprId>, State) {
        self.residual_drop(place, typ, moves, location, NESTING_LIMIT as nat)
    }
}

impl<'a> TypeChecker<'a> {
    fn drop_of(&mut self, place: &MovePath, typ: &Type, location: Location, depth: u64) -> (drop:
        Option<ExprId>)
        ensures
            (drop, final(self)@) == old(self)@.drop_of(place@, *typ, location, depth as nat),
        decreases depth, 0nat, 0int,
    {
        if depth == 0 {
            return None;
        }
        let root = place.root_variable();
        // A closure that captured the value may outlive this scope.
        if set_contains(&self.captured_names, root) {
            return None;
        }
        // An alias was bound without a retain, and dies without a release.
        if set_contains(&self.borrowed_bindings, root) {
            return None;
        }
        // The caller owns what a borrowing parameter holds.
        if set_contains(&self.borrowed_local_params, root) {
            return None;
        }
        match place {
            MovePath::Variable(name) => {
                if map_get(&self.shared_closure_captures, *name).is_some() {
                    return self.closure_drop(*name, typ, location, depth - 1);
                }
            },
            MovePath::Field(..) => {
                assert(place@.1.len() > 0);
            },
        }
        let typ = self.follow_type(typ).clone();
        match &typ {
            Type::Primitive(PrimitiveType::Error) => {
                return None;
            },
            _ => {},
        }
        if self.type_is_copy(&typ) {
            self.drop_of_copy(place, &typ, location, depth - 1)
        } else {
            self.drop_of_owner(place, &typ, location, depth - 1)
        }
    }

    fn drop_of_copy(&mut self, place: &MovePath, typ: &Type, location: Location, depth: u64) -> (drop:
        Option<ExprId>)
        ensures
            (drop, final(self)@) == old(self)@.drop_of_copy(place@, *typ, location, depth as nat),
        decreases depth, 6nat, 0int,
    {
        match self.shared_type_top_level_id(typ) {
            Some(item) => {
                return Some(self.synthesize_release_call(item, place, typ, location));
            },
            None => {},
        }
        // A continuation has an environment that is not counted.
        if self.is_heap_env_closure(typ) && !set_contains(
            &self.effect_continuation_names,
            place.root_variable(),
        ) {
            return Some(self.synthesize_closure_env_release(place, typ, location));
        }
        // A value that is `Copy` may still hold handles to shared cells.
        self.synthesize_structural_drop(place, typ, location, depth)
    }

    fn drop_of_owner(
        &mut self,
        place: &MovePath,
        typ: &Type,
        location: Location,
        depth: u64,
    ) -> (drop: Option<ExprId>)
        ensures
            (drop, final(self)@) == old(self)@.drop_of_owner(place@, *typ, location, depth as nat),
        decreases depth, 6nat, 0int,
    {
        let drop_type = self.get_drop_type_name();
        match typ {
            Type::Function(_) => {
                let drops = self.synthesize_owned_env_slot_drops(place, typ, location, depth);
                self.sequence_drops(drops, location)
            },
            Type::Generic(_) => {
                if self.constraint_in_scope_for_generic(typ, drop_type) {
                    return Some(self.synthesize_drop_call(place, typ, location));
                }
                self.report_missing_drop_constraint(place, typ, location);
                None
            },
            Type::Variable(id) => {
                if self.constraint_in_scope_for_variable(*id, drop_type) {
                    return Some(self.synthesize_drop_call(place, typ, location));
                }
                if self.is_signature_variable(*id) {
                    self.report_missing_drop_constraint(place, typ, location);
                }
                None
            },
            _ => {
                let free = typ.free_variables(&self.bindings, NESTING_LIMIT);
                if self.all_bounded(&free) && self.type_has_drop_impl(typ) {
                    return Some(self.synthesize_drop_call(place, typ, location));
                }
                self.synthesize_structural_drop(place, typ, location, depth)
            },
        }
    }

    fn synthesize_structural_drop(
        &mut self,
        place: &MovePath,
        typ: &Type,
        location: Location,
        depth: u64,
    ) -> (drop: Option<ExprId>)
        ensures
            (drop, final(self)@) == old(self)@.structural_drop(place@, *typ, location, depth as nat),
        decreases depth, 5nat, 0int,
    {
        let outer: u32 = self.drop_expansion_depth;
        if outer >= EXPANSION_LIMIT {
            return None;
        }
        self.drop_expansion_depth = outer + 1;
        let drop = self.synthesize_structural_drop_inner(place, typ, location, depth);
        self.drop_expansion_depth = outer;
        drop
    }

    fn synthesize_structural_drop_inner(
        &mut self,
        place: &MovePath,
        typ: &Type,
        location: Location,
        depth: u64,
    ) -> (drop: Option<ExprId>)
        ensures
            (drop, final(self)@) == old(self)@.parts_drop(place@, *typ, location, depth as nat),
        decreases depth, 4nat, 0int,
    {
        let fields = self.facts.database.get_field_types(typ);
        assert(field_forms(fields@).len() == fields@.len());
        if fields.len() == 0 {
            self.synthesize_sum_drop(place, typ, None, location, depth)
        } else {
            let drops = self.field_drops(place, &fields, location, depth);
            self.sequence_drops(drops, location)
        }
    }

    fn field_drops(
        &mut self,
        place: &MovePath,
        fields: &Vec<FieldType>,
        location: Location,
        depth: u64,
    ) -> (drops: Vec<ExprId>)
        ensures
            (drops@, final(self)@) == old(self)@.field_drops(
                place@,
                field_forms(fields@),
                fields@.len() as int,
                location,
                depth as nat,
            ),
        decreases depth, 1nat, 0int,
    {
        let mut drops: Vec<ExprId> = Vec::new();
        let mut i: usize = 0;
        while i < fields.len()
            invariant
                i <= fields.len(),
                (drops@, self@) == old(self)@.field_drops(
                    place@,
                    field_forms(fields@),
                    i as int,
                    location,
                    depth as nat,
                ),
            decreases fields.len() - i,
        {
            let field_place = MovePath::field(place.clone(), fields[i].name.clone());
            assert(field_forms(fields@)[i as int] == fields@[i as int]@);
            match self.drop_of(&field_place, &fields[i].typ, location, depth) {
                Some(drop) => {
                    drops.push(drop);
                },
                None => {},
            }
            i += 1;
        }
        drops
    }

    fn synthesize_sum_drop(
        &mut self,
        place: &MovePath,
        typ: &Type,
        tracker: Option<&MoveTracker>,
        location: Location,
        depth: u64,
    ) -> (drop: Option<ExprId>)
        ensures
            (drop, final(self)@) == old(self)@.sum_drop(
                place@,
                *typ,
                held(tracker),
                location,
                depth as nat,
            ),
        decreases depth, 3nat, 0int,
    {
        let typ = self.follow_type(typ).clone();
        let (item, names, variants) = match self.find_sum(&typ) {
            Some(sum) => sum,
            None => {
                return None;
            },
        };
        let (cases, any) = self.variant_cases(
            place,
            item,
            names,
            variants,
            tracker,
            location,
            depth,
        );
        if !any {
            return None;
        }
        Some(self.synthesize_match(place, &typ, cases, location))
    }

    fn variant_cases(
        &mut self,
        place: &MovePath,
        item: TopLevelId,
        names: &Vec<NameId>,
        variants: &Vec<(String, Vec<Type>)>,
        tracker: Option<&MoveTracker>,
        location: Location,
        depth: u64,
    ) -> (result: (Vec<(PatternId, ExprId)>, bool))
        requires
            names@.len() == variants@.len(),
        ensures
            (result.0@, result.1, final(self)@) == old(self)@.variant_cases(
                place@,
                item,
                names@,
                variants@,
                variants@.len() as int,
                held(tracker),
                location,
                depth as nat,
            ),
        decreases depth, 2nat, 0int,
    {
        let mut any = false;
        let mut cases: Vec<(PatternId, ExprId)> = Vec::new();
        let mut i: usize = 0;
        while i < variants.len()
            invariant
                i <= variants.len(),
                names@.len() == variants@.len(),
                (cases@, any, self@) == old(self)@.variant_cases(
                    place@,
                    item,
                    names@,
                    variants@,
                    i as int,
                    held(tracker),
                    location,
                    depth as nat,
                ),
            decreases variants.len() - i,
        {
            let text = &variants[i].0;
            let (arguments, drops) = self.payload_drops(
                place,
                text,
                &variants[i].1,
                tracker,
                location,
                depth,
            );
            if drops.len() > 0 {
                any = true;
            }
            let case = self.synthesize_variant_case(
                text,
                TopLevelName::new(item, names[i]),
                arguments,
                drops,
                location,
            );
            cases.push(case);
            i += 1;
        }
        (cases, any)
    }

    fn payload_drops(
        &mut self,
        place: &MovePath,
        variant: &String,
        payloads: &Vec<Type>,
        tracker: Option<&MoveTracker>,
        location: Location,
        depth: u64,
    ) -> (result: (Vec<PatternId>, Vec<ExprId>))
        ensures
            (result.0@, result.1@, final(self)@) == old(self)@.payload_drops(
                place@,
                variant@,
                payloads@,
                payloads@.len() as int,
                held(tracker),
                location,
                depth as nat,
            ),
        decreases depth, 1nat, 0int,
    {
        let mut patterns: Vec<PatternId> = Vec::new();
        let mut drops: Vec<ExprId> = Vec::new();
        let mut i: usize = 0;
        while i < payloads.len()
            invariant
                i <= payloads.len(),
                (patterns@, drops@, self@) == old(self)@.payload_drops(
                    place@,
                    variant@,
                    payloads@,
                    i as int,
                    held(tracker),
                    location,
                    depth as nat,
                ),
            decreases payloads.len() - i,
        {
            let name = self.fresh_variable("drop_payload", &payloads[i], location);
            let pattern = self.push_pattern(Pattern::Variable(name), location);
            patterns.push(pattern);
            let mut field = variant.clone();
            field.append("#");
            field.append(decimal_text(i).as_str());
            assert(field@ =~= payload_field(variant@, i as nat));
            let qualified = MovePath::field(place.clone(), field);
            let moved = match tracker {
                Some(tracker) => tracker.is_moved(&qualified).is_some(),
                None => false,
            };
            if !moved {
                let binding = MovePath::Variable(name);
                let drop = match tracker {
                    Some(tracker) => {
                        let moves = tracker.reroot_descendants(&qualified, &binding);
                        self.residual_drop(&binding, &payloads[i], &moves, location, depth)
                    },
                    None => self.drop_of(&binding, &payloads[i], location, depth),
                };
                match drop {
                    Some(drop) => {
                        drops.push(drop);
                    },
                    None => {},
                }
            }
            i += 1;
        }
        (patterns, drops)
    }

    fn closure_drop(&mut self, name: NameId, typ: &Type, location: Location, depth: u64) -> (drop:
        Option<ExprId>)
        ensures
            (drop, final(self)@) == old(self)@.closure_drop(name, *typ, location, depth as nat),
        decreases depth, 5nat, 0int,
    {
        let typ = self.follow_type(typ).clone();
        let place = MovePath::Variable(name);
        let mut drops = self.synthesize_owned_env_slot_drops(&place, &typ, location, depth);
        let mut more = self.synthesize_shared_env_release(name, location, depth);
        drops.append(&mut more);
        self.sequence_drops(drops, location)
    }

    /// Drop the shared handles that the closure bound to `name` captured, each by its own name.
    fn synthesize_shared_env_release(&mut self, name: NameId, location: Location, depth: u64) -> (drops:
        Vec<ExprId>)
        ensures
            (drops@, final(self)@) == (if old(self)@.shared_closure_captures.contains_key(name) {
                let captures = old(self)@.shared_closure_captures[name];
                old(self)@.capture_drops(captures, captures.len() as int, location, depth as nat)
            } else {
                (Seq::empty(), old(self)@)
            }),
        decreases depth, 1nat, 0int,
    {
        let captures = match map_get(&self.shared_closure_captures, name) {
            Some(captures) => copy_ids(captures),
            None => {
                return Vec::new();
            },
        };
        let ghost before = self@;
        let mut drops: Vec<ExprId> = Vec::new();
        let mut i: usize = 0;
        while i < captures.len()
            invariant
                i <= captures.len(),
                (drops@, self@) == before.capture_drops(
                    captures@,
                    i as int,
                    location,
                    depth as nat,
                ),
            decreases captures.len() - i,
        {
            let known = match map_get(&self.name_types, captures[i]) {
                Some(typ) => Some(typ.clone()),
                None => None,
            };
            match known {
                Some(typ) => match self.drop_of(
                    &MovePath::Variable(captures[i]),
                    &typ,
                    location,
                    depth,
                ) {
                    Some(drop) => {
                        drops.push(drop);
                    },
                    None => {},
                },
                None => {},
            }
            i += 1;
        }
        drops
    }

    /// Drop what the environment of a dying closure owns. Each slot is taken out of the closure
    /// itself: where it dies, the names it captured may be out of sight.
    fn synthesize_owned_env_slot_drops(
        &mut self,
        place: &MovePath,
        typ: &Type,
        location: Location,
        depth: u64,
    ) -> (drops: Vec<ExprId>)
        ensures
            (drops@, final(self)@) == old(self)@.slot_drops(place@, *typ, location, depth as nat),
        decreases depth, 2nat, 0int,
    {
        let mut drops: Vec<ExprId> = Vec::new();
        let slots: Vec<Type> = match self.follow_type(typ) {
            Type::Function(function) => match self.follow_type(&function.environment) {
                Type::Tuple(slots) => slots.to_vec(),
                _ => {
                    return drops;
                },
            },
            _ => {
                return drops;
            },
        };
        let mut i: usize = 0;
        while i < slots.len()
            invariant
                i <= slots.len(),
                (drops@, self@) == old(self)@.owned_slot_drops(
                    place@,
                    *typ,
                    slots@,
                    i as int,
                    location,
                    depth as nat,
                ),
            decreases slots.len() - i,
        {
            let slot = self.follow_type(&slots[i]).clone();
            if self.owns_slot(&slot) {
                let name = self.fresh_variable("env_slot", &slot, location);
                match self.drop_of(&MovePath::Variable(name), &slot, location, depth) {
                    Some(drop) => {
                        let extract = self.synthesize_place_expr(place, typ, location);
                        map_insert(&mut self.expr_types, extract, slot);
                        self.context.mark_closure_env_slot(extract, i as u32);
                        let binding = self.let_binding(name, extract);
                        drops.push(binding);
                        drops.push(drop);
                    },
                    None => {},
                }
            }
            i += 1;
        }
        drops
    }

    fn residual_drop(
        &mut self,
        place: &MovePath,
        typ: &Type,
        tracker: &MoveTracker,
        location: Location,
        depth: u64,
    ) -> (drop: Option<ExprId>)
        ensures
            (drop, final(self)@) == old(self)@.residual_drop(
                place@,
                *typ,
                tracker@,
                location,
                depth as nat,
            ),
        decreases depth, 0nat, 1int,
    {
        if depth == 0 {
            return None;
        }
        let followed = self.follow_type(typ).clone();
        // What is read out of a shared cell does not move it: the handle is released in any case.
        if self.is_shared_user_defined(&followed) {
            return self.drop_of(place, &followed, location, depth);
        }
        if tracker.is_moved(place).is_some() {
            return None;
        }
        match tracker.has_child_moved(place) {
            None => {
                return self.drop_of(place, typ, location, depth);
            },
            Some((child, _)) => {
                assert(tracker@.moved.contains_key(child@));
            },
        }
        if set_contains(&self.captured_names, place.root_variable()) {
            return None;
        }
        match &followed {
            Type::Primitive(PrimitiveType::Error) => {
                return None;
            },
            _ => {},
        }
        if !self.type_is_concrete(&followed) || self.type_is_copy(&followed) {
            return None;
        }
        // An impl cannot run on a value that lacks parts.
        if self.type_has_drop_impl(&followed) {
            return None;
        }
        let outer: u32 = self.drop_expansion_depth;
        if outer >= EXPANSION_LIMIT {
            return None;
        }
        self.drop_expansion_depth = outer + 1;
        let drop = self.residual_parts_drop(place, &followed, tracker, location, depth - 1);
        self.drop_expansion_depth = outer;
        drop
    }

    fn residual_parts_drop(
        &mut self,
        place: &MovePath,
        typ: &Type,
        tracker: &MoveTracker,
        location: Location,
        depth: u64,
    ) -> (drop: Option<ExprId>)
        ensures
            (drop, final(self)@) == old(self)@.residual_parts_drop(
                place@,
                *typ,
                tracker@,
                location,
                depth as nat,
            ),
        decreases depth, 4nat, 0int,
    {
        let fields = self.facts.database.get_field_types(typ);
        assert(field_forms(fields@).len() == fields@.len());
        if fields.len() == 0 {
            self.synthesize_sum_drop(place, typ, Some(tracker), location, depth)
        } else {
            let drops = self.residual_field_drops(place, &fields, tracker, location, depth);
            self.sequence_drops(drops, location)
        }
    }

    fn residual_field_drops(
        &mut self,
        place: &MovePath,
        fields: &Vec<FieldType>,
        tracker: &MoveTracker,
        location: Location,
        depth: u64,
    ) -> (drops: Vec<ExprId>)
        ensures
            (drops@, final(self)@) == old(self)@.residual_field_drops(
                place@,
                field_forms(fields@),
                fields@.len() as int,
                tracker@,
                location,
                depth as nat,
            ),
        decreases depth, 2nat, 0int,
    {
        let mut drops: Vec<ExprId> = Vec::new();
        let mut i: usize = 0;
        while i < fields.len()
            invariant
                i <= fields.len(),
                (drops@, self@) == old(self)@.residual_field_drops(
                    place@,
                    field_forms(fields@),
                    i as int,
                    tracker@,
                    location,
                    depth as nat,
                ),
            decreases fields.len() - i,
        {
            let field_place = MovePath::field(place.clone(), fields[i].name.clone());
            assert(field_forms(fields@)[i as int] == fields@[i as int]@);
            match self.residual_drop(&field_place, &fields[i].typ, tracker, location, depth) {
                Some(drop) => {
                    drops.push(drop);
                },
                None => {},
            }
            i += 1;
        }
        drops
    }

    /// Make the drop of a place that is owned where it is dropped, if it needs one. Where none is
    /// made, a value can leak and is never dropped twice.
    pub fn try_synthesize_drop_for_place(
        &mut self,
        place: &MovePath,
        typ: &Type,
        location: Location,
    ) -> (drop: Option<ExprId>)
        ensures
            (drop, final(self)@) == old(self)@.place_dropped(place@, *typ, location),
    {
        proof {
            reveal(State::place_dropped);
        }
        self.drop_of(place, typ, location, NESTING_LIMIT)
    }

    /// Make the drop of what `tracker` leaves of a place: of all of it, of the parts that were not
    /// moved, or none.
    pub fn synthesize_partial_drop(
        &mut self,
        place: &MovePath,
        typ: &Type,
        tracker: &MoveTracker,
        location: Location,
    ) -> (drop: Option<ExprId>)
        ensures
            (drop, final(self)@) == old(self)@.remainder_dropped(place@, *typ, tracker@, location),
    {
        proof {
            reveal(State::remainder_dropped);
        }
        self.residual_drop(place, typ, tracker, location, NESTING_LIMIT)
    }
}

} // verus!

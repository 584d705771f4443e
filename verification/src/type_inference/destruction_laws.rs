//! What holds of the expressions that drop a value.

#[allow(unused_imports)]
use crate::cst::{Argument, ContextState, Definition, ExprForm, Literal, PatternForm};
#[allow(unused_imports)]
use crate::database::FieldForm;
#[allow(unused_imports)]
use crate::ids::{
    ExprId, Location, NameId, Origin, PatternId, TopLevelId, TopLevelName, NESTING_LIMIT,
    RELEASE_FUNCTION,
};
#[allow(unused_imports)]
use crate::type_inference::checker::State;
#[allow(unused_imports)]
use crate::type_inference::drop_synthesis::{payload_field, with_drop, EXPANSION_LIMIT};
#[allow(unused_imports)]
use crate::type_inference::moves::{Moves, Place};
#[allow(unused_imports)]
use crate::types::{PrimitiveType, ReferenceKind, Type};
use vstd::prelude::*;

verus! {

impl ContextState {
    /// Ids are left for `count` more expressions, patterns, names and paths.
    pub open spec fn has_room(self, count: nat) -> bool {
        &&& self.exprs.len() + count <= u32::MAX
        &&& self.paths.len() + count <= u32::MAX
        &&& self.patterns.len() + count <= u32::MAX
        &&& self.names.len() + count <= u32::MAX
    }

    /// The expression is written as the place is named: its variable, and then its fields.
    pub open spec fn reads(self, expr: ExprId, place: Place) -> bool
        decreases place.1.len(),
    {
        match self.expr(expr) {
            ExprForm::Variable(path) => place.1.len() == 0 && path < self.paths.len()
                && self.path_origin(path) == Some(Origin::Local(place.0)),
            ExprForm::MemberAccess { object, member } => place.1.len() > 0 && member
                == place.1.last() && self.reads(object, (place.0, place.1.drop_last())),
            _ => false,
        }
    }

    /// The expression is a call of `callee` with the one argument, which is written.
    pub open spec fn calls(self, expr: ExprId, callee: TopLevelName, argument: ExprId) -> bool {
        self.expr(expr) matches ExprForm::Call { function, arguments } && {
            &&& arguments == seq![Argument { expr: argument, is_implicit: false }]
            &&& self.expr(function) matches ExprForm::Variable(path) && self.path_origin(path)
                == Some(Origin::TopLevelDefinition(callee))
        }
    }

    /// The expression releases the handle in the place: it passes it to the release function of the
    /// type that `item` defines.
    pub open spec fn releases_handle(self, expr: ExprId, item: TopLevelId, place: Place) -> bool {
        exists|handle: ExprId|
            self.calls(
                expr,
                TopLevelName { top_level_item: item, local_name_id: RELEASE_FUNCTION },
                handle,
            ) && #[trigger] self.reads(handle, place)
    }

    /// The expression drops the place through an impl: it passes a reference through which the place
    /// can be written to `method`.
    pub open spec fn drops_by_impl(self, expr: ExprId, method: TopLevelName, place: Place) -> bool {
        exists|reference: ExprId, rhs: ExprId| #[trigger]
            self.calls(expr, method, reference) && self.expr(reference) == (ExprForm::Reference {
                kind: ReferenceKind::Mut,
                rhs,
            }) && #[trigger] self.reads(rhs, place)
    }

    /// The expression releases the environment of the closure in the place.
    pub open spec fn releases_environment(self, expr: ExprId, place: Place) -> bool {
        self.reads(expr, place) && self.closure_env_releases.contains(expr)
    }

    /// In `after`, more was written, and what was there is as it was.
    pub open spec fn is_grown_into(self, after: ContextState) -> bool {
        &&& self.exprs.len() <= after.exprs.len()
        &&& self.paths.len() <= after.paths.len()
        &&& forall|i: int|
            0 <= i < self.exprs.len() ==> #[trigger] after.exprs[i] == self.exprs[i]
        &&& forall|path: u32|
            path < self.paths.len() ==> #[trigger] after.path_origin(path) == self.path_origin(path)
    }

    pub(crate) proof fn reads_stay(self, after: ContextState, expr: ExprId, place: Place)
        requires
            self.is_grown_into(after),
            self.reads(expr, place),
        ensures
            after.reads(expr, place),
        decreases place.1.len(),
    {
        assert(after.exprs[expr as int] == self.exprs[expr as int]);
        match self.expr(expr) {
            ExprForm::MemberAccess { object, member } => {
                self.reads_stay(after, object, (place.0, place.1.drop_last()));
            },
            ExprForm::Variable(path) => {
                assert(after.path_origin(path) == self.path_origin(path));
            },
            _ => {},
        }
    }
}

impl State {
    /// The expression of a place is written as the place is named.
    pub proof fn law_a_place_is_written_as_it_is_named(
        self,
        place: Place,
        typ: Type,
        location: Location,
    )
        requires
            self.context.has_room(place.1.len() + 1),
        ensures
            ({
                let (expr, after) = self.place_expr(place, typ, location);
                &&& after.context.reads(expr, place)
                &&& after.expr_types.contains_key(expr) && after.expr_types[expr] == typ
                &&& self.context.is_grown_into(after.context)
                &&& after.context.exprs.len() == self.context.exprs.len() + place.1.len() + 1
                &&& after.context.paths.len() == self.context.paths.len() + 1
                &&& after.context.patterns == self.context.patterns
                &&& after.context.names == self.context.names
                &&& after.facts == self.facts
            }),
        decreases place.1.len(),
    {
        if place.1.len() > 0 {
            let known = place.1.len() == 1 && self.name_types.contains_key(place.0);
            let parent_type = if known {
                self.name_types[place.0]
            } else {
                self.fresh_type()
            };
            let typed = if known {
                self
            } else {
                self.with_fresh_type()
            };
            let parent = (place.0, place.1.drop_last());
            typed.law_a_place_is_written_as_it_is_named(parent, parent_type, location);
            let (object, made) = typed.place_expr(parent, parent_type, location);
            let (expr, after) = self.place_expr(place, typ, location);
            assert(made.context.is_grown_into(after.context));
            made.context.reads_stay(after.context, object, parent);
            assert(after.context.expr(expr) == (ExprForm::MemberAccess {
                object,
                member: place.1.last(),
            }));
        } else {
            let (expr, after) = self.place_expr(place, typ, location);
            assert(after.context.expr(expr) == ExprForm::Variable(self.next_path()));
        }
    }

    proof fn calling_calls(
        self,
        text: Seq<char>,
        callee: TopLevelName,
        argument: ExprId,
        location: Location,
    )
        requires
            self.context.has_room(2),
        ensures
            ({
                let (call, after) = self.call_to(text, callee, argument, location);
                &&& after.context.calls(call, callee, argument)
                &&& self.context.is_grown_into(after.context)
            }),
    {
        let (call, after) = self.call_to(text, callee, argument, location);
        let function = self.context.exprs.len() as u32;
        let path = self.next_path();
        assert(after.context.expr(function) == ExprForm::Variable(path));
        assert(after.context.expr(call) == (ExprForm::Call {
            function,
            arguments: seq![Argument { expr: argument, is_implicit: false }],
        }));
        assert(after.context.path_origin(path) == Some(Origin::TopLevelDefinition(callee)));
    }

    /// The release of a handle passes it to the release function of its type.
    pub proof fn law_a_release_passes_the_handle(
        self,
        item: TopLevelId,
        place: Place,
        typ: Type,
        location: Location,
    )
        requires
            self.context.has_room(place.1.len() + 4),
        ensures
            ({
                let (call, after) = self.release_call(item, place, typ, location);
                after.context.releases_handle(call, item, place)
            }),
    {
        self.law_a_place_is_written_as_it_is_named(place, typ, location);
        let (handle, placed) = self.place_expr(place, typ, location);
        let callee = TopLevelName { top_level_item: item, local_name_id: RELEASE_FUNCTION };
        placed.calling_calls("release"@, callee, handle, location);
        let (call, after) = placed.call_to("release"@, callee, handle, location);
        placed.context.reads_stay(after.context, handle, place);
        assert(after.context.reads(handle, place));
    }

    /// A drop through an impl passes a reference to the place to the method of the prelude.
    pub proof fn law_a_drop_passes_a_reference(self, place: Place, typ: Type, location: Location)
        requires
            self.context.has_room(place.1.len() + 4),
        ensures
            ({
                let (call, after) = self.drop_call(place, typ, location);
                after.context.drops_by_impl(call, self.facts.prelude.drop_method, place)
            }),
    {
        self.law_a_place_is_written_as_it_is_named(place, typ, location);
        let (rhs, placed) = self.place_expr(place, typ, location);
        let typed = placed.with_fresh_type();
        let reference = typed.next_expr();
        let form = ExprForm::Reference { kind: ReferenceKind::Mut, rhs };
        let referred = typed.with_expr(form, placed.fresh_type(), location);
        let method = self.facts.prelude.drop_method;
        assert(placed.context.is_grown_into(referred.context));
        placed.context.reads_stay(referred.context, rhs, place);
        referred.calling_calls("drop"@, method, reference, location);
        let (call, after) = referred.call_to("drop"@, method, reference, location);
        referred.context.reads_stay(after.context, rhs, place);
        assert(after.context.exprs[reference as int] == referred.context.exprs[reference as int]);
        assert(after.context.expr(reference) == form);
        assert(after.context.calls(call, method, reference));
        assert(after.context.reads(rhs, place));
    }

    /// The release of an environment reads the closure it belongs to.
    pub proof fn law_an_environment_is_released_with_its_closure(
        self,
        place: Place,
        typ: Type,
        location: Location,
    )
        requires
            self.context.has_room(place.1.len() + 1),
        ensures
            ({
                let (expr, after) = self.closure_env_release(place, typ, location);
                after.context.releases_environment(expr, place)
            }),
    {
        self.law_a_place_is_written_as_it_is_named(place, typ, location);
        let (expr, placed) = self.place_expr(place, typ, location);
        let after = self.closure_env_release(place, typ, location).1;
        assert(placed.context.is_grown_into(after.context));
        placed.context.reads_stay(after.context, expr, place);
    }

    /// The place belongs to someone else: a closure captured it, it is an alias, or the caller owns
    /// it.
    pub open spec fn belongs_elsewhere(self, place: Place) -> bool {
        ||| self.captured_names.contains(place.0)
        ||| self.borrowed_bindings.contains(place.0)
        ||| self.borrowed_local_params.contains(place.0)
    }

    /// A handle to a shared cell that is `Copy` is released, and so is the environment of a closure
    /// that has one of its own, unless the closure is a continuation.
    pub proof fn law_a_counted_handle_is_released(
        self,
        place: Place,
        typ: Type,
        location: Location,
        depth: nat,
    )
        requires
            depth > 1,
            self.context.has_room(place.1.len() + 4),
            !self.belongs_elsewhere(place),
            place.1.len() > 0 || !self.shared_closure_captures.contains_key(place.0),
            self.follow(typ) != Type::error(),
            self.is_copy(self.follow(typ)),
        ensures
            ({
                let followed = self.follow(typ);
                let asked = self.copy_asked(followed);
                let (drop, after) = self.drop_of(place, typ, location, depth);
                match asked.shared_item(followed) {
                    Some(item) => drop is Some && after.context.releases_handle(
                        drop->0,
                        item,
                        place,
                    ),
                    None => asked.has_heap_env(followed) && !self.effect_continuation_names.contains(
                        place.0,
                    ) ==> drop is Some && after.context.releases_environment(drop->0, place),
                }
            }),
    {
        let typ = self.follow(typ);
        let asked = self.copy_asked(typ);
        match asked.shared_item(typ) {
            Some(item) => {
                asked.law_a_release_passes_the_handle(item, place, typ, location);
            },
            None => {
                asked.law_an_environment_is_released_with_its_closure(place, typ, location);
            },
        }
    }

    /// A value that is not `Copy` and has a `Drop` impl, or is bounded by one, is dropped through
    /// it. One of a generic type that has none is reported.
    pub proof fn law_an_owner_is_dropped_through_its_impl(
        self,
        place: Place,
        typ: Type,
        location: Location,
        depth: nat,
    )
        requires
            depth > 1,
            self.context.has_room(place.1.len() + 4),
            !self.belongs_elsewhere(place),
            place.1.len() > 0 || !self.shared_closure_captures.contains_key(place.0),
            self.follow(typ) != Type::error(),
            !self.is_copy(self.follow(typ)),
            !(self.follow(typ) is Function),
        ensures
            ({
                let followed = self.follow(typ);
                let asked = self.copy_asked(followed);
                let bounded = asked.constraint_in_scope(followed, self.facts.prelude.drop_type);
                let by_impl = match followed {
                    Type::Generic(_) | Type::Variable(_) => bounded,
                    _ => asked.all_bounded(
                        followed.free_in(self.bindings, NESTING_LIMIT as nat),
                    ) && asked.has_drop_impl(followed),
                };
                let open = match followed {
                    Type::Generic(_) => true,
                    Type::Variable(id) => asked.is_signature(id),
                    _ => false,
                };
                let (drop, after) = self.drop_of(place, typ, location, depth);
                &&& by_impl ==> drop is Some && after.context.drops_by_impl(
                    drop->0,
                    self.facts.prelude.drop_method,
                    place,
                )
                &&& !by_impl && open ==> drop is None && after == asked.missing_drop_reported(
                    place,
                    followed,
                    location,
                )
                &&& !by_impl && followed is Variable && !open ==> (drop, after) == (
                    None::<ExprId>,
                    asked,
                )
            }),
    {
        let followed = self.follow(typ);
        let asked = self.copy_asked(followed);
        asked.law_a_drop_passes_a_reference(place, followed, location);
    }
}

/// `drops` are those of `each` that there are, in order.
pub open spec fn are_those_made(each: Seq<Option<ExprId>>, drops: Seq<ExprId>) -> bool {
    &&& forall|i: int|
        0 <= i < each.len() && (#[trigger] each[i]) is Some ==> {
            &&& made_before(each, i) < drops.len()
            &&& drops[made_before(each, i) as int] == each[i]->0
        }
    &&& drops.len() == made_before(each, each.len() as int)
}

/// How many of `each` before `index` there are.
#[verifier::opaque]
pub open spec fn made_before(each: Seq<Option<ExprId>>, index: int) -> nat {
    each.take(index).filter(|drop: Option<ExprId>| drop is Some).len()
}

proof fn one_more_made(each: Seq<Option<ExprId>>, drops: Seq<ExprId>, drop: Option<ExprId>)
    requires
        are_those_made(each, drops),
    ensures
        are_those_made(each.push(drop), with_drop(drops, drop)),
{
    let all = each.push(drop);
    let more = with_drop(drops, drop);
    reveal(Seq::filter);
    reveal(made_before);
    assert forall|i: int| 0 <= i <= each.len() implies #[trigger] made_before(all, i) == made_before(
        each,
        i,
    ) by {
        assert(all.take(i) =~= each.take(i));
    }
    let count = each.len() as int;
    assert(all.take(count + 1).drop_last() =~= all.take(count));
    assert(all.take(count + 1).last() == drop);
    assert(made_before(all, count) == drops.len());
    let is_made = |drop: Option<ExprId>| drop is Some;
    assert(all.take(count + 1).filter(is_made) == if is_made(drop) {
        all.take(count).filter(is_made).push(drop)
    } else {
        all.take(count).filter(is_made)
    });
    assert(made_before(all, count + 1) == more.len());
    assert forall|i: int| 0 <= i < all.len() && (#[trigger] all[i]) is Some implies made_before(
        all,
        i,
    ) < more.len() && more[made_before(all, i) as int] == all[i]->0 by {
        if i < each.len() {
            assert(each[i] == all[i]);
            assert(made_before(all, i) == made_before(each, i));
        }
    }
}

impl State {
    /// Each field is dropped in turn, as a place of its own: `states` are those before each of them,
    /// and the one behind the last.
    pub open spec fn drops_each_field(
        place: Place,
        fields: Seq<FieldForm>,
        location: Location,
        depth: nat,
        states: Seq<State>,
        each: Seq<Option<ExprId>>,
    ) -> bool {
        &&& states.len() == fields.len() + 1
        &&& each.len() == fields.len()
        &&& forall|i: int|
            #![trigger fields[i]]
            0 <= i < fields.len() ==> states[i].drop_of(
                (place.0, place.1.push(fields[i].name)),
                fields[i].typ,
                location,
                depth,
            ) == (each[i], states[i + 1])
    }

    proof fn dropping_fields(
        self,
        place: Place,
        fields: Seq<FieldForm>,
        count: int,
        location: Location,
        depth: nat,
    ) -> (stages: (Seq<State>, Seq<Option<ExprId>>))
        requires
            0 <= count <= fields.len(),
        ensures
            ({
                let (states, each) = stages;
                let (drops, after) = self.field_drops(place, fields, count, location, depth);
                &&& State::drops_each_field(
                    place,
                    fields.take(count),
                    location,
                    depth,
                    states,
                    each,
                )
                &&& states[0] == self
                &&& states.last() == after
                &&& are_those_made(each, drops)
            }),
        decreases count,
    {
        if count > 0 {
            let (states, each) = self.dropping_fields(place, fields, count - 1, location, depth);
            let (drops, made) = self.field_drops(place, fields, count - 1, location, depth);
            let field = fields[count - 1];
            let (drop, after) = made.drop_of(
                (place.0, place.1.push(field.name)),
                field.typ,
                location,
                depth,
            );
            one_more_made(each, drops, drop);
            let more = states.push(after);
            let all = each.push(drop);
            let earlier = fields.take(count - 1);
            let now = fields.take(count);
            assert forall|i: int|
                #![trigger now[i]]
                0 <= i < now.len() implies more[i].drop_of(
                (place.0, place.1.push(now[i].name)),
                now[i].typ,
                location,
                depth,
            ) == (all[i], more[i + 1]) by {
                if i < count - 1 {
                    assert(earlier[i] == now[i]);
                }
            }
            (more, all)
        } else {
            reveal(Seq::filter);
            reveal(made_before);
            let each = Seq::<Option<ExprId>>::empty();
            assert(each.take(0) =~= each);
            (seq![self], each)
        }
    }

    /// A value with fields that is dropped by its parts is dropped field by field, in the order the
    /// fields are declared in, by the sequence of the drops that they need. Gives the states around
    /// the drops, and what each field gave.
    pub proof fn law_each_field_is_dropped_in_turn(
        self,
        place: Place,
        typ: Type,
        location: Location,
        depth: nat,
    ) -> (stages: (Seq<State>, Seq<Option<ExprId>>))
        requires
            self.drop_expansion_depth < EXPANSION_LIMIT,
            self.facts.database.fields_of(typ).len() > 0,
        ensures
            ({
                let (states, each) = stages;
                let fields = self.facts.database.fields_of(typ);
                let (drop, after) = self.structural_drop(place, typ, location, depth);
                let dropped = states.last();
                &&& State::drops_each_field(place, fields, location, depth, states, each)
                &&& states[0] == (State {
                    drop_expansion_depth: (self.drop_expansion_depth + 1) as u32,
                    ..self
                })
                &&& drop is Some <==> exists|i: int|
                    0 <= i < each.len() && (#[trigger] each[i]) is Some
                &&& drop is Some && dropped.context.has_room(1) ==> {
                    after.context.expr(drop->0) matches ExprForm::Sequence(drops)
                        && are_those_made(each, drops)
                }
            }),
    {
        let fields = self.facts.database.fields_of(typ);
        let inner = State {
            drop_expansion_depth: (self.drop_expansion_depth + 1) as u32,
            ..self
        };
        let count = fields.len() as int;
        let (states, each) = inner.dropping_fields(place, fields, count, location, depth);
        assert(fields.take(count) =~= fields);
        let (drops, made) = inner.field_drops(place, fields, count, location, depth);
        some_were_made(each);
        made.sequencing_lists(drops, location);
        assert(inner.parts_drop(place, typ, location, depth) == made.sequenced(drops, location));
        (states, each)
    }

    proof fn sequencing_lists(self, drops: Seq<ExprId>, location: Location)
        ensures
            ({
                let (drop, after) = self.sequenced(drops, location);
                &&& drop is Some <==> drops.len() > 0
                &&& drop is Some && self.context.has_room(1) ==> after.context.expr(drop->0)
                    == ExprForm::Sequence(drops)
            }),
    {
    }
}

proof fn some_were_made(each: Seq<Option<ExprId>>)
    ensures
        made_before(each, each.len() as int) > 0 <==> exists|i: int|
            0 <= i < each.len() && (#[trigger] each[i]) is Some,
    decreases each.len(),
{
    reveal(Seq::filter);
    reveal(made_before);
    let count = each.len() as int;
    assert(each.take(count) =~= each);
    if count > 0 {
        let earlier = each.drop_last();
        some_were_made(earlier);
        assert(earlier.take(count - 1) =~= earlier);
        if exists|i: int| 0 <= i < earlier.len() && (#[trigger] earlier[i]) is Some {
            let i = choose|i: int| 0 <= i < earlier.len() && (#[trigger] earlier[i]) is Some;
            assert(each[i] is Some);
        }
        if exists|i: int| 0 <= i < each.len() && (#[trigger] each[i]) is Some {
            let i = choose|i: int| 0 <= i < each.len() && (#[trigger] each[i]) is Some;
            if i < count - 1 {
                assert(earlier[i] is Some);
            }
        }
        assert(each[count - 1] == each.last());
    }
}

impl State {
    /// What follows a payload that `pattern` binds: it is bound to a variable of its own, and dropped
    /// through it, unless it was moved. What was moved out of it before is left alone.
    pub open spec fn binds_and_drops(
        self,
        payload: Place,
        typ: Type,
        moves: Option<Moves>,
        location: Location,
        depth: nat,
        pattern: PatternId,
        drop: Option<ExprId>,
        after: State,
    ) -> bool {
        let name = self.next_name();
        exists|bound: State|
            {
                &&& #[trigger] bound.context.pattern(pattern) == PatternForm::Variable(name)
                &&& bound.name_types == self.name_types.insert(name, typ)
                &&& bound.moves == self.moves
                &&& match moves {
                    None => (drop, after) == bound.drop_of(
                        (name, Seq::empty()),
                        typ,
                        location,
                        depth,
                    ),
                    Some(moves) => if moves.moved_at(payload) is Some {
                        drop is None && after == bound
                    } else {
                        (drop, after) == bound.residual_drop(
                            (name, Seq::empty()),
                            typ,
                            moves.rerooted(payload, (name, Seq::empty())),
                            location,
                            depth,
                        )
                    },
                }
            }
    }

    /// The payloads of a variant are bound and dropped in turn: `states` are those before each of
    /// them, and the one behind the last.
    pub open spec fn drops_each_payload(
        place: Place,
        variant: Seq<char>,
        payloads: Seq<Type>,
        moves: Option<Moves>,
        location: Location,
        depth: nat,
        states: Seq<State>,
        patterns: Seq<PatternId>,
        each: Seq<Option<ExprId>>,
    ) -> bool {
        &&& states.len() == payloads.len() + 1
        &&& patterns.len() == payloads.len()
        &&& each.len() == payloads.len()
        &&& forall|i: int|
            #![trigger payloads[i]]
            0 <= i < payloads.len() && states[i].context.has_room(1)
                ==> states[i].binds_and_drops(
                (place.0, place.1.push(payload_field(variant, i as nat))),
                payloads[i],
                moves,
                location,
                depth,
                patterns[i],
                each[i],
                states[i + 1],
            )
    }

    /// The payloads of a variant are bound and dropped in turn, each as it lies in the variant.
    /// Gives the states around the drops, and what each payload gave.
    pub proof fn law_each_payload_is_dropped_in_turn(
        self,
        place: Place,
        variant: Seq<char>,
        payloads: Seq<Type>,
        count: int,
        moves: Option<Moves>,
        location: Location,
        depth: nat,
    ) -> (stages: (Seq<State>, Seq<Option<ExprId>>))
        requires
            0 <= count <= payloads.len(),
        ensures
            ({
                let (states, each) = stages;
                let (patterns, drops, after) = self.payload_drops(
                    place,
                    variant,
                    payloads,
                    count,
                    moves,
                    location,
                    depth,
                );
                &&& State::drops_each_payload(
                    place,
                    variant,
                    payloads.take(count),
                    moves,
                    location,
                    depth,
                    states,
                    patterns,
                    each,
                )
                &&& states[0] == self
                &&& states.last() == after
                &&& are_those_made(each, drops)
            }),
        decreases count,
    {
        if count > 0 {
            let (states, each) = self.law_each_payload_is_dropped_in_turn(
                place,
                variant,
                payloads,
                count - 1,
                moves,
                location,
                depth,
            );
            let (patterns, drops, made) = self.payload_drops(
                place,
                variant,
                payloads,
                count - 1,
                moves,
                location,
                depth,
            );
            let (all_patterns, all_drops, after) = self.payload_drops(
                place,
                variant,
                payloads,
                count,
                moves,
                location,
                depth,
            );
            let typ = payloads[count - 1];
            let name = made.next_name();
            let named = made.with_variable("drop_payload"@, typ, location);
            let pattern = named.next_pattern();
            let bound = named.with_pattern(PatternForm::Variable(name), location);
            let payload = (place.0, place.1.push(payload_field(variant, (count - 1) as nat)));
            let binding = (name, Seq::<Seq<char>>::empty());
            let drop = match moves {
                None => bound.drop_of(binding, typ, location, depth).0,
                Some(moves) => if moves.moved_at(payload) is Some {
                    None
                } else {
                    bound.residual_drop(
                        binding,
                        typ,
                        moves.rerooted(payload, binding),
                        location,
                        depth,
                    ).0
                },
            };
            one_more_made(each, drops, drop);
            assert(all_drops == with_drop(drops, drop));
            let more = states.push(after);
            let all = each.push(drop);
            let earlier = payloads.take(count - 1);
            let now = payloads.take(count);
            if made.context.has_room(1) {
                assert(bound.context.pattern(pattern) == PatternForm::Variable(name));
                assert(made.binds_and_drops(
                    payload,
                    typ,
                    moves,
                    location,
                    depth,
                    pattern,
                    drop,
                    after,
                ));
            }
            assert forall|i: int|
                #![trigger now[i]]
                0 <= i < now.len() && more[i].context.has_room(1) implies more[i].binds_and_drops(
                (place.0, place.1.push(payload_field(variant, i as nat))),
                now[i],
                moves,
                location,
                depth,
                all_patterns[i],
                all[i],
                more[i + 1],
            ) by {
                if i < count - 1 {
                    assert(earlier[i] == now[i]);
                    assert(states[i] == more[i]);
                }
            }
            (more, all)
        } else {
            reveal(Seq::filter);
            reveal(made_before);
            let each = Seq::<Option<ExprId>>::empty();
            assert(each.take(0) =~= each);
            (seq![self], each)
        }
    }

    /// A case of a drop matches the variant and runs the drops, or does nothing if there are none.
    pub proof fn law_a_case_runs_the_drops_of_its_variant(
        self,
        text: Seq<char>,
        constructor: TopLevelName,
        arguments: Seq<PatternId>,
        drops: Seq<ExprId>,
        location: Location,
    )
        requires
            self.context.has_room(1),
        ensures
            ({
                let ((pattern, body), after) = self.variant_case(
                    text,
                    constructor,
                    arguments,
                    drops,
                    location,
                );
                &&& after.context.pattern(pattern) matches PatternForm::Constructor(path, bound)
                    && bound == arguments && after.context.path_origin(path) == Some(
                    Origin::TopLevelDefinition(constructor),
                )
                &&& after.context.expr(body) == if drops.len() > 0 {
                    ExprForm::Sequence(drops)
                } else {
                    ExprForm::Literal(Literal::Unit)
                }
            }),
    {
    }

    /// Each variant has a case, in the order they are declared in, in which its payloads are bound
    /// and dropped: `states` are those before each of them, and the one behind the last.
    pub open spec fn has_a_case_for_each(
        place: Place,
        item: TopLevelId,
        names: Seq<NameId>,
        variants: Seq<(String, Vec<Type>)>,
        moves: Option<Moves>,
        location: Location,
        depth: nat,
        states: Seq<State>,
        cases: Seq<(PatternId, ExprId)>,
    ) -> bool {
        &&& states.len() == variants.len() + 1
        &&& cases.len() == variants.len()
        &&& forall|i: int|
            #![trigger variants[i]]
            0 <= i < variants.len() ==> {
                let text = variants[i].0@;
                let payloads = variants[i].1@;
                let (arguments, drops, bound) = states[i].payload_drops(
                    place,
                    text,
                    payloads,
                    payloads.len() as int,
                    moves,
                    location,
                    depth,
                );
                (cases[i], states[i + 1]) == bound.variant_case(
                    text,
                    TopLevelName { top_level_item: item, local_name_id: names[i] },
                    arguments,
                    drops,
                    location,
                )
            }
    }

    /// Some variant has something to drop.
    pub open spec fn some_variant_drops(
        place: Place,
        variants: Seq<(String, Vec<Type>)>,
        moves: Option<Moves>,
        location: Location,
        depth: nat,
        states: Seq<State>,
    ) -> bool {
        exists|i: int|
            0 <= i < variants.len() && states[i].payload_drops(
                place,
                (#[trigger] variants[i]).0@,
                variants[i].1@,
                variants[i].1@.len() as int,
                moves,
                location,
                depth,
            ).1.len() > 0
    }

    proof fn cases_are_made(
        self,
        place: Place,
        item: TopLevelId,
        names: Seq<NameId>,
        variants: Seq<(String, Vec<Type>)>,
        count: int,
        moves: Option<Moves>,
        location: Location,
        depth: nat,
    ) -> (states: Seq<State>)
        requires
            0 <= count <= variants.len(),
        ensures
            ({
                let (cases, any, after) = self.variant_cases(
                    place,
                    item,
                    names,
                    variants,
                    count,
                    moves,
                    location,
                    depth,
                );
                let first = variants.take(count);
                &&& State::has_a_case_for_each(
                    place,
                    item,
                    names,
                    first,
                    moves,
                    location,
                    depth,
                    states,
                    cases,
                )
                &&& any <==> State::some_variant_drops(
                    place,
                    first,
                    moves,
                    location,
                    depth,
                    states,
                )
                &&& states[0] == self
                &&& states.last() == after
            }),
        decreases count,
    {
        if count > 0 {
            let states = self.cases_are_made(
                place,
                item,
                names,
                variants,
                count - 1,
                moves,
                location,
                depth,
            );
            let (cases, any, made) = self.variant_cases(
                place,
                item,
                names,
                variants,
                count - 1,
                moves,
                location,
                depth,
            );
            let (all_cases, all_any, after) = self.variant_cases(
                place,
                item,
                names,
                variants,
                count,
                moves,
                location,
                depth,
            );
            let more = states.push(after);
            let earlier = variants.take(count - 1);
            let now = variants.take(count);
            assert forall|i: int|
                #![trigger now[i]]
                0 <= i < now.len() implies {
                let text = now[i].0@;
                let payloads = now[i].1@;
                let (arguments, drops, bound) = more[i].payload_drops(
                    place,
                    text,
                    payloads,
                    payloads.len() as int,
                    moves,
                    location,
                    depth,
                );
                (all_cases[i], more[i + 1]) == bound.variant_case(
                    text,
                    TopLevelName { top_level_item: item, local_name_id: names[i] },
                    arguments,
                    drops,
                    location,
                )
            } by {
                if i < count - 1 {
                    assert(earlier[i] == now[i]);
                }
            }
            if any {
                let i = choose|i: int|
                    0 <= i < earlier.len() && states[i].payload_drops(
                        place,
                        (#[trigger] earlier[i]).0@,
                        earlier[i].1@,
                        earlier[i].1@.len() as int,
                        moves,
                        location,
                        depth,
                    ).1.len() > 0;
                assert(now[i] == earlier[i] && more[i] == states[i]);
            }
            assert(now[count - 1] == variants[count - 1] && more[count - 1] == made);
            if State::some_variant_drops(place, now, moves, location, depth, more) {
                let i = choose|i: int|
                    0 <= i < now.len() && more[i].payload_drops(
                        place,
                        (#[trigger] now[i]).0@,
                        now[i].1@,
                        now[i].1@.len() as int,
                        moves,
                        location,
                        depth,
                    ).1.len() > 0;
                if i < count - 1 {
                    assert(earlier[i] == now[i] && states[i] == more[i]);
                }
            }
            more
        } else {
            seq![self]
        }
    }

    /// A value of an enum that is dropped by its parts is matched on, with a case for each variant,
    /// unless no variant has anything to drop. Gives the states around the cases.
    pub proof fn law_each_variant_is_dropped_in_its_case(
        self,
        place: Place,
        typ: Type,
        moves: Option<Moves>,
        location: Location,
        depth: nat,
    ) -> (states: Seq<State>)
        requires
            self.sum_of(self.follow(typ)) is Some,
        ensures
            ({
                let (item, names, variants) = self.sum_of(self.follow(typ))->0;
                let (drop, after) = self.sum_drop(place, typ, moves, location, depth);
                let cased = states.last();
                &&& states.len() > 0 && states[0] == self
                &&& drop is Some <==> State::some_variant_drops(
                    place,
                    variants,
                    moves,
                    location,
                    depth,
                    states,
                )
                &&& drop is Some && cased.context.has_room(place.1.len() + 2) ==> {
                    after.context.expr(drop->0) matches ExprForm::Match { expression, cases } && {
                        &&& after.context.reads(expression, place)
                        &&& State::has_a_case_for_each(
                            place,
                            item,
                            names,
                            variants,
                            moves,
                            location,
                            depth,
                            states,
                            cases,
                        )
                    }
                }
            }),
    {
        let (item, names, variants) = self.sum_of(self.follow(typ))->0;
        let count = variants.len() as int;
        let states = self.cases_are_made(
            place,
            item,
            names,
            variants,
            count,
            moves,
            location,
            depth,
        );
        assert(variants.take(count) =~= variants);
        let (cases, any, made) = self.variant_cases(
            place,
            item,
            names,
            variants,
            count,
            moves,
            location,
            depth,
        );
        if any && made.context.has_room(place.1.len() + 2) {
            let typ = self.follow(typ);
            made.law_a_place_is_written_as_it_is_named(place, typ, location);
            let (expression, placed) = made.place_expr(place, typ, location);
            let (id, matched) = made.match_on(place, typ, cases, location);
            assert(placed.context.is_grown_into(matched.context));
            placed.context.reads_stay(matched.context, expression, place);
            assert(matched.context.expr(id) == (ExprForm::Match { expression, cases }));
        }
        states
    }

    /// The handles a closure captured are dropped in turn, each under its own name: `states` are
    /// those before each of them, and the one behind the last.
    pub open spec fn drops_each_capture(
        captures: Seq<NameId>,
        location: Location,
        depth: nat,
        states: Seq<State>,
        each: Seq<Option<ExprId>>,
    ) -> bool {
        &&& states.len() == captures.len() + 1
        &&& each.len() == captures.len()
        &&& forall|i: int|
            #![trigger captures[i]]
            0 <= i < captures.len() ==> (each[i], states[i + 1])
                == if states[i].name_types.contains_key(captures[i]) {
                states[i].drop_of(
                    (captures[i], Seq::empty()),
                    states[i].name_types[captures[i]],
                    location,
                    depth,
                )
            } else {
                (None, states[i])
            }
    }

    /// The handles a closure captured are dropped in turn, each under its own name. Gives the states
    /// around the drops, and what each capture gave.
    pub proof fn law_each_capture_is_dropped_in_turn(
        self,
        captures: Seq<NameId>,
        count: int,
        location: Location,
        depth: nat,
    ) -> (stages: (Seq<State>, Seq<Option<ExprId>>))
        requires
            0 <= count <= captures.len(),
        ensures
            ({
                let (states, each) = stages;
                let (drops, after) = self.capture_drops(captures, count, location, depth);
                &&& State::drops_each_capture(
                    captures.take(count),
                    location,
                    depth,
                    states,
                    each,
                )
                &&& states[0] == self
                &&& states.last() == after
                &&& are_those_made(each, drops)
            }),
        decreases count,
    {
        if count > 0 {
            let (states, each) = self.law_each_capture_is_dropped_in_turn(
                captures,
                count - 1,
                location,
                depth,
            );
            let (drops, made) = self.capture_drops(captures, count - 1, location, depth);
            let name = captures[count - 1];
            let (drop, after) = if made.name_types.contains_key(name) {
                made.drop_of((name, Seq::empty()), made.name_types[name], location, depth)
            } else {
                (None, made)
            };
            one_more_made(each, drops, drop);
            let more = states.push(after);
            let all = each.push(drop);
            let earlier = captures.take(count - 1);
            let now = captures.take(count);
            assert forall|i: int|
                #![trigger now[i]]
                0 <= i < now.len() implies (all[i], more[i + 1])
                == if more[i].name_types.contains_key(now[i]) {
                more[i].drop_of(
                    (now[i], Seq::empty()),
                    more[i].name_types[now[i]],
                    location,
                    depth,
                )
            } else {
                (None, more[i])
            } by {
                if i < count - 1 {
                    assert(earlier[i] == now[i]);
                }
            }
            (more, all)
        } else {
            reveal(Seq::filter);
            reveal(made_before);
            let each = Seq::<Option<ExprId>>::empty();
            assert(each.take(0) =~= each);
            (seq![self], each)
        }
    }

    /// One slot more of the environment of a closure: if the closure owns what the slot holds and
    /// that needs a drop, the slot is read out of the closure into a variable, which is dropped.
    /// `more` is what that adds to the drops.
    pub open spec fn drops_slot(
        self,
        place: Place,
        slot: Type,
        index: int,
        location: Location,
        depth: nat,
        more: Seq<ExprId>,
        after: State,
    ) -> bool {
        let slot = self.follow(slot);
        let name = self.next_name();
        if !self.owns_slot(slot) {
            more.len() == 0 && after == self
        } else {
            let (drop, dropped) = self.with_variable("env_slot"@, slot, location).drop_of(
                (name, Seq::empty()),
                slot,
                location,
                depth,
            );
            match drop {
                None => more.len() == 0 && after == dropped,
                Some(drop) => dropped.context.has_room(place.1.len() + 2) ==> {
                    &&& more.len() == 2
                    &&& more[1] == drop
                    &&& after.context.expr(more[0]) matches ExprForm::Definition(definition) && {
                        &&& after.context.pattern(definition.pattern) == PatternForm::Variable(name)
                        &&& after.context.reads(definition.rhs, place)
                        &&& after.context.closure_env_slots.contains_key(definition.rhs)
                        &&& after.context.closure_env_slots[definition.rhs] == index
                    }
                },
            }
        }
    }

    /// The slots that a closure owns are dropped one after the other. Gives the state before the
    /// last slot, and what that adds to the drops.
    pub proof fn law_each_owned_slot_is_dropped(
        self,
        place: Place,
        typ: Type,
        slots: Seq<Type>,
        count: int,
        location: Location,
        depth: nat,
    ) -> (stage: (State, Seq<ExprId>))
        requires
            0 < count <= slots.len() <= u32::MAX,
        ensures
            ({
                let (made, more) = stage;
                let (earlier, before) = self.owned_slot_drops(
                    place,
                    typ,
                    slots,
                    count - 1,
                    location,
                    depth,
                );
                let (drops, after) = self.owned_slot_drops(
                    place,
                    typ,
                    slots,
                    count,
                    location,
                    depth,
                );
                &&& made == before
                &&& drops == earlier + more
                &&& made.drops_slot(
                    place,
                    slots[count - 1],
                    count - 1,
                    location,
                    depth,
                    more,
                    after,
                )
            }),
    {
        let (earlier, made) = self.owned_slot_drops(
            place,
            typ,
            slots,
            count - 1,
            location,
            depth,
        );
        let (drops, after) = self.owned_slot_drops(place, typ, slots, count, location, depth);
        let more = drops.skip(earlier.len() as int);
        assert(drops =~= earlier + more);
        let slot = made.follow(slots[count - 1]);
        if made.owns_slot(slot) {
            let name = made.next_name();
            let (drop, dropped) = made.with_variable("env_slot"@, slot, location).drop_of(
                (name, Seq::empty()),
                slot,
                location,
                depth,
            );
            if drop is Some && dropped.context.has_room(place.1.len() + 2) {
                dropped.law_a_place_is_written_as_it_is_named(place, typ, location);
                let (extract, placed) = dropped.place_expr(place, typ, location);
                assert(placed.context.is_grown_into(after.context));
                placed.context.reads_stay(after.context, extract, place);
                assert(after.context.expr(more[0]) == ExprForm::Definition(
                    Definition {
                        pattern: placed.next_pattern(),
                        rhs: extract,
                        mutable: false,
                    },
                ));
            }
        }
        (made, more)
    }

    /// A closure that is dropped where it is bound drops the slots it owns, and then the handles it
    /// captured, in one sequence.
    pub proof fn law_a_closure_drops_its_slots_and_then_its_captures(
        self,
        name: NameId,
        typ: Type,
        location: Location,
        depth: nat,
    )
        ensures
            ({
                let (drop, after) = self.closure_drop(name, typ, location, depth);
                let (slots, made) = self.slot_drops(
                    (name, Seq::empty()),
                    self.follow(typ),
                    location,
                    depth,
                );
                let captures = if made.shared_closure_captures.contains_key(name) {
                    made.shared_closure_captures[name]
                } else {
                    Seq::empty()
                };
                let (handles, dropped) = made.capture_drops(
                    captures,
                    captures.len() as int,
                    location,
                    depth,
                );
                &&& drop is Some <==> slots.len() + handles.len() > 0
                &&& drop is Some && dropped.context.has_room(1) ==> after.context.expr(drop->0)
                    == ExprForm::Sequence(slots + handles)
            }),
    {
        let (slots, made) = self.slot_drops(
            (name, Seq::empty()),
            self.follow(typ),
            location,
            depth,
        );
        let captures = if made.shared_closure_captures.contains_key(name) {
            made.shared_closure_captures[name]
        } else {
            Seq::empty()
        };
        let (handles, dropped) = made.capture_drops(
            captures,
            captures.len() as int,
            location,
            depth,
        );
        dropped.sequencing_lists(slots + handles, location);
    }
}

impl State {
    /// What is left of each field is dropped in turn, as a place of its own: `states` are those
    /// before each of them, and the one behind the last.
    pub open spec fn drops_rest_of_each_field(
        place: Place,
        fields: Seq<FieldForm>,
        moves: Moves,
        location: Location,
        depth: nat,
        states: Seq<State>,
        each: Seq<Option<ExprId>>,
    ) -> bool {
        &&& states.len() == fields.len() + 1
        &&& each.len() == fields.len()
        &&& forall|i: int|
            #![trigger fields[i]]
            0 <= i < fields.len() ==> states[i].residual_drop(
                (place.0, place.1.push(fields[i].name)),
                fields[i].typ,
                moves,
                location,
                depth,
            ) == (each[i], states[i + 1])
    }

    proof fn dropping_rests(
        self,
        place: Place,
        fields: Seq<FieldForm>,
        count: int,
        moves: Moves,
        location: Location,
        depth: nat,
    ) -> (stages: (Seq<State>, Seq<Option<ExprId>>))
        requires
            0 <= count <= fields.len(),
        ensures
            ({
                let (states, each) = stages;
                let (drops, after) = self.residual_field_drops(
                    place,
                    fields,
                    count,
                    moves,
                    location,
                    depth,
                );
                &&& State::drops_rest_of_each_field(
                    place,
                    fields.take(count),
                    moves,
                    location,
                    depth,
                    states,
                    each,
                )
                &&& states[0] == self
                &&& states.last() == after
                &&& are_those_made(each, drops)
            }),
        decreases count,
    {
        if count > 0 {
            let (states, each) = self.dropping_rests(
                place,
                fields,
                count - 1,
                moves,
                location,
                depth,
            );
            let (drops, made) = self.residual_field_drops(
                place,
                fields,
                count - 1,
                moves,
                location,
                depth,
            );
            let field = fields[count - 1];
            let (drop, after) = made.residual_drop(
                (place.0, place.1.push(field.name)),
                field.typ,
                moves,
                location,
                depth,
            );
            one_more_made(each, drops, drop);
            let more = states.push(after);
            let all = each.push(drop);
            let earlier = fields.take(count - 1);
            let now = fields.take(count);
            assert forall|i: int|
                #![trigger now[i]]
                0 <= i < now.len() implies more[i].residual_drop(
                (place.0, place.1.push(now[i].name)),
                now[i].typ,
                moves,
                location,
                depth,
            ) == (all[i], more[i + 1]) by {
                if i < count - 1 {
                    assert(earlier[i] == now[i]);
                }
            }
            (more, all)
        } else {
            reveal(Seq::filter);
            reveal(made_before);
            let each = Seq::<Option<ExprId>>::empty();
            assert(each.take(0) =~= each);
            (seq![self], each)
        }
    }

    /// Of a value that something was moved out of, what is left of each field is dropped, in the
    /// order the fields are declared in. Gives the states around the drops, and what each field
    /// gave.
    pub proof fn law_what_is_left_of_each_field_is_dropped(
        self,
        place: Place,
        typ: Type,
        moves: Moves,
        location: Location,
        depth: nat,
    ) -> (stages: (Seq<State>, Seq<Option<ExprId>>))
        requires
            self.facts.database.fields_of(typ).len() > 0,
        ensures
            ({
                let (states, each) = stages;
                let fields = self.facts.database.fields_of(typ);
                let (drop, after) = self.residual_parts_drop(place, typ, moves, location, depth);
                &&& State::drops_rest_of_each_field(
                    place,
                    fields,
                    moves,
                    location,
                    depth,
                    states,
                    each,
                )
                &&& states[0] == self
                &&& drop is Some <==> exists|i: int|
                    0 <= i < each.len() && (#[trigger] each[i]) is Some
                &&& drop is Some && states.last().context.has_room(1) ==> {
                    after.context.expr(drop->0) matches ExprForm::Sequence(drops)
                        && are_those_made(each, drops)
                }
            }),
    {
        let fields = self.facts.database.fields_of(typ);
        let count = fields.len() as int;
        let (states, each) = self.dropping_rests(place, fields, count, moves, location, depth);
        assert(fields.take(count) =~= fields);
        let (drops, made) = self.residual_field_drops(
            place,
            fields,
            count,
            moves,
            location,
            depth,
        );
        some_were_made(each);
        made.sequencing_lists(drops, location);
        (states, each)
    }

    /// The drop of what is left of a value runs through no impl: something that has one cannot be
    /// taken apart. Neither is anything dropped of what is `Copy`, or not known in full.
    pub proof fn law_what_is_taken_apart_has_no_impl(
        self,
        place: Place,
        typ: Type,
        moves: Moves,
        location: Location,
        depth: nat,
    )
        requires
            !self.is_shared(self.follow(typ)),
            moves.moved_below(place),
            self.is_copy(self.follow(typ)) || !self.is_concrete(self.follow(typ)) || self.copy_asked(
                self.follow(typ),
            ).has_drop_impl(self.follow(typ)),
        ensures
            self.residual_drop(place, typ, moves, location, depth).0 is None,
    {
    }

    /// An assignment to a place that is owned here drops what is left of the old value first, and
    /// one to any other place drops nothing. A reference is no owner.
    pub proof fn law_an_assignment_drops_what_it_overwrites(
        self,
        assignment: crate::cst::Assignment,
        id: ExprId,
        place: Place,
        typ: Type,
    )
        requires
            self.elaborates_drops(),
            self.place_of_expr(assignment.lhs) == Some(place),
            self.type_of_expr(assignment.lhs) == Some(typ),
        ensures
            ({
                let after = self.overwritten_dropped(assignment, id);
                let is_local = self.function_local_names.len() > 0
                    && self.function_local_names.last().contains(place.0);
                let is_outer = self.in_handler_scoped_lambda && exists|i: int|
                    0 <= i < self.function_local_names.len() && (
                    #[trigger] self.function_local_names[i]).contains(place.0);
                let points = self.name_types.contains_key(place.0) && {
                    let own = self.name_types[place.0];
                    own.referent(self.bindings) is Some || own.pointee(self.bindings) is Some
                };
                if (is_local || is_outer) && self.name_types.contains_key(place.0) && !points {
                    let (drop, made) = State {
                        suppress_missing_drop_diagnostic: true,
                        ..self
                    }.remainder_dropped(
                        place,
                        typ,
                        self.moves,
                        self.context.expr_location(assignment.lhs),
                    );
                    let before = if made.context.pre_exit_drops.contains_key(id) {
                        made.context.pre_exit_drops[id]
                    } else {
                        Seq::empty()
                    };
                    match drop {
                        Some(drop) => after.context.pre_exit_drops
                            == made.context.pre_exit_drops.insert(id, before.push(drop)),
                        None => after.context.pre_exit_drops == made.context.pre_exit_drops,
                    }
                } else {
                    after == self
                }
            }),
    {
        let quiet = State { suppress_missing_drop_diagnostic: true, ..self };
        let (drop, made) = quiet.remainder_dropped(
            place,
            typ,
            self.moves,
            self.context.expr_location(assignment.lhs),
        );
        if drop is Some {
            let before = ContextState::drops_in(made.context.pre_exit_drops, id);
            assert(before + seq![drop->0] =~= before.push(drop->0));
        }
    }

    /// A statement whose value nothing uses becomes one that binds the value to a variable of its
    /// own and drops that. What it was stands under another id, with all that was recorded of it.
    /// Gives the variable, and that id.
    pub proof fn law_a_value_that_is_not_used_is_dropped(self, item: ExprId, typ: Type) -> (stages: (
        NameId,
        ExprId,
    ))
        requires
            self.elaborates_drops(),
            item < self.context.exprs.len(),
            !self.is_copy(self.follow(typ)),
            self.is_concrete(self.follow(typ)),
            self.follow(typ) != Type::error(),
            !self.diverges(self.follow(typ)),
        ensures
            ({
                let (name, copied) = stages;
                let typ = self.follow(typ);
                let location = self.context.expr_location(item);
                let after = self.statement_value_dropped(item, typ);
                let (drop, made) = self.copy_asked(typ).with_variable(
                    "drop_tmp"@,
                    typ,
                    location,
                ).place_dropped((name, Seq::empty()), typ, location);
                &&& name == self.next_name()
                &&& self.follow(typ) == typ ==> match drop {
                    None => after == made,
                    Some(drop) => made.context.has_room(2) ==> {
                        &&& after.context.expr(copied) == self.context.expr(item)
                        &&& copied != item
                        &&& after.expr_types.contains_key(copied) && after.expr_types[copied] == typ
                        &&& after.context.expr(item) matches ExprForm::Sequence(statements) && {
                            &&& statements.len() == 2
                            &&& statements[1] == drop
                            &&& after.context.expr(statements[0]) matches ExprForm::Definition(
                                definition,
                            ) && definition.rhs == copied && !definition.mutable
                                && after.context.pattern(definition.pattern)
                                == PatternForm::Variable(name)
                        }
                        &&& !after.context.post_expr_drops.contains_key(item)
                        &&& !after.context.pre_exit_drops.contains_key(item)
                        &&& made.context.post_expr_drops.contains_key(item)
                            ==> after.context.post_expr_drops.contains_key(copied)
                            && after.context.post_expr_drops[copied]
                            == made.context.post_expr_drops[item]
                    },
                }
            }),
    {
        let typ = self.follow(typ);
        let location = self.context.expr_location(item);
        let name = self.next_name();
        let with_name = self.copy_asked(typ).with_variable("drop_tmp"@, typ, location);
        let (drop, made) = with_name.place_dropped((name, Seq::empty()), typ, location);
        with_name.law_drops_only_add((name, Seq::empty()), typ, self.moves, location);
        assert(made.context.exprs[item as int] == self.context.exprs[item as int]);
        let copied = made.next_expr();
        if drop is Some && made.context.has_room(2) && self.follow(typ) == typ {
            let after = self.statement_value_dropped(item, typ);
            assert(after == made.statement_wrapped(item, name, typ, location, drop->0));
            let definition = Definition {
                pattern: made.next_pattern(),
                rhs: copied,
                mutable: false,
            };
            let statement = (copied + 1) as u32;
            assert(after.context.exprs.len() == made.context.exprs.len() + 2);
            assert(after.context.expr(item) == ExprForm::Sequence(seq![statement, drop->0]));
            assert(after.context.expr(statement) == ExprForm::Definition(definition));
            assert(after.context.expr(copied) == made.context.expr(item));
        }
        (name, copied)
    }
}

} // verus!

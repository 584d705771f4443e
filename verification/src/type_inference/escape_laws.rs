//! What holds of what leaves a function: what its closures point at, what would dangle, and what is
//! recorded of its parameters.

#[allow(unused_imports)]
use crate::collections::{law_put, lookup, put};
#[allow(unused_imports)]
use crate::cst::{ExprForm, Parameter};
#[allow(unused_imports)]
use crate::ids::{ExprId, Location, NameId, Origin as NameOrigin, NESTING_LIMIT};
#[allow(unused_imports)]
use crate::type_inference::checker::State;
#[allow(unused_imports)]
use crate::type_inference::flow_laws::reported_at;
#[allow(unused_imports)]
use crate::type_inference::origins::{OriginForm, OriginPlace, Origins};
#[allow(unused_imports)]
use crate::type_inference::scope_laws::{
    explicit_before, explicit_before_ascends, explicit_before_grows,
};
#[allow(unused_imports)]
use crate::types::{PrimitiveType, Type};
use vstd::prelude::*;

verus! {

impl State {
    /// A closure that captures `name` points there with it: where the variable is known to point,
    /// and otherwise at the variable itself, unless the closure owns it or it is a reference.
    pub open spec fn points_through_capture(
        self,
        lambda: ExprId,
        is_move: bool,
        bindings: Map<NameId, Origins>,
        name: NameId,
        origin: OriginForm,
    ) -> bool {
        let known = bindings.contains_key(name) && bindings[name].len() > 0;
        &&& self.context.is_used_free(lambda, name, NESTING_LIMIT as nat)
        &&& known ==> bindings[name].contains(origin)
        &&& !known ==> {
            &&& !is_move
            &&& !self.is_reference_typed(name)
            &&& origin.kind == OriginPlace::Local((name, Seq::empty()))
            &&& origin.capture_borrow
            &&& origin.location == Some(self.context.expr_location(lambda))
        }
    }

    proof fn captures_point(
        self,
        lambda: ExprId,
        is_move: bool,
        bindings: Map<NameId, Origins>,
        locals: Seq<NameId>,
        count: int,
        origin: OriginForm,
    )
        requires
            0 <= count <= locals.len(),
        ensures
            self.captured_origins(lambda, is_move, bindings, locals, count).contains(origin)
                <==> exists|i: int|
                0 <= i < count && self.points_through_capture(
                    lambda,
                    is_move,
                    bindings,
                    #[trigger] locals[i],
                    origin,
                ),
        decreases count,
    {
        if count > 0 {
            self.captures_point(lambda, is_move, bindings, locals, count - 1, origin);
            let name = locals[count - 1];
            self.law_what_is_used_from_outside_is_captured(lambda, name);
            let before = self.captured_origins(lambda, is_move, bindings, locals, count - 1);
            let all = self.captured_origins(lambda, is_move, bindings, locals, count);
            let own = self.points_through_capture(lambda, is_move, bindings, name, origin);
            if before.contains(origin) {
                let k = choose|k: int| 0 <= k < before.len() && before[k] == origin;
                assert(all[k] == origin);
            }
            if own {
                if bindings.contains_key(name) && bindings[name].len() > 0 {
                    let set = bindings[name];
                    let k = choose|k: int| 0 <= k < set.len() && set[k] == origin;
                    assert(all[before.len() + k] == origin);
                } else {
                    assert(all[before.len() as int] == origin);
                }
            }
            if all.contains(origin) && !before.contains(origin) {
                let k = choose|k: int| 0 <= k < all.len() && all[k] == origin;
                if k < before.len() {
                    assert(before[k] == origin);
                }
                if bindings.contains_key(name) && bindings[name].len() > 0 {
                    assert(bindings[name][k - before.len()] == origin);
                }
                assert(own);
            }
            assert(locals[count - 1] == name);
        }
    }

    /// A closure points where its captures of the locals of the innermost function do, and nowhere
    /// else.
    pub proof fn law_a_closure_points_where_its_captures_do(
        self,
        lambda: ExprId,
        bindings: Map<NameId, Origins>,
        origin: OriginForm,
    )
        requires
            self.context.expr(lambda) is Lambda,
            self.function_local_names.len() > 0,
        ensures
            ({
                let locals = self.function_local_names[self.function_local_names.len() - 1];
                let is_move = self.context.expr(lambda)->Lambda_is_move;
                self.lambda_origin(lambda, bindings).contains(origin) <==> exists|i: int|
                    0 <= i < locals.len() && self.points_through_capture(
                        lambda,
                        is_move,
                        bindings,
                        #[trigger] locals[i],
                        origin,
                    )
            }),
    {
        let locals = self.function_local_names.last();
        let is_move = self.context.expr(lambda)->Lambda_is_move;
        self.captures_point(lambda, is_move, bindings, locals, locals.len() as int, origin);
    }

    /// What the expression stands for dies where the function returns: it is an owned local of it
    /// that is no reference, a part of such a one, or a value that nothing holds and that is there.
    pub open spec fn dies_here(self, target: ExprId, depth: nat) -> bool
        decreases depth,
    {
        depth > 0 && match self.context.expr(target) {
            ExprForm::Variable(path) => self.context.path_origin(path) matches Some(
                NameOrigin::Local(name),
            ) && self.function_local_names.len() > 0 && self.function_local_names.last().contains(
                name,
            ) && self.name_types.contains_key(name) && self.name_types[name].referent(
                self.bindings,
            ) is None && self.name_types[name].pointee(self.bindings) is None,
            ExprForm::MemberAccess { object, .. } => self.dies_here(object, (depth - 1) as nat),
            ExprForm::TypeAnnotation { lhs } => self.dies_here(lhs, (depth - 1) as nat),
            _ => self.expr_types.contains_key(target) ==> self.follow(self.expr_types[target])
                != Type::Primitive(PrimitiveType::Never),
        }
    }

    proof fn function_locals_die(self, target: ExprId, depth: nat)
        ensures
            self.is_function_local_at(target, depth) == self.dies_here(target, depth),
        decreases depth,
    {
        if depth > 0 {
            match self.context.expr(target) {
                ExprForm::MemberAccess { object, .. } => {
                    self.function_locals_die(object, (depth - 1) as nat);
                },
                ExprForm::TypeAnnotation { lhs } => {
                    self.function_locals_die(lhs, (depth - 1) as nat);
                },
                _ => {},
            }
        }
    }

    /// What is local to the function is what dies with it.
    pub proof fn law_what_is_local_dies_with_the_function(self, target: ExprId)
        ensures
            self.is_function_local(target) <==> self.dies_here(target, NESTING_LIMIT as nat),
    {
        self.function_locals_die(target, NESTING_LIMIT as nat);
    }

    /// The origin would dangle behind the function: it is a temporary, or a local that the function
    /// owns.
    pub open spec fn would_dangle(self, origin: OriginForm) -> bool {
        match origin.kind {
            OriginPlace::LocalTemp => true,
            OriginPlace::Local(place) => self.function_local_names.len() > 0
                && self.function_local_names.last().contains(place.0),
            OriginPlace::Param(_) => false,
            OriginPlace::Immortal => false,
        }
    }

    proof fn rejecting_asks(self, tail: Origins, returned: ExprId, count: int)
        ensures
            self.escapes_rejected(tail, returned, count).1.only_asked(self),
        decreases count,
    {
        if count > 0 {
            self.rejecting_asks(tail, returned, count - 1);
        }
    }

    /// Nothing is reported where nothing would dangle: each location that is reported is that of an
    /// origin that would, and that is no capture a closure may copy. Gives the place of the origin
    /// in `tail`, and the state in which it was asked whether it may be copied.
    pub proof fn law_only_what_would_dangle_is_reported(
        self,
        tail: Origins,
        returned: ExprId,
        count: int,
        location: Location,
    ) -> (found: (int, State))
        requires
            0 <= count <= tail.len(),
            self.escapes_rejected(tail, returned, count).0.contains(location),
        ensures
            ({
                let (index, asked) = found;
                let origin = tail[index];
                &&& 0 <= index < count
                &&& asked.only_asked(self)
                &&& self.would_dangle(origin)
                &&& reported_at(self, origin, returned) == location
                &&& origin.capture_borrow ==> match origin.kind {
                    OriginPlace::Local(place) => !asked.is_copy(self.type_of_name(place.0)),
                    _ => true,
                }
            }),
        decreases count,
    {
        self.rejecting_asks(tail, returned, count - 1);
        let (before, state) = self.escapes_rejected(tail, returned, count - 1);
        let reported = self.escapes_rejected(tail, returned, count).0;
        let k = choose|k: int| 0 <= k < reported.len() && reported[k] == location;
        if k < before.len() {
            assert(before[k] == location);
            self.law_only_what_would_dangle_is_reported(tail, returned, count - 1, location)
        } else {
            (count - 1, state)
        }
    }

    /// An origin is said to escape if and only if it would dangle.
    pub proof fn law_what_escapes_would_dangle(self, origin: OriginForm)
        ensures
            self.escapes(origin.kind) <==> self.would_dangle(origin),
    {
    }

    proof fn flow_mask_is_long(self, parameters: Seq<Parameter>, tail: Origins, count: int)
        requires
            0 <= count <= parameters.len(),
        ensures
            self.flow_mask(parameters, tail, count).len() == explicit_before(parameters, count),
        decreases count,
    {
        if count > 0 {
            self.flow_mask_is_long(parameters, tail, count - 1);
            explicit_before_grows(parameters, count - 1);
        } else if parameters.len() > 0 {
            explicit_before_grows(parameters, 0);
        } else {
            reveal(Seq::filter);
            assert(parameters.take(0) =~= Seq::<Parameter>::empty());
        }
    }

    /// What is recorded of a function says of each parameter that is written at a call, in their
    /// order, whether what is returned may point where it does.
    pub proof fn law_a_summary_marks_what_is_returned(
        self,
        parameters: Seq<Parameter>,
        tail: Origins,
        count: int,
        index: int,
    )
        requires
            0 <= index < count <= parameters.len(),
            !parameters[index].is_implicit,
        ensures
            ({
                let mask = self.flow_mask(parameters, tail, count);
                let place = explicit_before(parameters, index) as int;
                &&& mask.len() == explicit_before(parameters, count)
                &&& place < mask.len()
                &&& mask[place] <==> exists|i: int|
                    0 <= i < tail.len() && self.single_variable(parameters[index].pattern) is Some
                        && (#[trigger] tail[i]).kind == OriginPlace::Param(
                        self.single_variable(parameters[index].pattern)->0,
                    )
            }),
        decreases count,
    {
        self.flow_mask_is_long(parameters, tail, count);
        self.flow_mask_is_long(parameters, tail, count - 1);
        explicit_before_grows(parameters, count - 1);
        if index < count - 1 {
            self.law_a_summary_marks_what_is_returned(parameters, tail, count - 1, index);
            explicit_before_grows(parameters, index);
            explicit_before_ascends(parameters, index + 1, count - 1);
        }
    }

    /// A summary is recorded for a function that returns a reference, under its name in the current
    /// item, and nothing else is recorded.
    pub proof fn law_a_function_that_returns_a_reference_is_summarised(
        self,
        fn_name: NameId,
        parameters: Seq<Parameter>,
        body: ExprId,
        return_type: Type,
        other: (crate::ids::TopLevelId, NameId),
    )
        ensures
            ({
                let after = self.return_origins_recorded(fn_name, parameters, body, return_type);
                let summarised = self.elaborates_drops() && self.contains_reference(return_type)
                    && self.current_item is Some;
                let own = (self.current_item->0, fn_name);
                let tail = self.body_origins(body).0;
                &&& lookup(after.return_origin_summaries, other) == if summarised && other == own {
                    Some(self.flow_mask(parameters, tail, parameters.len() as int))
                } else {
                    lookup(self.return_origin_summaries, other)
                }
                &&& after == (State {
                    return_origin_summaries: after.return_origin_summaries,
                    ..self
                })
            }),
    {
        match self.current_item {
            Some(item) => {
                let tail = self.body_origins(body).0;
                let mask = self.flow_mask(parameters, tail, parameters.len() as int);
                law_put(self.return_origin_summaries, (item, fn_name), mask, other);
            },
            None => {},
        }
    }

    /// A function with a parameter that may be called, other than an implicit one, borrows nothing:
    /// the call may suspend. One that borrows something is recorded with its mask, under its name in
    /// the current item.
    pub proof fn law_a_function_that_may_suspend_borrows_nothing(
        self,
        fn_name: NameId,
        parameters: Seq<Parameter>,
        body: ExprId,
        expected: Type,
    )
        requires
            self.elaborates_drops(),
            self.follow(expected) matches Type::Function(function)
                && function.parameters.types().len() == parameters.len(),
        ensures
            ({
                let types = self.follow(expected)->Function_0.parameters.types();
                let after = self.borrowed_params_recorded(fn_name, parameters, body, expected);
                let (mask, made) = self.borrow_mask(
                    parameters,
                    types,
                    body,
                    parameters.len() as int,
                );
                let suspends = exists|i: int|
                    0 <= i < parameters.len() && !(#[trigger] parameters[i]).is_implicit && (
                    self.follow(types[i]) is Function || self.is_ability(self.follow(types[i])));
                if suspends {
                    after == self
                } else if self.current_item is Some && mask.contains(true) {
                    &&& lookup(after.borrowed_param_masks, (self.current_item->0, fn_name)) == Some(
                        mask,
                    )
                    &&& after.borrowed_local_params == made.borrowed_local_params
                } else {
                    after == made
                }
            }),
    {
        let types = self.follow(expected)->Function_0.parameters.types();
        let (mask, made) = self.borrow_mask(parameters, types, body, parameters.len() as int);
        if exists|i: int|
            0 <= i < parameters.len() && !(#[trigger] parameters[i]).is_implicit && (self.follow(
                types[i],
            ) is Function || self.is_ability(self.follow(types[i]))) {
            let i = choose|i: int|
                0 <= i < parameters.len() && !(#[trigger] parameters[i]).is_implicit && (
                self.follow(types[i]) is Function || self.is_ability(self.follow(types[i])));
            assert(self.may_suspend(parameters[i], types[i]));
        }
        match self.current_item {
            Some(item) => {
                law_put(made.borrowed_param_masks, (item, fn_name), mask, (item, fn_name));
            },
            None => {},
        }
    }
}

} // verus!

//! What holds of the references that a call may pass on, and of what a reference points at.

#[allow(unused_imports)]
use crate::cst::{Argument, ExprForm};
#[allow(unused_imports)]
use crate::ids::{ExprId, Location, NameId, Origin as NameOrigin, NESTING_LIMIT};
#[allow(unused_imports)]
use crate::type_inference::checker::{Report, State};
#[allow(unused_imports)]
use crate::type_inference::flow_laws::{escape_reports, reported_at};
#[allow(unused_imports)]
use crate::type_inference::moves::Place;
#[allow(unused_imports)]
use crate::type_inference::origins::{
    explicit_arguments, Flow, OriginForm, OriginPlace, Origins,
};
#[allow(unused_imports)]
use crate::types::{PrimitiveType, Type, TypeList};
use vstd::prelude::*;

verus! {

/// The second type is a part of the first: an argument of an application, or an element of a tuple.
pub open spec fn is_type_part(whole: Type, part: Type) -> bool {
    match whole {
        Type::Application(_, args) => args.items().contains(part),
        Type::Tuple(elements) => elements.items().contains(part),
        _ => false,
    }
}

impl State {
    /// The type is a reference or a raw pointer to `element`.
    pub open spec fn refers_to(self, typ: Type, element: Type) -> bool {
        self.follow(typ) matches Type::Application(constructor, args) && {
            let items = args.items();
            match self.follow(*constructor) {
                Type::Primitive(PrimitiveType::Pointer) => items.len() > 0 && items[0] == element,
                Type::Primitive(PrimitiveType::Reference(_)) => items.len() == 2 && items[1]
                    == element,
                _ => false,
            }
        }
    }

    /// The type is one of references or of raw pointers.
    pub open spec fn is_referring(self, typ: Type) -> bool {
        self.follow(typ) matches Type::Application(constructor, args) && match self.follow(
            *constructor,
        ) {
            Type::Primitive(PrimitiveType::Pointer) => args.items().len() > 0,
            Type::Primitive(PrimitiveType::Reference(_)) => true,
            _ => false,
        }
    }

    /// The type, or something inside it, is a reference or a raw pointer to `element`.
    pub open spec fn leads_to(self, typ: Type, element: Type, depth: nat) -> bool
        decreases depth,
    {
        depth > 0 && (self.refers_to(typ, element) || exists|part: Type| #[trigger]
            is_type_part(self.follow(typ), part) && self.leads_to(
                part,
                element,
                (depth - 1) as nat,
            ))
    }

    /// The type, or something inside it, is one of references or of raw pointers.
    pub open spec fn is_carrying(self, typ: Type, depth: nat) -> bool
        decreases depth,
    {
        depth > 0 && (self.is_referring(typ) || exists|part: Type| #[trigger]
            is_type_part(self.follow(typ), part) && self.is_carrying(part, (depth - 1) as nat))
    }

    /// `needle` is the type, its constructor, or something inside it.
    pub open spec fn is_within(self, needle: Type, typ: Type, depth: nat) -> bool
        decreases depth,
    {
        depth > 0 && {
            ||| self.follow(needle) == self.follow(typ)
            ||| self.follow(typ) matches Type::Application(constructor, _) && self.is_within(
                needle,
                *constructor,
                (depth - 1) as nat,
            )
            ||| exists|part: Type| #[trigger]
                is_type_part(self.follow(typ), part) && self.is_within(
                    needle,
                    part,
                    (depth - 1) as nat,
                )
        }
    }

    proof fn carrying_lists(self, types: TypeList, depth: nat)
        ensures
            self.some_carries_origin_at(types, depth) <==> exists|part: Type| #[trigger]
                types.items().contains(part) && self.carries_origin_at(part, depth),
        decreases types,
    {
        match types {
            TypeList::Nil => {},
            TypeList::Cons(first, rest) => {
                self.carrying_lists(*rest, depth);
                listing_one_more(*first, *rest);
                if self.some_carries_origin_at(*rest, depth) {
                    let part = choose|part: Type| #[trigger]
                        rest.items().contains(part) && self.carries_origin_at(part, depth);
                    assert(types.items().contains(part));
                }
                if self.carries_origin_at(*first, depth) {
                    assert(types.items().contains(*first));
                }
            },
        }
    }

    proof fn carrying_is_carrying(self, typ: Type, depth: nat)
        ensures
            self.carries_origin_at(typ, depth) <==> self.is_carrying(typ, depth),
        decreases depth,
    {
        if depth > 0 {
            let inner = (depth - 1) as nat;
            typ.law_following_ends(self.bindings);
            assert forall|part: Type| #[trigger] is_type_part(self.follow(typ), part) implies
                self.carries_origin_at(part, inner) == self.is_carrying(part, inner) by {
                self.carrying_is_carrying(part, inner);
            }
            match self.follow(typ) {
                Type::Application(_, args) => {
                    self.carrying_lists(*args, inner);
                    self.parts_of_a_list(typ, *args);
                    a_list_has_a_head(*args);
                },
                Type::Tuple(elements) => {
                    self.carrying_lists(*elements, inner);
                    self.parts_of_a_list(typ, *elements);
                },
                _ => {},
            }
        }
    }

    proof fn parts_of_a_list(self, typ: Type, list: TypeList)
        requires
            self.follow(typ) matches Type::Application(_, args) ==> *args == list,
            self.follow(typ) matches Type::Tuple(elements) ==> *elements == list,
            self.follow(typ) is Application || self.follow(typ) is Tuple,
        ensures
            forall|part: Type| #[trigger]
                list.items().contains(part) ==> is_type_part(self.follow(typ), part),
    {
    }

    proof fn elements_of_lists(self, types: TypeList, element: Type, depth: nat)
        ensures
            self.all_origin_elements_at(types, depth).contains(element) <==> exists|part: Type|
                #[trigger] types.items().contains(part) && self.origin_elements_at(
                    part,
                    depth,
                ).contains(element),
        decreases types,
    {
        match types {
            TypeList::Nil => {},
            TypeList::Cons(first, rest) => {
                self.elements_of_lists(*rest, element, depth);
                listing_one_more(*first, *rest);
                if self.all_origin_elements_at(*rest, depth).contains(element) {
                    let part = choose|part: Type| #[trigger]
                        rest.items().contains(part) && self.origin_elements_at(part, depth).contains(element);
                    assert(types.items().contains(part));
                }
                in_one_of_two(
                    self.origin_elements_at(*first, depth),
                    self.all_origin_elements_at(*rest, depth),
                    element,
                );
                if self.origin_elements_at(*first, depth).contains(element) {
                    assert(types.items().contains(*first));
                }
            },
        }
    }

    proof fn elements_are_led_to(self, typ: Type, element: Type, depth: nat)
        ensures
            self.origin_elements_at(typ, depth).contains(element) <==> self.leads_to(
                typ,
                element,
                depth,
            ),
        decreases depth,
    {
        if depth > 0 {
            let inner = (depth - 1) as nat;
            let followed = self.follow(typ);
            typ.law_following_ends(self.bindings);
            assert forall|part: Type| #[trigger] is_type_part(followed, part) implies
                self.origin_elements_at(part, inner).contains(element) == self.leads_to(
                part,
                element,
                inner,
            ) by {
                self.elements_are_led_to(part, element, inner);
            }
            let pointee: Seq<Type> = match followed.pointee(self.bindings) {
                Some(element) => seq![element],
                None => Seq::empty(),
            };
            one_is_listed(followed.pointee(self.bindings), element);
            match followed {
                Type::Application(constructor, args) => {
                    self.elements_of_lists(*args, element, inner);
                    self.parts_of_a_list(typ, *args);
                    a_list_has_a_head(*args);
                    let second = if constructor.reference_kind(self.bindings) is Some {
                        args.second_of_two()
                    } else {
                        None
                    };
                    let referent: Seq<Type> = match second {
                        Some(element) => seq![element],
                        None => Seq::empty(),
                    };
                    one_is_listed(second, element);
                    let deeper = self.all_origin_elements_at(*args, inner);
                    in_one_of_two(referent, deeper, element);
                    in_one_of_two(pointee, referent + deeper, element);
                },
                Type::Tuple(elements) => {
                    self.elements_of_lists(*elements, element, inner);
                    self.parts_of_a_list(typ, *elements);
                    in_one_of_two(pointee, self.all_origin_elements_at(*elements, inner), element);
                },
                _ => {
                    in_one_of_two(pointee, Seq::empty(), element);
                },
            }
        }
    }

    proof fn occurring_in_lists(self, needle: Type, types: TypeList, depth: nat)
        ensures
            self.occurs_in_some_at(needle, types, depth) <==> exists|part: Type| #[trigger]
                types.items().contains(part) && self.occurs_at(needle, part, depth),
        decreases types,
    {
        match types {
            TypeList::Nil => {},
            TypeList::Cons(first, rest) => {
                self.occurring_in_lists(needle, *rest, depth);
                listing_one_more(*first, *rest);
                if self.occurs_in_some_at(needle, *rest, depth) {
                    let part = choose|part: Type| #[trigger]
                        rest.items().contains(part) && self.occurs_at(needle, part, depth);
                    assert(types.items().contains(part));
                }
                if self.occurs_at(needle, *first, depth) {
                    assert(types.items().contains(*first));
                }
            },
        }
    }

    proof fn occurring_is_within(self, needle: Type, typ: Type, depth: nat)
        ensures
            self.occurs_at(needle, typ, depth) <==> self.is_within(needle, typ, depth),
        decreases depth,
    {
        if depth > 0 {
            let inner = (depth - 1) as nat;
            assert forall|part: Type| #[trigger] is_type_part(self.follow(typ), part) implies
                self.occurs_at(needle, part, inner) == self.is_within(needle, part, inner) by {
                self.occurring_is_within(needle, part, inner);
            }
            match self.follow(typ) {
                Type::Application(constructor, args) => {
                    self.occurring_is_within(needle, *constructor, inner);
                    self.occurring_in_lists(needle, *args, inner);
                    self.parts_of_a_list(typ, *args);
                },
                Type::Tuple(elements) => {
                    self.occurring_in_lists(needle, *elements, inner);
                    self.parts_of_a_list(typ, *elements);
                },
                _ => {},
            }
        }
    }

    /// A type carries origins where a reference or a raw pointer is inside it; its elements are
    /// what those lead to; and a type occurs in another where it is inside it.
    pub proof fn law_what_types_hold(self, typ: Type, other: Type)
        ensures
            self.carries_origin_at(typ, NESTING_LIMIT as nat) <==> self.is_carrying(
                typ,
                NESTING_LIMIT as nat,
            ),
            self.origin_elements_at(typ, NESTING_LIMIT as nat).contains(other) <==> self.leads_to(
                typ,
                other,
                NESTING_LIMIT as nat,
            ),
            self.occurs_in(other, typ) <==> self.is_within(other, typ, NESTING_LIMIT as nat),
    {
        self.carrying_is_carrying(typ, NESTING_LIMIT as nat);
        self.elements_are_led_to(typ, other, NESTING_LIMIT as nat);
        self.occurring_is_within(other, typ, NESTING_LIMIT as nat);
    }

    /// The callee is written as the name of a type definition.
    pub open spec fn names_a_type(self, function: ExprId) -> bool {
        self.context.expr(function) matches ExprForm::Variable(path) && (
        self.context.path_origin(path) matches Some(NameOrigin::TopLevelDefinition(name))
            && self.facts.database.type_definition(name.top_level_item) is Some)
    }

    /// The value of `call` may refer to what the references in `argument` refer to, or to a part
    /// of it.
    pub open spec fn may_pass_on(self, call: ExprId, argument: ExprId) -> bool {
        let depth = NESTING_LIMIT as nat;
        &&& self.expr_types.contains_key(call)
        &&& self.expr_types.contains_key(argument)
        &&& self.is_carrying(self.expr_types[call], depth)
        &&& exists|element: Type, held: Type| #[trigger]
            self.leads_to(self.expr_types[call], element, depth) && #[trigger] self.leads_to(
                self.expr_types[argument],
                held,
                depth,
            ) && self.is_within(element, held, depth)
    }

    proof fn aliasing_may_pass_on(self, call: ExprId, argument: ExprId)
        requires
            self.expr_types.contains_key(call),
        ensures
            self.carries_origin_at(self.expr_types[call], NESTING_LIMIT as nat) && self.may_alias(
                argument,
                self.origin_elements_at(self.expr_types[call], NESTING_LIMIT as nat),
            ) <==> self.may_pass_on(call, argument),
    {
        let depth = NESTING_LIMIT as nat;
        let result = self.expr_types[call];
        let results = self.origin_elements_at(result, depth);
        self.carrying_is_carrying(result, depth);
        if self.expr_types.contains_key(argument) {
            let typ = self.expr_types[argument];
            let elements = self.origin_elements_at(typ, depth);
            if self.may_alias(argument, results) {
                let (i, j) = choose|i: int, j: int|
                    0 <= i < elements.len() && 0 <= j < results.len() && #[trigger] self.occurs_in(
                        results[j],
                        elements[i],
                    );
                assert(elements.contains(elements[i]) && results.contains(results[j]));
                self.elements_are_led_to(typ, elements[i], depth);
                self.elements_are_led_to(result, results[j], depth);
                self.occurring_is_within(results[j], elements[i], depth);
            }
            if self.may_pass_on(call, argument) {
                let (element, held) = choose|element: Type, held: Type| #[trigger]
                    self.leads_to(result, element, depth) && #[trigger] self.leads_to(
                        typ,
                        held,
                        depth,
                    ) && self.is_within(element, held, depth);
                self.elements_are_led_to(typ, held, depth);
                self.elements_are_led_to(result, element, depth);
                self.occurring_is_within(element, held, depth);
                let i = choose|i: int| 0 <= i < elements.len() && elements[i] == held;
                let j = choose|j: int| 0 <= j < results.len() && results[j] == element;
                assert(self.occurs_in(results[j], elements[i]));
            }
        }
    }

    proof fn explicit_are_listed(arguments: Seq<Argument>, count: int, expr: ExprId)
        requires
            0 <= count <= arguments.len(),
        ensures
            explicit_arguments(arguments, count).contains(expr) <==> exists|i: int|
                0 <= i < count && !(#[trigger] arguments[i]).is_implicit && arguments[i].expr
                    == expr,
        decreases count,
    {
        if count > 0 {
            Self::explicit_are_listed(arguments, count - 1, expr);
            let before = explicit_arguments(arguments, count - 1);
            in_one_of_two(before, seq![arguments[count - 1].expr], expr);
            assert(before.push(arguments[count - 1].expr) =~= before
                + seq![arguments[count - 1].expr]);
            one_is_listed(Some(arguments[count - 1].expr), expr);
            if !arguments[count - 1].is_implicit && arguments[count - 1].expr == expr {
                assert(!arguments[count - 1].is_implicit);
            }
        }
    }

    proof fn aliasing_are_listed(
        self,
        arguments: Seq<ExprId>,
        elements: Seq<Type>,
        count: int,
        expr: ExprId,
    )
        requires
            0 <= count <= arguments.len(),
        ensures
            self.aliasing_arguments(arguments, elements, count).contains(expr) <==> self.may_alias(
                expr,
                elements,
            ) && arguments.take(count).contains(expr),
        decreases count,
    {
        if count > 0 {
            self.aliasing_are_listed(arguments, elements, count - 1, expr);
            let before = self.aliasing_arguments(arguments, elements, count - 1);
            let last = arguments[count - 1];
            in_one_of_two(before, seq![last], expr);
            in_one_of_two(arguments.take(count - 1), seq![last], expr);
            one_is_listed(Some(last), expr);
            assert(before.push(last) =~= before + seq![last]);
            assert(arguments.take(count) =~= arguments.take(count - 1) + seq![last]);
        }
    }

    /// The arguments whose references a call passes on are the explicit ones that a constructor
    /// stores, or, for any other callee, those that hold what the result may refer to. Where the
    /// result carries no reference, nothing is passed on.
    pub proof fn law_a_call_passes_on_what_its_result_may_alias(
        self,
        function: ExprId,
        arguments: Seq<Argument>,
        call: ExprId,
        expr: ExprId,
    )
        ensures
            self.forwarded_arguments(function, arguments, call).contains(expr) <==> {
                &&& exists|i: int|
                    0 <= i < arguments.len() && !(#[trigger] arguments[i]).is_implicit
                        && arguments[i].expr == expr
                &&& self.names_a_type(function) || self.may_pass_on(call, expr)
            },
    {
        let explicit = explicit_arguments(arguments, arguments.len() as int);
        Self::explicit_are_listed(arguments, arguments.len() as int, expr);
        assert(self.is_constructor(function) == self.names_a_type(function));
        if !self.is_constructor(function) && self.expr_types.contains_key(call) {
            let elements = self.origin_elements_at(self.expr_types[call], NESTING_LIMIT as nat);
            self.aliasing_are_listed(explicit, elements, explicit.len() as int, expr);
            assert(explicit.take(explicit.len() as int) =~= explicit);
            self.aliasing_may_pass_on(call, expr);
        }
    }

    /// Every explicit argument of a call that the result may alias, or that a constructor stores,
    /// gives all its origins to the call, as they are where the walk gets to the argument.
    pub proof fn law_a_call_points_where_its_arguments_do(
        self,
        flow: Flow,
        call: ExprId,
        index: int,
        rank: spec_fn(ExprId) -> nat,
    ) -> (reached: Flow)
        requires
            self.is_nested(rank),
            self.context.expr(call) matches ExprForm::Call { function, arguments } && {
                &&& 0 <= index < arguments.len()
                &&& !arguments[index].is_implicit
                &&& self.names_a_type(function) || self.may_pass_on(call, arguments[index].expr)
            },
        ensures
            ({
                let argument = self.context.expr(call)->Call_arguments[index].expr;
                &&& exists|before: int|
                    0 <= before < self.sources(call).len() && self.sources(call)[before] == argument
                        && #[trigger] self.origins(flow, self.sources(call), before).1 == reached
                &&& forall|i: int|
                    0 <= i < self.origin(reached, argument).0.len() ==> self.origin(
                        flow,
                        call,
                    ).0.contains(#[trigger] self.origin(reached, argument).0[i])
            }),
    {
        let function = self.context.expr(call)->Call_function;
        let arguments = self.context.expr(call)->Call_arguments;
        let argument = arguments[index].expr;
        let sources = self.sources(call);
        self.law_a_call_passes_on_what_its_result_may_alias(function, arguments, call, argument);
        let at = choose|at: int| 0 <= at < sources.len() && sources[at] == argument;
        self.law_origins_come_from_the_value(flow, call, rank);
        self.law_origins_come_in_turn(flow, sources, sources.len() as int, at);
        let (before, reached) = self.origins(flow, sources, at);
        let own = self.origin(reached, argument).0;
        let set = self.origin(flow, call).0;
        assert forall|i: int| 0 <= i < own.len() implies set.contains(#[trigger] own[i]) by {
            assert((before + own)[before.len() + i] == own[i]);
            assert(set[before.len() + i] == own[i]);
        }
        reached
    }

    /// The expression denotes the place: a variable its own, or the one it is a part of, and a
    /// member the part of that name of what it is a member of.
    pub open spec fn denotes(self, expr: ExprId, place: Place, depth: nat) -> bool
        decreases depth,
    {
        depth > 0 && match self.context.expr(expr) {
            ExprForm::Variable(path) => self.context.path_origin(path) matches Some(
                NameOrigin::Local(name),
            ) && (if self.binding_places.contains_key(name) {
                place == self.binding_places[name]
            } else {
                place == (name, Seq::<Seq<char>>::empty())
            }),
            ExprForm::MemberAccess { object, member } => place.1.len() > 0 && place.1.last()
                == member && self.denotes(
                object,
                (place.0, place.1.drop_last()),
                (depth - 1) as nat,
            ),
            _ => false,
        }
    }

    proof fn places_are_denoted(self, expr: ExprId, place: Place, depth: nat)
        ensures
            self.place_of_expr_at(expr, depth) == Some(place) <==> self.denotes(expr, place, depth),
        decreases depth,
    {
        if depth > 0 {
            match self.context.expr(expr) {
                ExprForm::MemberAccess { object, member } => {
                    let inner = (depth - 1) as nat;
                    self.places_are_denoted(object, (place.0, place.1.drop_last()), inner);
                    match self.place_of_expr_at(object, inner) {
                        Some(parent) => {
                            let all = parent.1.push(member);
                            assert(all.drop_last() =~= parent.1);
                            if self.denotes(expr, place, depth) {
                                assert(place.1.drop_last().push(member) =~= place.1);
                            }
                        },
                        None => {},
                    }
                },
                _ => {},
            }
        }
    }

    /// An expression denotes a place if it is a variable, or a member of what denotes one.
    pub proof fn law_places_are_variables_and_their_members(self, expr: ExprId, place: Place)
        ensures
            self.place_of_expr(expr) == Some(place) <==> self.denotes(
                expr,
                place,
                NESTING_LIMIT as nat,
            ),
    {
        self.places_are_denoted(expr, place, NESTING_LIMIT as nat);
    }

    /// A reference to a place points there: into a local of the function that dies with it, noted
    /// where the reference is taken, or into what the caller owns.
    pub proof fn law_a_reference_points_at_its_place(
        self,
        flow: Flow,
        expr: ExprId,
        place: Place,
        rank: spec_fn(ExprId) -> nat,
    )
        requires
            self.is_nested(rank),
            self.context.expr(expr) matches ExprForm::Reference { rhs, .. } && self.denotes(
                rhs,
                place,
                NESTING_LIMIT as nat,
            ),
        ensures
            ({
                let is_local = self.function_local_names.len() > 0
                    && self.function_local_names.last().contains(place.0);
                let set = self.origin(flow, expr).0;
                &&& set.len() == 1
                &&& !set[0].capture_borrow
                &&& set[0].kind == if is_local {
                    OriginPlace::Local(place)
                } else {
                    OriginPlace::Param(place.0)
                }
                &&& is_local ==> set[0].location == Some(self.context.expr_location(expr))
            }),
    {
        let rhs = self.context.expr(expr)->Reference_rhs;
        self.places_are_denoted(rhs, place, NESTING_LIMIT as nat);
        self.law_origins_come_from_the_value(flow, expr, rank);
    }

    /// A function that returns the value of a call that was given a reference to one of its own
    /// locals is reported, where the result may alias what the reference refers to.
    pub proof fn law_a_local_does_not_leave_through_a_call(
        self,
        call: ExprId,
        index: int,
        place: Place,
        rank: spec_fn(ExprId) -> nat,
    )
        requires
            self.is_nested(rank),
            self.function_local_names.len() > 0,
            self.function_local_names.last().contains(place.0),
            self.context.expr(call) matches ExprForm::Call { function, arguments } && {
                &&& 0 <= index < arguments.len()
                &&& !arguments[index].is_implicit
                &&& self.names_a_type(function) || self.may_pass_on(call, arguments[index].expr)
                &&& self.context.expr(arguments[index].expr) matches ExprForm::Reference { rhs, .. }
                    && self.denotes(rhs, place, NESTING_LIMIT as nat)
            },
        ensures
            ({
                let argument = self.context.expr(call)->Call_arguments[index].expr;
                let location = self.context.expr_location(argument);
                self.escapes_checked(call).diagnostics.contains(
                    Report::ReferenceEscapesScope { location },
                )
            }),
    {
        let argument = self.context.expr(call)->Call_arguments[index].expr;
        let nothing = Flow::nothing();
        let reached = self.law_a_call_points_where_its_arguments_do(nothing, call, index, rank);
        self.law_a_reference_points_at_its_place(reached, argument, place, rank);
        let own = self.origin(reached, argument).0;
        let tail = self.origin(nothing, call).0;
        assert(tail.contains(own[0]));
        let at = choose|i: int| 0 <= i < tail.len() && tail[i] == own[0];
        self.a_dangling_origin_is_reported(tail, call, at);
    }

    proof fn a_dangling_origin_is_reported(self, tail: Origins, returned: ExprId, at: int)
        requires
            0 <= at < tail.len(),
            self.escapes(tail[at].kind),
            !tail[at].capture_borrow,
        ensures
            self.escapes_rejected(tail, returned, tail.len() as int).1.diagnostics.contains(
                Report::ReferenceEscapesScope { location: reported_at(self, tail[at], returned) },
            ),
    {
        let count = tail.len() as int;
        let (reported, state) = self.escapes_rejected(tail, returned, count);
        let location = reported_at(self, tail[at], returned);
        self.law_every_dangling_reference_is_reported(tail, returned, count, at);
        self.law_each_escape_is_reported_once(tail, returned, count);
        let i = choose|i: int| 0 <= i < reported.len() && reported[i] == location;
        assert(escape_reports(reported)[i] == (Report::ReferenceEscapesScope { location }));
        assert(state.diagnostics[self.diagnostics.len() + i] == (Report::ReferenceEscapesScope {
            location,
        }));
    }

    /// A function that returns a reference to one of its own locals, or to a part of one, is
    /// reported.
    pub proof fn law_a_reference_to_a_local_does_not_leave(
        self,
        expr: ExprId,
        place: Place,
        rank: spec_fn(ExprId) -> nat,
    )
        requires
            self.is_nested(rank),
            self.function_local_names.len() > 0,
            self.function_local_names.last().contains(place.0),
            self.context.expr(expr) matches ExprForm::Reference { rhs, .. } && self.denotes(
                rhs,
                place,
                NESTING_LIMIT as nat,
            ),
        ensures
            self.escapes_checked(expr).diagnostics.contains(
                Report::ReferenceEscapesScope { location: self.context.expr_location(expr) },
            ),
    {
        self.law_a_reference_points_at_its_place(Flow::nothing(), expr, place, rank);
        self.a_dangling_origin_is_reported(self.origin(Flow::nothing(), expr).0, expr, 0);
    }
}

proof fn in_one_of_two<T>(first: Seq<T>, second: Seq<T>, item: T)
    ensures
        (first + second).contains(item) <==> first.contains(item) || second.contains(item),
{
    let all = first + second;
    if first.contains(item) {
        let i = choose|i: int| 0 <= i < first.len() && first[i] == item;
        assert(all[i] == item);
    }
    if second.contains(item) {
        let i = choose|i: int| 0 <= i < second.len() && second[i] == item;
        assert(all[first.len() + i] == item);
    }
    if all.contains(item) {
        let i = choose|i: int| 0 <= i < all.len() && all[i] == item;
        if i < first.len() {
            assert(first[i] == item);
        } else {
            assert(second[i - first.len()] == item);
        }
    }
}

proof fn one_is_listed<T>(one: Option<T>, item: T)
    ensures
        (match one {
            Some(own) => seq![own],
            None => Seq::empty(),
        }).contains(item) <==> one == Some(item),
{
    match one {
        Some(own) => {
            assert(seq![own][0] == own);
        },
        None => {},
    }
}

proof fn listing_one_more(first: Type, rest: TypeList)
    ensures
        forall|part: Type| #[trigger]
            (TypeList::Cons(Box::new(first), Box::new(rest))).items().contains(part) <==> part
                == first || rest.items().contains(part),
{
    let all = (TypeList::Cons(Box::new(first), Box::new(rest))).items();
    assert forall|part: Type| #[trigger] all.contains(part) <==> part == first
        || rest.items().contains(part) by {
        in_one_of_two(seq![first], rest.items(), part);
        one_is_listed(Some(first), part);
    }
}

proof fn a_list_has_a_head(list: TypeList)
    ensures
        list.head() == if list.items().len() > 0 {
            Some(list.items()[0])
        } else {
            None
        },
        list.second_of_two() == if list.items().len() == 2 {
            Some(list.items()[1])
        } else {
            None
        },
{
    reveal_with_fuel(TypeList::items, 4);
    match list {
        TypeList::Cons(_, rest) => match *rest {
            TypeList::Cons(_, end) => {
                assert(end.items().len() == 0 <==> *end is Nil);
            },
            TypeList::Nil => {},
        },
        TypeList::Nil => {},
    }
}

} // verus!

//! Where references may point.
//!
//! For every expression that carries references, the places its references may point into. A value
//! that leaves a function must not carry one into what the function frees.

use crate::collections::{map_get, map_insert};
use crate::cst::{Argument, Expr, Parameter};
#[allow(unused_imports)]
use crate::cst::ExprForm;
use crate::ids::{ExprId, Location, NameId, Origin as NameOrigin, NESTING_LIMIT};
use crate::type_inference::checker::{put_mask, Diagnostic, TypeChecker};
#[allow(unused_imports)]
use crate::collections::put;
#[allow(unused_imports)]
use crate::type_inference::checker::{Report, State};
use crate::type_inference::moves::MovePath;
#[allow(unused_imports)]
use crate::type_inference::moves::Place;
use crate::types::{Type, TypeList};
use rustc_hash::FxHashMap;
use vstd::prelude::*;

verus! {

broadcast use vstd::seq_lib::group_seq_properties;

/// Where a reference may point.
#[derive(Debug)]
pub enum OriginKind {
    /// Into an owned local of this function, or a part of one. It dies where the function returns.
    Local(MovePath),
    /// Into a temporary of this function, which dies here too.
    LocalTemp,
    /// Into what the caller owns.
    Param(NameId),
    /// Into what never dies.
    Immortal,
}

/// What an `OriginKind` says.
#[verifier::ext_equal]
pub enum OriginPlace {
    Local(Place),
    LocalTemp,
    Param(NameId),
    Immortal,
}

impl View for OriginKind {
    type V = OriginPlace;

    open spec fn view(&self) -> OriginPlace {
        match *self {
            OriginKind::Local(path) => OriginPlace::Local(path@),
            OriginKind::LocalTemp => OriginPlace::LocalTemp,
            OriginKind::Param(name) => OriginPlace::Param(name),
            OriginKind::Immortal => OriginPlace::Immortal,
        }
    }
}

#[derive(Debug)]
pub struct Origin {
    pub kind: OriginKind,
    /// A closure borrows an owned capture. It escapes only if the capture is not `Copy`: a copy in
    /// the environment cannot dangle.
    pub capture_borrow: bool,
    /// Where the reference was taken.
    pub location: Option<Location>,
}

/// What an `Origin` says.
#[verifier::ext_equal]
pub struct OriginForm {
    pub kind: OriginPlace,
    pub capture_borrow: bool,
    pub location: Option<Location>,
}

impl View for Origin {
    type V = OriginForm;

    open spec fn view(&self) -> OriginForm {
        OriginForm {
            kind: self.kind@,
            capture_borrow: self.capture_borrow,
            location: self.location,
        }
    }
}

impl Clone for Origin {
    fn clone(&self) -> (copy: Self)
        ensures
            copy@ == self@,
    {
        let kind = match &self.kind {
            OriginKind::Local(path) => OriginKind::Local(path.clone()),
            OriginKind::LocalTemp => OriginKind::LocalTemp,
            OriginKind::Param(name) => OriginKind::Param(*name),
            OriginKind::Immortal => OriginKind::Immortal,
        };
        Origin { kind, capture_borrow: self.capture_borrow, location: self.location }
    }
}

pub type OriginSet = Vec<Origin>;

/// What an `OriginSet` says.
pub type Origins = Seq<OriginForm>;

pub open spec fn origins_in(set: Seq<Origin>) -> Origins {
    set.map_values(|origin: Origin| origin@)
}

/// The origins of each expression, or of each binding.
pub type OriginMap = FxHashMap<u32, OriginSet>;

pub open spec fn origins_by_id(map: Map<u32, OriginSet>) -> Map<u32, Origins> {
    map.map_values(|set: OriginSet| origins_in(set@))
}

fn copy_origins(set: &OriginSet) -> (copy: OriginSet)
    ensures
        origins_in(copy@) == origins_in(set@),
{
    let mut copy: OriginSet = Vec::new();
    let mut i: usize = 0;
    while i < set.len()
        invariant
            i <= set.len(),
            origins_in(copy@) == origins_in(set@.take(i as int)),
        decreases set.len() - i,
    {
        let ghost before = copy@;
        copy.push(set[i].clone());
        assert(origins_in(copy@) =~= origins_in(before).push(set@[i as int]@));
        assert(origins_in(set@.take(i + 1)) =~= origins_in(set@.take(i as int)).push(
            set@[i as int]@,
        ));
        i += 1;
    }
    assert(set@.take(i as int) =~= set@);
    copy
}

/// Put `more` behind `set`.
fn append_origins(set: &mut OriginSet, more: OriginSet)
    ensures
        origins_in(final(set)@) == origins_in(old(set)@) + origins_in(more@),
{
    let ghost added = more@;
    let mut more = more;
    set.append(&mut more);
    assert(origins_in(set@) =~= origins_in(old(set)@) + origins_in(added));
}

fn put_origins(map: &mut OriginMap, id: u32, set: OriginSet)
    ensures
        origins_by_id(final(map)@) == origins_by_id(old(map)@).insert(id, origins_in(set@)),
{
    map_insert(map, id, set);
    assert(origins_by_id(map@) =~= origins_by_id(old(map)@).insert(id, origins_in(set@)));
}

/// What a walk has found out: where each binding, and each expression, may point.
#[verifier::ext_equal]
pub struct Flow {
    pub bindings: Map<NameId, Origins>,
    pub origins: Map<ExprId, Origins>,
}

impl Flow {
    pub open spec fn nothing() -> Flow {
        Flow { bindings: Map::empty(), origins: Map::empty() }
    }
}

pub open spec fn plain(kind: OriginPlace) -> OriginForm {
    OriginForm { kind, capture_borrow: false, location: None }
}

pub open spec fn taken_at(kind: OriginPlace, location: Location) -> OriginForm {
    OriginForm { kind, capture_borrow: false, location: Some(location) }
}

/// The explicit ones among the first `count` of `arguments`.
pub open spec fn explicit_arguments(arguments: Seq<Argument>, count: int) -> Seq<ExprId>
    decreases count,
{
    if count <= 0 {
        Seq::empty()
    } else {
        let before = explicit_arguments(arguments, count - 1);
        if arguments[count - 1].is_implicit {
            before
        } else {
            before.push(arguments[count - 1].expr)
        }
    }
}

impl State {
    /// A reference, or a raw pointer, occurs in the type.
    pub open spec fn carries_origin_at(self, typ: Type, depth: nat) -> bool
        decreases depth, 0nat, TypeList::Nil,
    {
        depth > 0 && {
            let typ = self.follow(typ);
            typ.pointee(self.bindings) is Some || match typ {
                Type::Application(constructor, args) => constructor.reference_kind(
                    self.bindings,
                ) is Some || self.some_carries_origin_at(*args, (depth - 1) as nat),
                Type::Tuple(elements) => self.some_carries_origin_at(
                    *elements,
                    (depth - 1) as nat,
                ),
                _ => false,
            }
        }
    }

    pub open spec fn some_carries_origin_at(self, types: TypeList, depth: nat) -> bool
        decreases depth, 1nat, types,
    {
        match types {
            TypeList::Nil => false,
            TypeList::Cons(first, rest) => self.carries_origin_at(*first, depth)
                || self.some_carries_origin_at(*rest, depth),
        }
    }

    /// What the references and raw pointers in the type lead to.
    pub open spec fn origin_elements_at(self, typ: Type, depth: nat) -> Seq<Type>
        decreases depth, 0nat, TypeList::Nil,
    {
        if depth == 0 {
            Seq::empty()
        } else {
            let typ = self.follow(typ);
            let pointee = match typ.pointee(self.bindings) {
                Some(element) => seq![element],
                None => Seq::empty(),
            };
            pointee + match typ {
                Type::Application(constructor, args) => {
                    let referent = if constructor.reference_kind(self.bindings) is Some {
                        match args.second_of_two() {
                            Some(element) => seq![element],
                            None => Seq::empty(),
                        }
                    } else {
                        Seq::empty()
                    };
                    referent + self.all_origin_elements_at(*args, (depth - 1) as nat)
                },
                Type::Tuple(elements) => self.all_origin_elements_at(
                    *elements,
                    (depth - 1) as nat,
                ),
                _ => Seq::empty(),
            }
        }
    }

    pub open spec fn all_origin_elements_at(self, types: TypeList, depth: nat) -> Seq<Type>
        decreases depth, 1nat, types,
    {
        match types {
            TypeList::Nil => Seq::empty(),
            TypeList::Cons(first, rest) => self.origin_elements_at(*first, depth)
                + self.all_origin_elements_at(*rest, depth),
        }
    }

    /// `needle` occurs in `haystack`.
    pub open spec fn occurs_at(self, needle: Type, haystack: Type, depth: nat) -> bool
        decreases depth, 0nat, TypeList::Nil,
    {
        depth > 0 && {
            let haystack = self.follow(haystack);
            self.follow(needle) == haystack || match haystack {
                Type::Application(constructor, args) => self.occurs_at(
                    needle,
                    *constructor,
                    (depth - 1) as nat,
                ) || self.occurs_in_some_at(needle, *args, (depth - 1) as nat),
                Type::Tuple(elements) => self.occurs_in_some_at(
                    needle,
                    *elements,
                    (depth - 1) as nat,
                ),
                _ => false,
            }
        }
    }

    pub open spec fn occurs_in_some_at(self, needle: Type, types: TypeList, depth: nat) -> bool
        decreases depth, 1nat, types,
    {
        match types {
            TypeList::Nil => false,
            TypeList::Cons(first, rest) => self.occurs_at(needle, *first, depth)
                || self.occurs_in_some_at(needle, *rest, depth),
        }
    }

    pub open spec fn occurs_in(self, needle: Type, haystack: Type) -> bool {
        self.occurs_at(needle, haystack, NESTING_LIMIT as nat)
    }

    /// A reference occurs in the type. Raw pointers do not count.
    pub open spec fn contains_reference_at(self, typ: Type, depth: nat) -> bool
        decreases depth, 0nat, TypeList::Nil,
    {
        depth > 0 && match self.follow(typ) {
            Type::Application(constructor, args) => constructor.reference_kind(
                self.bindings,
            ) is Some || self.some_contains_reference_at(*args, (depth - 1) as nat),
            Type::Tuple(elements) => self.some_contains_reference_at(
                *elements,
                (depth - 1) as nat,
            ),
            _ => false,
        }
    }

    pub open spec fn some_contains_reference_at(self, types: TypeList, depth: nat) -> bool
        decreases depth, 1nat, types,
    {
        match types {
            TypeList::Nil => false,
            TypeList::Cons(first, rest) => self.contains_reference_at(*first, depth)
                || self.some_contains_reference_at(*rest, depth),
        }
    }

    pub open spec fn contains_reference(self, typ: Type) -> bool {
        self.contains_reference_at(typ, NESTING_LIMIT as nat)
    }

    /// What is referred to dies where the current function returns: an owned local, a part of one,
    /// or a temporary. A temporary that is never there does not.
    pub open spec fn is_function_local_at(self, target: ExprId, depth: nat) -> bool
        decreases depth,
    {
        depth > 0 && match self.context.expr(target) {
            ExprForm::Variable(path) => match self.context.local(path) {
                Some(name) => self.is_own_local(name) && self.name_types.contains_key(name)
                    && !self.is_reference_typed(name),
                None => false,
            },
            ExprForm::MemberAccess { object, .. } => self.is_function_local_at(
                object,
                (depth - 1) as nat,
            ),
            ExprForm::TypeAnnotation { lhs } => self.is_function_local_at(
                lhs,
                (depth - 1) as nat,
            ),
            _ => match self.type_of_expr(target) {
                Some(typ) => !self.diverges(typ),
                None => true,
            },
        }
    }

    pub open spec fn is_function_local(self, target: ExprId) -> bool {
        self.is_function_local_at(target, NESTING_LIMIT as nat)
    }

    /// Where the reference `expr` to `rhs` points.
    pub open spec fn reference_origin(self, expr: ExprId, rhs: ExprId) -> Origins {
        let location = self.context.expr_location(expr);
        match self.place_of_expr(rhs) {
            Some(place) => if self.is_own_local(place.0) {
                seq![taken_at(OriginPlace::Local(place), location)]
            } else {
                seq![plain(OriginPlace::Param(place.0))]
            },
            None => if self.is_function_local(rhs) {
                seq![taken_at(OriginPlace::LocalTemp, location)]
            } else {
                Seq::empty()
            },
        }
    }

    /// The callee is a constructor of a type.
    pub open spec fn is_constructor(self, function: ExprId) -> bool {
        match self.context.expr(function) {
            ExprForm::Variable(path) => match self.context.path_origin(path) {
                Some(NameOrigin::TopLevelDefinition(name)) => self.facts.database.type_definition(
                    name.top_level_item,
                ) is Some,
                _ => false,
            },
            _ => false,
        }
    }

    /// What a reference in the argument leads to may hold what one in the result leads to.
    pub open spec fn may_alias(self, argument: ExprId, result_elements: Seq<Type>) -> bool {
        match self.type_of_expr(argument) {
            None => false,
            Some(typ) => {
                let elements = self.origin_elements_at(typ, NESTING_LIMIT as nat);
                exists|i: int, j: int|
                    0 <= i < elements.len() && 0 <= j < result_elements.len()
                        && #[trigger] self.occurs_in(result_elements[j], elements[i])
            },
        }
    }

    /// The ones of the first `count` of `arguments` that may alias the result.
    pub open spec fn aliasing_arguments(
        self,
        arguments: Seq<ExprId>,
        result_elements: Seq<Type>,
        count: int,
    ) -> Seq<ExprId>
        decreases count,
    {
        if count <= 0 {
            Seq::empty()
        } else {
            let before = self.aliasing_arguments(arguments, result_elements, count - 1);
            if self.may_alias(arguments[count - 1], result_elements) {
                before.push(arguments[count - 1])
            } else {
                before
            }
        }
    }

    /// The arguments whose references a call passes on: those a constructor stores, or those that
    /// the result of any other callee may alias.
    pub open spec fn forwarded_arguments(
        self,
        function: ExprId,
        arguments: Seq<Argument>,
        call: ExprId,
    ) -> Seq<ExprId> {
        let explicit = explicit_arguments(arguments, arguments.len() as int);
        if self.is_constructor(function) {
            explicit
        } else {
            match self.type_of_expr(call) {
                None => Seq::empty(),
                Some(typ) => if !self.carries_origin_at(typ, NESTING_LIMIT as nat) {
                    Seq::empty()
                } else {
                    self.aliasing_arguments(
                        explicit,
                        self.origin_elements_at(typ, NESTING_LIMIT as nat),
                        explicit.len() as int,
                    )
                },
            }
        }
    }

    /// Where what a closure captures of the first `count` of `locals` points: where a captured
    /// reference does, or into an owned local that is borrowed.
    pub open spec fn captured_origins(
        self,
        lambda: ExprId,
        is_move: bool,
        bindings: Map<NameId, Origins>,
        locals: Seq<NameId>,
        count: int,
    ) -> Origins
        decreases count,
    {
        if count <= 0 {
            Seq::empty()
        } else {
            let before = self.captured_origins(lambda, is_move, bindings, locals, count - 1);
            let name = locals[count - 1];
            if !self.captures(lambda, name) {
                before
            } else if bindings.contains_key(name) && bindings[name].len() > 0 {
                before + bindings[name]
            } else if !is_move && !self.is_reference_typed(name) {
                before.push(
                    OriginForm {
                        kind: OriginPlace::Local((name, Seq::empty())),
                        capture_borrow: true,
                        location: Some(self.context.expr_location(lambda)),
                    },
                )
            } else {
                before
            }
        }
    }

    pub open spec fn lambda_origin(self, lambda: ExprId, bindings: Map<NameId, Origins>) -> Origins {
        if self.function_local_names.len() == 0 {
            Seq::empty()
        } else {
            let locals = self.function_local_names.last();
            let is_move = match self.context.expr(lambda) {
                ExprForm::Lambda { is_move, .. } => is_move,
                _ => false,
            };
            self.captured_origins(lambda, is_move, bindings, locals, locals.len() as int)
        }
    }

    /// Where the references of an expression may point, and what a walk knows then, with `depth`
    /// levels of nesting looked into.
    pub open spec fn origin_at(self, flow: Flow, expr: ExprId, depth: nat) -> (Origins, Flow)
        decreases depth, 0nat, 0int,
    {
        if depth == 0 {
            (Seq::empty(), flow)
        } else {
            let depth = (depth - 1) as nat;
            let (set, flow) = match self.context.expr(expr) {
                ExprForm::Reference { rhs, .. } => (self.reference_origin(expr, rhs), flow),
                ExprForm::Variable(path) => match self.context.local(path) {
                    Some(name) => (
                        if flow.bindings.contains_key(name) {
                            flow.bindings[name]
                        } else if self.is_reference_typed(name) {
                            seq![plain(OriginPlace::Param(name))]
                        } else {
                            Seq::empty()
                        },
                        flow,
                    ),
                    None => (Seq::empty(), flow),
                },
                ExprForm::MemberAccess { object, .. } => self.origin_at(flow, object, depth),
                ExprForm::TypeAnnotation { lhs } => self.origin_at(flow, lhs, depth),
                ExprForm::Sequence(items) => if items.len() == 0 {
                    (Seq::empty(), flow)
                } else {
                    let before = self.statements_at(flow, items, items.len() - 1, depth);
                    self.origin_at(before, items[items.len() - 1], depth)
                },
                ExprForm::Definition(_) => (Seq::empty(), self.statement_at(flow, expr, depth)),
                ExprForm::If { then_expr, else_expr, .. } => {
                    let branches = match else_expr {
                        Some(else_expr) => seq![then_expr, else_expr],
                        None => seq![then_expr],
                    };
                    self.origins_at(flow, branches, branches.len() as int, depth)
                },
                ExprForm::Match { cases, .. } => {
                    let branches = cases.map_values(|case: (u32, ExprId)| case.1);
                    self.origins_at(flow, branches, branches.len() as int, depth)
                },
                ExprForm::Constructor { fields } => {
                    let values = fields.map_values(|field: (NameId, ExprId)| field.1);
                    self.origins_at(flow, values, values.len() as int, depth)
                },
                ExprForm::Call { function, arguments } => {
                    let forwarded = self.forwarded_arguments(function, arguments, expr);
                    self.origins_at(flow, forwarded, forwarded.len() as int, depth)
                },
                ExprForm::Lambda { .. } => (self.lambda_origin(expr, flow.bindings), flow),
                _ => (Seq::empty(), flow),
            };
            if set.len() > 0 {
                (set, Flow { origins: flow.origins.insert(expr, set), ..flow })
            } else {
                (set, flow)
            }
        }
    }

    /// Where the references of the first `count` of `exprs` may point.
    pub open spec fn origins_at(self, flow: Flow, exprs: Seq<ExprId>, count: int, depth: nat) -> (
        Origins,
        Flow,
    )
        decreases depth, 2nat, count,
    {
        if count <= 0 {
            (Seq::empty(), flow)
        } else {
            let (before, flow) = self.origins_at(flow, exprs, count - 1, depth);
            let (set, flow) = self.origin_at(flow, exprs[count - 1], depth);
            (before + set, flow)
        }
    }

    /// What a walk knows behind a statement.
    pub open spec fn statement_at(self, flow: Flow, expr: ExprId, depth: nat) -> Flow
        decreases depth, 1nat, 0int,
    {
        if depth == 0 {
            flow
        } else {
            let depth = (depth - 1) as nat;
            match self.context.expr(expr) {
                ExprForm::Definition(definition) => {
                    let (set, flow) = self.origin_at(flow, definition.rhs, depth);
                    match self.single_variable(definition.pattern) {
                        Some(name) => Flow { bindings: flow.bindings.insert(name, set), ..flow },
                        None => flow,
                    }
                },
                // The variable may point where either value did.
                ExprForm::Assignment(assignment) => {
                    let (set, flow) = self.origin_at(flow, assignment.rhs, depth);
                    match self.context.expr(assignment.lhs) {
                        ExprForm::Variable(path) => match self.context.local(path) {
                            Some(name) => {
                                let before = if flow.bindings.contains_key(name) {
                                    flow.bindings[name]
                                } else {
                                    Seq::empty()
                                };
                                Flow { bindings: flow.bindings.insert(name, before + set), ..flow }
                            },
                            None => flow,
                        },
                        _ => flow,
                    }
                },
                ExprForm::Sequence(items) => self.statements_at(
                    flow,
                    items,
                    items.len() as int,
                    depth,
                ),
                _ => flow,
            }
        }
    }

    /// What a walk knows behind the first `count` of `items`.
    pub open spec fn statements_at(self, flow: Flow, items: Seq<ExprId>, count: int, depth: nat) -> Flow
        decreases depth, 2nat, count,
    {
        if count <= 0 {
            flow
        } else {
            self.statement_at(
                self.statements_at(flow, items, count - 1, depth),
                items[count - 1],
                depth,
            )
        }
    }

    /// Where the references of an expression may point, and what a walk knows behind it.
    pub open spec fn origin(self, flow: Flow, expr: ExprId) -> (Origins, Flow) {
        self.origin_at(flow, expr, NESTING_LIMIT as nat)
    }

    /// Where the references of the first `count` of `exprs` may point, and what a walk knows behind
    /// them.
    pub open spec fn origins(self, flow: Flow, exprs: Seq<ExprId>, count: int) -> (Origins, Flow) {
        self.origins_at(flow, exprs, count, NESTING_LIMIT as nat)
    }

    /// What a walk knows behind a statement.
    pub open spec fn statement(self, flow: Flow, expr: ExprId) -> Flow {
        self.statement_at(flow, expr, NESTING_LIMIT as nat)
    }

    /// What a walk knows behind the first `count` of `items`.
    pub open spec fn statements(self, flow: Flow, items: Seq<ExprId>, count: int) -> Flow {
        self.statements_at(flow, items, count, NESTING_LIMIT as nat)
    }

    /// Where the references of the value of a function body may point.
    pub open spec fn body_origins(self, body: ExprId) -> (Origins, Flow) {
        self.origin(Flow::nothing(), body)
    }

    /// What is pointed into dies where the current function returns.
    pub open spec fn escapes(self, kind: OriginPlace) -> bool {
        match kind {
            OriginPlace::Local(place) => self.is_own_local(place.0),
            OriginPlace::LocalTemp => true,
            OriginPlace::Param(_) | OriginPlace::Immortal => false,
        }
    }

    /// The variable whose type decides whether the borrow of a capture is one.
    pub open spec fn borrowed_variable(origin: OriginForm) -> Option<NameId> {
        match origin.kind {
            OriginPlace::Local(place) => if origin.capture_borrow {
                Some(place.0)
            } else {
                None
            },
            _ => None,
        }
    }

    /// What was reported, and this state, once the first `count` of `tail` were checked. Each
    /// location is reported once.
    pub open spec fn escapes_rejected(
        self,
        tail: Origins,
        returned: ExprId,
        count: int,
    ) -> (Seq<Location>, State)
        decreases count,
    {
        if count <= 0 {
            (Seq::empty(), self)
        } else {
            let (reported, state) = self.escapes_rejected(tail, returned, count - 1);
            let origin = tail[count - 1];
            let typ = match State::borrowed_variable(origin) {
                Some(name) => Some(state.type_of_name(name)),
                None => None,
            };
            let asked = match typ {
                Some(typ) => state.copy_asked(typ),
                None => state,
            };
            let location = match origin.location {
                Some(location) => location,
                None => state.context.expr_location(returned),
            };
            if !state.escapes(origin.kind) {
                (reported, state)
            } else if (typ matches Some(typ) && state.is_copy(typ)) || reported.contains(location) {
                (reported, asked)
            } else {
                (
                    reported.push(location),
                    asked.with_report(Report::ReferenceEscapesScope { location }),
                )
            }
        }
    }

    /// This state once the value that leaves the function was checked.
    pub open spec fn escapes_checked(self, returned: ExprId) -> State {
        let tail = self.body_origins(returned).0;
        self.escapes_rejected(tail, returned, tail.len() as int).1
    }

    /// The parameter flows into the returned value.
    pub open spec fn parameter_flows(self, parameter: Parameter, tail: Origins) -> bool {
        match self.single_variable(parameter.pattern) {
            Some(name) => exists|i: int|
                0 <= i < tail.len() && (#[trigger] tail[i]).kind == OriginPlace::Param(name),
            None => false,
        }
    }

    /// Which of the explicit ones among the first `count` parameters flow into the returned value.
    pub open spec fn flow_mask(self, parameters: Seq<Parameter>, tail: Origins, count: int) -> Seq<
        bool,
    >
        decreases count,
    {
        if count <= 0 {
            Seq::empty()
        } else {
            let before = self.flow_mask(parameters, tail, count - 1);
            if parameters[count - 1].is_implicit {
                before
            } else {
                before.push(self.parameter_flows(parameters[count - 1], tail))
            }
        }
    }

    /// This state once it was recorded which parameters of a function that returns a reference
    /// flow into the returned value.
    pub open spec fn return_origins_recorded(
        self,
        fn_name: NameId,
        parameters: Seq<Parameter>,
        body: ExprId,
        return_type: Type,
    ) -> State {
        if !self.elaborates_drops() || !self.contains_reference(return_type) {
            self
        } else {
            match self.current_item {
                None => self,
                Some(item) => State {
                    return_origin_summaries: put(
                        self.return_origin_summaries,
                        (item, fn_name),
                        self.flow_mask(
                            parameters,
                            self.body_origins(body).0,
                            parameters.len() as int,
                        ),
                    ),
                    ..self
                },
            }
        }
    }
}

/// What a walk over expressions has found out.
pub struct FlowMaps {
    pub bindings: OriginMap,
    pub origins: OriginMap,
}

impl View for FlowMaps {
    type V = Flow;

    open spec fn view(&self) -> Flow {
        Flow {
            bindings: origins_by_id(self.bindings@),
            origins: origins_by_id(self.origins@),
        }
    }
}

impl FlowMaps {
    /// What is known before a walk.
    pub fn new() -> (flow: FlowMaps)
        ensures
            flow@ == Flow::nothing(),
    {
        let flow = FlowMaps { bindings: FxHashMap::default(), origins: FxHashMap::default() };
        assert(flow@ =~= Flow::nothing());
        flow
    }
}

fn find_explicit_arguments(arguments: &Vec<Argument>) -> (explicit: Vec<ExprId>)
    ensures
        explicit@ == explicit_arguments(arguments@, arguments@.len() as int),
{
    let mut explicit: Vec<ExprId> = Vec::new();
    let mut i: usize = 0;
    while i < arguments.len()
        invariant
            i <= arguments.len(),
            explicit@ == explicit_arguments(arguments@, i as int),
        decreases arguments.len() - i,
    {
        if !arguments[i].is_implicit {
            explicit.push(arguments[i].expr);
        }
        i += 1;
    }
    explicit
}

fn origin(kind: OriginKind) -> (origin: Origin)
    ensures
        origin@ == plain(kind@),
{
    Origin { kind, capture_borrow: false, location: None }
}

/// An origin with the location of the reference that produced it.
fn located(kind: OriginKind, location: Location) -> (origin: Origin)
    ensures
        origin@ == taken_at(kind@, location),
{
    Origin { kind, capture_borrow: false, location: Some(location) }
}

fn one_origin(origin: Origin) -> (set: OriginSet)
    ensures
        origins_in(set@) == seq![origin@],
{
    let mut set: OriginSet = Vec::new();
    set.push(origin);
    assert(origins_in(set@) =~= seq![origin@]);
    set
}

fn no_origins() -> (set: OriginSet)
    ensures
        origins_in(set@) == Seq::<OriginForm>::empty(),
        set@.len() == 0,
{
    let set: OriginSet = Vec::new();
    assert(origins_in(set@) =~= Seq::<OriginForm>::empty());
    set
}

impl<'a> TypeChecker<'a> {
    fn carries_origin_at(&self, typ: &Type, depth: u64) -> (carries: bool)
        ensures
            carries == self@.carries_origin_at(*typ, depth as nat),
        decreases depth, 0nat, TypeList::Nil,
    {
        if depth == 0 {
            return false;
        }
        let typ = self.follow_type(typ);
        if typ.pointer_element(&self.bindings).is_some() {
            return true;
        }
        match typ {
            Type::Application(constructor, args) => constructor.reference_constructor(
                &self.bindings,
            ).is_some() || self.some_carries_origin_at(args, depth - 1),
            Type::Tuple(elements) => self.some_carries_origin_at(elements, depth - 1),
            _ => false,
        }
    }

    fn some_carries_origin_at(&self, types: &TypeList, depth: u64) -> (carries: bool)
        ensures
            carries == self@.some_carries_origin_at(*types, depth as nat),
        decreases depth, 1nat, types,
    {
        match types {
            TypeList::Nil => false,
            TypeList::Cons(first, rest) => self.carries_origin_at(first, depth)
                || self.some_carries_origin_at(rest, depth),
        }
    }

    /// Whether a reference or a raw pointer occurs in the type. Unlike a reference, a raw pointer
    /// does not tell where it came from, and a reference may be made of it again.
    pub fn type_carries_origin(&self, typ: &Type) -> (carries: bool)
        ensures
            carries == self@.carries_origin_at(*typ, NESTING_LIMIT as nat),
    {
        self.carries_origin_at(typ, NESTING_LIMIT)
    }

    fn collect_origin_elements_at(&self, typ: &Type, depth: u64) -> (elements: Vec<Type>)
        ensures
            elements@ == self@.origin_elements_at(*typ, depth as nat),
        decreases depth, 0nat, TypeList::Nil,
    {
        let mut elements: Vec<Type> = Vec::new();
        if depth == 0 {
            return elements;
        }
        let ghost whole = self@.origin_elements_at(*typ, depth as nat);
        let typ = self.follow_type(typ);
        match typ.pointer_element(&self.bindings) {
            Some(element) => {
                elements.push(element.clone());
            },
            None => {},
        }
        match typ {
            Type::Application(constructor, args) => {
                if constructor.reference_constructor(&self.bindings).is_some() {
                    match args.get_second_of_two() {
                        Some(element) => {
                            elements.push(element.clone());
                        },
                        None => {},
                    }
                }
                let mut more = self.collect_all_origin_elements_at(args, depth - 1);
                elements.append(&mut more);
            },
            Type::Tuple(types) => {
                let mut more = self.collect_all_origin_elements_at(types, depth - 1);
                elements.append(&mut more);
            },
            _ => {},
        }
        assert(elements@ =~= whole);
        elements
    }

    fn collect_all_origin_elements_at(&self, types: &TypeList, depth: u64) -> (elements: Vec<Type>)
        ensures
            elements@ == self@.all_origin_elements_at(*types, depth as nat),
        decreases depth, 1nat, types,
    {
        match types {
            TypeList::Nil => Vec::new(),
            TypeList::Cons(first, rest) => {
                let mut elements = self.collect_origin_elements_at(first, depth);
                let mut more = self.collect_all_origin_elements_at(rest, depth);
                elements.append(&mut more);
                elements
            },
        }
    }

    /// What the references and raw pointers in the type lead to.
    pub fn collect_origin_elements(&self, typ: &Type) -> (elements: Vec<Type>)
        ensures
            elements@ == self@.origin_elements_at(*typ, NESTING_LIMIT as nat),
    {
        self.collect_origin_elements_at(typ, NESTING_LIMIT)
    }

    fn occurs_at(&self, needle: &Type, haystack: &Type, depth: u64) -> (occurs: bool)
        ensures
            occurs == self@.occurs_at(*needle, *haystack, depth as nat),
        decreases depth, 0nat, TypeList::Nil,
    {
        if depth == 0 {
            return false;
        }
        let haystack = self.follow_type(haystack);
        if *self.follow_type(needle) == *haystack {
            return true;
        }
        match haystack {
            Type::Application(constructor, args) => self.occurs_at(needle, constructor, depth - 1)
                || self.occurs_in_some_at(needle, args, depth - 1),
            Type::Tuple(elements) => self.occurs_in_some_at(needle, elements, depth - 1),
            _ => false,
        }
    }

    fn occurs_in_some_at(&self, needle: &Type, types: &TypeList, depth: u64) -> (occurs: bool)
        ensures
            occurs == self@.occurs_in_some_at(*needle, *types, depth as nat),
        decreases depth, 1nat, types,
    {
        match types {
            TypeList::Nil => false,
            TypeList::Cons(first, rest) => self.occurs_at(needle, first, depth)
                || self.occurs_in_some_at(needle, rest, depth),
        }
    }

    /// Whether `needle` occurs anywhere in `haystack`.
    pub fn type_occurs_in(&self, needle: &Type, haystack: &Type) -> (occurs: bool)
        ensures
            occurs == self@.occurs_in(*needle, *haystack),
    {
        self.occurs_at(needle, haystack, NESTING_LIMIT)
    }

    fn contains_reference_at(&self, typ: &Type, depth: u64) -> (contains: bool)
        ensures
            contains == self@.contains_reference_at(*typ, depth as nat),
        decreases depth, 0nat, TypeList::Nil,
    {
        if depth == 0 {
            return false;
        }
        match self.follow_type(typ) {
            Type::Application(constructor, args) => constructor.reference_constructor(
                &self.bindings,
            ).is_some() || self.some_contains_reference_at(args, depth - 1),
            Type::Tuple(elements) => self.some_contains_reference_at(elements, depth - 1),
            _ => false,
        }
    }

    fn some_contains_reference_at(&self, types: &TypeList, depth: u64) -> (contains: bool)
        ensures
            contains == self@.some_contains_reference_at(*types, depth as nat),
        decreases depth, 1nat, types,
    {
        match types {
            TypeList::Nil => false,
            TypeList::Cons(first, rest) => self.contains_reference_at(first, depth)
                || self.some_contains_reference_at(rest, depth),
        }
    }

    /// Whether a reference occurs in the type. Raw pointers do not count.
    pub fn type_contains_reference(&self, typ: &Type) -> (contains: bool)
        ensures
            contains == self@.contains_reference(*typ),
    {
        self.contains_reference_at(typ, NESTING_LIMIT)
    }

    fn is_function_local_at(&self, target: ExprId, depth: u64) -> (local: bool)
        ensures
            local == self@.is_function_local_at(target, depth as nat),
        decreases depth,
    {
        if depth == 0 {
            return false;
        }
        match self.context.expr(target) {
            Expr::Variable(path) => match self.context.local(*path) {
                Some(name) => self.name_is_local_to_current_function(name) && map_get(
                    &self.name_types,
                    name,
                ).is_some() && !self.name_is_reference_typed(name),
                None => false,
            },
            Expr::MemberAccess { object, .. } => self.is_function_local_at(*object, depth - 1),
            Expr::TypeAnnotation { lhs } => self.is_function_local_at(*lhs, depth - 1),
            _ => match self.type_of_expr(target) {
                Some(typ) => !self.diverges(&typ),
                None => true,
            },
        }
    }

    /// Whether what is referred to dies where the current function returns.
    pub fn reference_target_is_function_local(&self, target: ExprId) -> (local: bool)
        ensures
            local == self@.is_function_local(target),
    {
        self.is_function_local_at(target, NESTING_LIMIT)
    }

    /// Where the reference `reference_expr` to `rhs` points.
    fn reference_origin(&self, reference_expr: ExprId, rhs: ExprId) -> (set: OriginSet)
        ensures
            origins_in(set@) == self@.reference_origin(reference_expr, rhs),
    {
        let location = self.context.expr_location(reference_expr);
        match self.try_build_move_path(rhs) {
            Some(path) => {
                let root = path.root_variable();
                // A place in a local dies here. Any other is reached through what the caller owns.
                if self.name_is_local_to_current_function(root) {
                    one_origin(located(OriginKind::Local(path), location))
                } else {
                    one_origin(origin(OriginKind::Param(root)))
                }
            },
            None => {
                if self.reference_target_is_function_local(rhs) {
                    one_origin(located(OriginKind::LocalTemp, location))
                } else {
                    no_origins()
                }
            },
        }
    }

    /// Whether the callee is a constructor of a type.
    pub fn callee_is_constructor(&self, function: ExprId) -> (constructor: bool)
        ensures
            constructor == self@.is_constructor(function),
    {
        match self.context.expr(function) {
            Expr::Variable(path) => match self.context.path_origin(*path) {
                Some(NameOrigin::TopLevelDefinition(name)) => self.facts.database.get_type_definition(
                    name.top_level_item,
                ).is_some(),
                _ => false,
            },
            _ => false,
        }
    }

    fn may_alias(&self, argument: ExprId, result_elements: &Vec<Type>) -> (alias: bool)
        ensures
            alias == self@.may_alias(argument, result_elements@),
    {
        let typ = match self.type_of_expr(argument) {
            Some(typ) => typ,
            None => {
                return false;
            },
        };
        let elements = self.collect_origin_elements(&typ);
        let mut i: usize = 0;
        while i < elements.len()
            invariant
                i <= elements.len(),
                self@.type_of_expr(argument) == Some(typ),
                elements@ == self@.origin_elements_at(typ, NESTING_LIMIT as nat),
                forall|a: int, b: int|
                    0 <= a < i && 0 <= b < result_elements@.len() ==> !#[trigger] self@.occurs_in(
                        result_elements@[b],
                        elements@[a],
                    ),
            decreases elements.len() - i,
        {
            let mut j: usize = 0;
            while j < result_elements.len()
                invariant
                    i < elements.len(),
                    j <= result_elements.len(),
                    self@.type_of_expr(argument) == Some(typ),
                    elements@ == self@.origin_elements_at(typ, NESTING_LIMIT as nat),
                    forall|b: int|
                        0 <= b < j ==> !#[trigger] self@.occurs_in(
                            result_elements@[b],
                            elements@[i as int],
                        ),
                decreases result_elements.len() - j,
            {
                if self.type_occurs_in(&result_elements[j], &elements[i]) {
                    assert(self@.occurs_in(result_elements@[j as int], elements@[i as int]));
                    return true;
                }
                j += 1;
            }
            i += 1;
        }
        false
    }

    /// The arguments whose references a call passes on.
    fn forwarded_arguments(&self, function: ExprId, arguments: &Vec<Argument>, call: ExprId) -> (forwarded:
        Vec<ExprId>)
        ensures
            forwarded@ == self@.forwarded_arguments(function, arguments@, call),
    {
        let explicit = find_explicit_arguments(arguments);
        if self.callee_is_constructor(function) {
            return explicit;
        }
        let mut forwarded: Vec<ExprId> = Vec::new();
        let result_type = match self.type_of_expr(call) {
            Some(typ) => typ,
            None => {
                return forwarded;
            },
        };
        if !self.type_carries_origin(&result_type) {
            return forwarded;
        }
        let result_elements = self.collect_origin_elements(&result_type);
        let mut i: usize = 0;
        while i < explicit.len()
            invariant
                i <= explicit.len(),
                forwarded@ == self@.aliasing_arguments(explicit@, result_elements@, i as int),
            decreases explicit.len() - i,
        {
            if self.may_alias(explicit[i], &result_elements) {
                forwarded.push(explicit[i]);
            }
            i += 1;
        }
        forwarded
    }

    /// Where what a closure captures points. A local that points nowhere is an owned capture, and
    /// so is one that nothing was recorded of; a `move` closure owns it.
    fn lambda_origin(&self, lambda_expr: ExprId, bindings: &OriginMap) -> (set: OriginSet)
        ensures
            origins_in(set@) == self@.lambda_origin(lambda_expr, origins_by_id(bindings@)),
    {
        let mut set: OriginSet = no_origins();
        let count: usize = self.function_local_names.len();
        if count == 0 {
            return set;
        }
        let locals = &self.function_local_names[count - 1];
        let is_move = match self.context.expr(lambda_expr) {
            Expr::Lambda { is_move, .. } => *is_move,
            _ => false,
        };
        let location = self.context.expr_location(lambda_expr);
        let ghost known = origins_by_id(bindings@);
        let mut i: usize = 0;
        while i < locals.len()
            invariant
                i <= locals.len(),
                known == origins_by_id(bindings@),
                location == self@.context.expr_location(lambda_expr),
                origins_in(set@) == self@.captured_origins(
                    lambda_expr,
                    is_move,
                    known,
                    locals@,
                    i as int,
                ),
            decreases locals.len() - i,
        {
            let name = locals[i];
            if self.lambda_captures_name(lambda_expr, name) {
                let mut recorded: OriginSet = no_origins();
                match map_get(bindings, name) {
                    Some(origins) => {
                        recorded = copy_origins(origins);
                        assert(known[name] == origins_in(origins@));
                        assert(origins_in(recorded@).len() == recorded@.len());
                    },
                    None => {},
                }
                if recorded.len() > 0 {
                    append_origins(&mut set, recorded);
                } else if !is_move && !self.name_is_reference_typed(name) {
                    let borrow = Origin {
                        kind: OriginKind::Local(MovePath::Variable(name)),
                        capture_borrow: true,
                        location: Some(location),
                    };
                    let ghost before = set@;
                    set.push(borrow);
                    assert(origins_in(set@) =~= origins_in(before).push(borrow@));
                }
            }
            i += 1;
        }
        set
    }

    fn origin_at(&self, flow: &mut FlowMaps, expr: ExprId, depth: u64) -> (set: OriginSet)
        ensures
            (origins_in(set@), final(flow)@) == self@.origin_at(old(flow)@, expr, depth as nat),
        decreases depth, 0nat, 0int,
    {
        if depth == 0 {
            return no_origins();
        }
        let set: OriginSet = match self.context.expr(expr) {
            Expr::Reference { rhs, .. } => self.reference_origin(expr, *rhs),
            Expr::Variable(path) => match self.context.local(*path) {
                Some(name) => match map_get(&flow.bindings, name) {
                    Some(recorded) => {
                        let set = copy_origins(recorded);
                        assert(flow@.bindings[name] == origins_in(recorded@));
                        set
                    },
                    None => {
                        if self.name_is_reference_typed(name) {
                            one_origin(origin(OriginKind::Param(name)))
                        } else {
                            no_origins()
                        }
                    },
                },
                None => no_origins(),
            },
            Expr::MemberAccess { object, .. } => self.origin_at(flow, *object, depth - 1),
            Expr::TypeAnnotation { lhs } => self.origin_at(flow, *lhs, depth - 1),
            Expr::Sequence(items) => {
                let count: usize = items.len();
                if count == 0 {
                    no_origins()
                } else {
                    self.statements_at(flow, items, count - 1, depth - 1);
                    self.origin_at(flow, items[count - 1], depth - 1)
                }
            },
            Expr::Definition(_) => {
                self.statement_at(flow, expr, depth - 1);
                no_origins()
            },
            Expr::If { then_expr, else_expr, .. } => {
                let mut branches: Vec<ExprId> = Vec::new();
                branches.push(*then_expr);
                match else_expr {
                    Some(else_expr) => {
                        branches.push(*else_expr);
                        assert(branches@ =~= seq![*then_expr, *else_expr]);
                    },
                    None => {
                        assert(branches@ =~= seq![*then_expr]);
                    },
                }
                self.origins_at(flow, &branches, depth - 1)
            },
            Expr::Match { cases, .. } => {
                let mut branches: Vec<ExprId> = Vec::new();
                let mut i: usize = 0;
                while i < cases.len()
                    invariant
                        i <= cases.len(),
                        branches@ == cases@.take(i as int).map_values(
                            |case: (u32, ExprId)| case.1,
                        ),
                    decreases cases.len() - i,
                {
                    branches.push(cases[i].1);
                    assert(cases@.take(i + 1) =~= cases@.take(i as int).push(cases@[i as int]));
                    i += 1;
                }
                assert(cases@.take(i as int) =~= cases@);
                self.origins_at(flow, &branches, depth - 1)
            },
            Expr::Constructor { fields } => {
                let mut values: Vec<ExprId> = Vec::new();
                let mut i: usize = 0;
                while i < fields.len()
                    invariant
                        i <= fields.len(),
                        values@ == fields@.take(i as int).map_values(
                            |field: (NameId, ExprId)| field.1,
                        ),
                    decreases fields.len() - i,
                {
                    values.push(fields[i].1);
                    assert(fields@.take(i + 1) =~= fields@.take(i as int).push(fields@[i as int]));
                    i += 1;
                }
                assert(fields@.take(i as int) =~= fields@);
                self.origins_at(flow, &values, depth - 1)
            },
            Expr::Call { function, arguments } => {
                let forwarded = self.forwarded_arguments(*function, arguments, expr);
                self.origins_at(flow, &forwarded, depth - 1)
            },
            Expr::Lambda { .. } => self.lambda_origin(expr, &flow.bindings),
            _ => no_origins(),
        };
        assert(origins_in(set@).len() == set@.len());
        if set.len() > 0 {
            put_origins(&mut flow.origins, expr, copy_origins(&set));
        }
        set
    }

    fn origins_at(&self, flow: &mut FlowMaps, exprs: &Vec<ExprId>, depth: u64) -> (set: OriginSet)
        ensures
            (origins_in(set@), final(flow)@) == self@.origins_at(
                old(flow)@,
                exprs@,
                exprs@.len() as int,
                depth as nat,
            ),
        decreases depth, 2nat, 0int,
    {
        let mut set: OriginSet = no_origins();
        let mut i: usize = 0;
        while i < exprs.len()
            invariant
                i <= exprs.len(),
                (origins_in(set@), flow@) == self@.origins_at(
                    old(flow)@,
                    exprs@,
                    i as int,
                    depth as nat,
                ),
            decreases exprs.len() - i,
        {
            let more = self.origin_at(flow, exprs[i], depth);
            append_origins(&mut set, more);
            i += 1;
        }
        set
    }

    /// Note what a statement does to where bindings point.
    fn statement_at(&self, flow: &mut FlowMaps, expr: ExprId, depth: u64)
        ensures
            final(flow)@ == self@.statement_at(old(flow)@, expr, depth as nat),
        decreases depth, 1nat, 0int,
    {
        if depth == 0 {
            return ;
        }
        match self.context.expr(expr) {
            Expr::Definition(definition) => {
                let set = self.origin_at(flow, definition.rhs, depth - 1);
                match self.single_variable_pattern(definition.pattern) {
                    Some(name) => {
                        put_origins(&mut flow.bindings, name, set);
                    },
                    None => {},
                }
            },
            Expr::Assignment(assignment) => {
                let set = self.origin_at(flow, assignment.rhs, depth - 1);
                match self.context.expr(assignment.lhs) {
                    Expr::Variable(path) => match self.context.local(*path) {
                        Some(name) => {
                            let ghost known = flow@.bindings;
                            let mut all: OriginSet = match map_get(&flow.bindings, name) {
                                Some(recorded) => {
                                    assert(known[name] == origins_in(recorded@));
                                    copy_origins(recorded)
                                },
                                None => no_origins(),
                            };
                            append_origins(&mut all, set);
                            put_origins(&mut flow.bindings, name, all);
                        },
                        None => {},
                    },
                    _ => {},
                }
            },
            Expr::Sequence(items) => {
                self.statements_at(flow, items, items.len(), depth - 1);
            },
            _ => {},
        }
    }

    fn statements_at(&self, flow: &mut FlowMaps, items: &Vec<ExprId>, count: usize, depth: u64)
        requires
            count <= items@.len(),
        ensures
            final(flow)@ == self@.statements_at(old(flow)@, items@, count as int, depth as nat),
        decreases depth, 2nat, 0int,
    {
        let mut i: usize = 0;
        while i < count
            invariant
                i <= count,
                count <= items@.len(),
                flow@ == self@.statements_at(old(flow)@, items@, i as int, depth as nat),
            decreases count - i,
        {
            self.statement_at(flow, items[i], depth);
            i += 1;
        }
    }

    /// Where the references of an expression may point: nowhere for a value that carries none.
    /// Every set that is not empty is recorded for its expression.
    pub fn origin_of(&self, flow: &mut FlowMaps, expr: ExprId) -> (set: OriginSet)
        ensures
            (origins_in(set@), final(flow)@) == self@.origin(old(flow)@, expr),
    {
        self.origin_at(flow, expr, NESTING_LIMIT)
    }

    /// Walk a statement, whose value is not used: what it defines or assigns points where the value
    /// does.
    pub fn origin_stmt(&self, flow: &mut FlowMaps, expr: ExprId)
        ensures
            final(flow)@ == self@.statement(old(flow)@, expr),
    {
        self.statement_at(flow, expr, NESTING_LIMIT)
    }

    /// Where the references of the value of `body` may point, and those of every expression in it.
    pub fn compute_origins(&self, body: ExprId) -> (result: (OriginSet, FlowMaps))
        ensures
            (origins_in(result.0@), result.1@) == self@.body_origins(body),
    {
        let mut flow = FlowMaps::new();
        let tail = self.origin_of(&mut flow, body);
        (tail, flow)
    }

    /// Whether what is pointed into dies where the current function returns.
    pub fn origin_escapes(&self, kind: &OriginKind) -> (escapes: bool)
        ensures
            escapes == self@.escapes(kind@),
    {
        match kind {
            OriginKind::Local(path) => self.name_is_local_to_current_function(path.root_variable()),
            OriginKind::LocalTemp => true,
            OriginKind::Param(_) => false,
            OriginKind::Immortal => false,
        }
    }

    /// Reject a returned value with a reference into what this function frees. The report points
    /// at the reference.
    pub fn reject_escaping_origins(&mut self, returned: ExprId)
        ensures
            final(self)@ == old(self)@.escapes_checked(returned),
    {
        let (tail, _) = self.compute_origins(returned);
        let mut reported: Vec<Location> = Vec::new();
        let mut i: usize = 0;
        while i < tail.len()
            invariant
                i <= tail.len(),
                (reported@, self@) == old(self)@.escapes_rejected(
                    origins_in(tail@),
                    returned,
                    i as int,
                ),
            decreases tail.len() - i,
        {
            let origin = &tail[i];
            assert(origins_in(tail@)[i as int] == origin@);
            if self.origin_escapes(&origin.kind) {
                let location = match origin.location {
                    Some(location) => location,
                    None => self.context.expr_location(returned),
                };
                // What is `Copy` is copied into the environment, and cannot dangle.
                let mut is_copy = false;
                if origin.capture_borrow {
                    match &origin.kind {
                        OriginKind::Local(path) => {
                            let typ = self.type_of_name(path.root_variable());
                            is_copy = self.type_is_copy(&typ);
                        },
                        _ => {},
                    }
                }
                if !is_copy && !is_reported(&reported, location) {
                    reported.push(location);
                    self.report(Diagnostic::ReferenceEscapesScope { location });
                }
            }
            i += 1;
        }
    }

    /// Record which explicit parameters of the function `fn_name` flow into the reference it
    /// returns. Where it returns none, nothing is recorded.
    pub fn compute_return_origin_summary(
        &mut self,
        fn_name: NameId,
        parameters: &Vec<Parameter>,
        body: ExprId,
        return_type: &Type,
    )
        ensures
            final(self)@ == old(self)@.return_origins_recorded(
                fn_name,
                parameters@,
                body,
                *return_type,
            ),
    {
        if !self.drop_elaboration_active() {
            return ;
        }
        if !self.type_contains_reference(return_type) {
            return ;
        }
        let (tail, _) = self.compute_origins(body);
        let mut mask: Vec<bool> = Vec::new();
        let mut i: usize = 0;
        while i < parameters.len()
            invariant
                i <= parameters.len(),
                mask@ == self@.flow_mask(parameters@, origins_in(tail@), i as int),
            decreases parameters.len() - i,
        {
            if !parameters[i].is_implicit {
                mask.push(self.parameter_flows(&parameters[i], &tail));
            }
            i += 1;
        }
        match self.current_item {
            Some(item) => {
                put_mask(&mut self.return_origin_summaries, item, fn_name, mask);
            },
            None => {},
        }
    }

    fn parameter_flows(&self, parameter: &Parameter, tail: &OriginSet) -> (flows: bool)
        ensures
            flows == self@.parameter_flows(*parameter, origins_in(tail@)),
    {
        let name = match self.single_variable_pattern(parameter.pattern) {
            Some(name) => name,
            None => {
                return false;
            },
        };
        let mut i: usize = 0;
        while i < tail.len()
            invariant
                i <= tail.len(),
                self@.single_variable(parameter.pattern) == Some(name),
                forall|j: int|
                    0 <= j < i ==> (#[trigger] origins_in(tail@)[j]).kind != OriginPlace::Param(
                        name,
                    ),
            decreases tail.len() - i,
        {
            assert(origins_in(tail@)[i as int] == tail@[i as int]@);
            match &tail[i].kind {
                OriginKind::Param(param) => {
                    if *param == name {
                        return true;
                    }
                },
                _ => {},
            }
            i += 1;
        }
        false
    }
}

fn is_reported(reported: &Vec<Location>, location: Location) -> (found: bool)
    ensures
        found == reported@.contains(location),
{
    let mut i: usize = 0;
    while i < reported.len()
        invariant
            i <= reported.len(),
            forall|j: int| 0 <= j < i ==> reported@[j] != location,
        decreases reported.len() - i,
    {
        if reported[i] == location {
            return true;
        }
        i += 1;
    }
    false
}

} // verus!

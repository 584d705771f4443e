//! Where values die.
//!
//! While an item is walked, a stack of scopes notes which owned locals each scope declares. Where
//! a scope is left, what was moved by then tells what is still owned, and a drop is made for each
//! of that. The drops are noted at the expressions whose exits run them.

use crate::collections::{is_listed, map_get, map_insert, map_remove, set_contains, set_insert};
#[allow(unused_imports)]
use crate::collections::put;
use crate::cst::{copy_ids, Argument, Assignment, Context, Definition, Expr, Parameter, Pattern};
#[allow(unused_imports)]
use crate::cst::{lists, ContextState, ExprForm, PatternForm};
use crate::ids::{
    ExprId, Location, NameId, Origin, PatternId, TopLevelId, TopLevelName, NESTING_LIMIT,
};
use crate::type_inference::checker::{
    put_mask, Diagnostic, DropScope, DropScopeKind, TypeChecker,
};
#[allow(unused_imports)]
use crate::type_inference::checker::{Report, ScopeState, State};
#[allow(unused_imports)]
use crate::type_inference::drop_synthesis::with_drop;
use crate::type_inference::free_variables::free_variables_of;
use crate::type_inference::moves::{MovePath, MoveTracker};
#[allow(unused_imports)]
use crate::type_inference::moves::Moves;
use crate::types::{
    FunctionType, Generic, Generics, Parameters, PrimitiveType, Type, TypeList,
};
use vstd::prelude::*;

verus! {

/// `names` with `name` behind them, unless it is among them.
pub open spec fn with_new(names: Seq<NameId>, name: NameId) -> Seq<NameId> {
    if names.contains(name) {
        names
    } else {
        names.push(name)
    }
}

/// `names` with those of the first `count` of `more` that are not among them behind them.
pub open spec fn with_all_new(names: Seq<NameId>, more: Seq<NameId>, count: int) -> Seq<NameId>
    decreases count,
{
    if count <= 0 {
        names
    } else {
        with_new(with_all_new(names, more, count - 1), more[count - 1])
    }
}

/// What is declared from the innermost of `scopes` up to the first of the kind `boundary`, the
/// latest first.
pub open spec fn unwound(scopes: Seq<ScopeState>, boundary: DropScopeKind) -> Seq<NameId>
    decreases scopes.len(),
{
    if scopes.len() == 0 {
        Seq::empty()
    } else {
        scopes.last().names.reverse() + if scopes.last().kind == boundary {
            Seq::empty()
        } else {
            unwound(scopes.drop_last(), boundary)
        }
    }
}

/// What is declared in `scopes`, the latest first.
pub open spec fn declared_in(scopes: Seq<ScopeState>) -> Seq<NameId>
    decreases scopes.len(),
{
    if scopes.len() == 0 {
        Seq::empty()
    } else {
        scopes.last().names.reverse() + declared_in(scopes.drop_last())
    }
}

/// Some branch moved the whole variable, which was not moved `before`.
pub open spec fn moved_in_some(name: NameId, before: Moves, branches: Seq<Moves>) -> bool {
    &&& before.moved_at((name, Seq::empty())) is None
    &&& exists|i: int| 0 <= i < branches.len() && (#[trigger] branches[i]).whole().contains(name)
}

/// The moves of each edge.
pub open spec fn edge_moves(edges: Seq<(ExprId, MoveTracker)>) -> Seq<Moves> {
    edges.map_values(|edge: (ExprId, MoveTracker)| edge.1@)
}

impl ContextState {
    /// `names` with those a pattern binds behind them, each once.
    pub open spec fn with_bound(self, names: Seq<NameId>, pattern: PatternId, depth: nat) -> Seq<
        NameId,
    >
        decreases depth, 0nat, 0int,
    {
        if depth == 0 {
            names
        } else {
            match self.pattern(pattern) {
                PatternForm::Variable(name) => with_new(names, name),
                PatternForm::MethodName { item_name } => with_new(names, item_name),
                PatternForm::Alias(name, inner) => self.with_bound(
                    with_new(names, name),
                    inner,
                    (depth - 1) as nat,
                ),
                PatternForm::TypeAnnotation(inner) => self.with_bound(
                    names,
                    inner,
                    (depth - 1) as nat,
                ),
                PatternForm::Or(patterns) => self.with_all_bound(
                    names,
                    patterns,
                    patterns.len() as int,
                    (depth - 1) as nat,
                ),
                PatternForm::Constructor(_, patterns) => self.with_all_bound(
                    names,
                    patterns,
                    patterns.len() as int,
                    (depth - 1) as nat,
                ),
                PatternForm::Literal | PatternForm::Error => names,
            }
        }
    }

    pub open spec fn with_all_bound(
        self,
        names: Seq<NameId>,
        patterns: Seq<PatternId>,
        count: int,
        depth: nat,
    ) -> Seq<NameId>
        decreases depth, 1nat, count,
    {
        if count <= 0 {
            names
        } else {
            self.with_bound(
                self.with_all_bound(names, patterns, count - 1, depth),
                patterns[count - 1],
                depth,
            )
        }
    }
}

impl State {
    /// This state inside a new scope.
    pub open spec fn scope_entered(self, kind: DropScopeKind) -> State {
        if self.elaborates_drops() {
            State {
                drop_scopes: self.drop_scopes.push(ScopeState { kind, names: Seq::empty() }),
                function_local_names: if kind == DropScopeKind::Function {
                    self.function_local_names.push(Seq::empty())
                } else {
                    self.function_local_names
                },
                ..self
            }
        } else {
            self
        }
    }

    /// This state outside its innermost scope.
    pub open spec fn scope_left(self) -> State {
        State {
            drop_scopes: self.drop_scopes.drop_last(),
            function_local_names: if self.drop_scopes.last().kind == DropScopeKind::Function
                && self.function_local_names.len() > 0 {
                self.function_local_names.drop_last()
            } else {
                self.function_local_names
            },
            ..self
        }
    }

    /// The drops of those of the first `count` of `names` that are still owned.
    pub open spec fn owned_drops(self, names: Seq<NameId>, count: int, location: Location) -> (
        Seq<ExprId>,
        State,
    )
        decreases count,
    {
        if count <= 0 {
            (Seq::empty(), self)
        } else {
            let (drops, made) = self.owned_drops(names, count - 1, location);
            let name = names[count - 1];
            if made.captured_names.contains(name) || !made.name_types.contains_key(name) {
                (drops, made)
            } else {
                let (drop, made) = made.remainder_dropped(
                    (name, Seq::empty()),
                    made.name_types[name],
                    made.moves,
                    location,
                );
                (with_drop(drops, drop), made)
            }
        }
    }

    /// The drops of what `moves` leaves of the first `count` of `names`.
    pub open spec fn edge_drops(
        self,
        names: Seq<NameId>,
        count: int,
        moves: Moves,
        location: Location,
    ) -> (Seq<ExprId>, State)
        decreases count,
    {
        if count <= 0 {
            (Seq::empty(), self)
        } else {
            let (drops, made) = self.edge_drops(names, count - 1, moves, location);
            let name = names[count - 1];
            if !made.name_types.contains_key(name) {
                (drops, made)
            } else {
                let (drop, made) = made.remainder_dropped(
                    (name, Seq::empty()),
                    made.name_types[name],
                    moves,
                    location,
                );
                (with_drop(drops, drop), made)
            }
        }
    }

    /// The drops of the innermost scope, where its end is reached, outside of it.
    pub open spec fn scope_popped(self, diverges: bool, location: Location) -> (Seq<ExprId>, State) {
        if !self.elaborates_drops() {
            (Seq::empty(), self)
        } else if diverges {
            (Seq::empty(), self.scope_left())
        } else {
            let names = self.drop_scopes.last().names.reverse();
            self.scope_left().owned_drops(names, names.len() as int, location)
        }
    }

    /// The drops of a jump out of all scopes up to the innermost of the kind `boundary`.
    pub open spec fn exit_drops(self, boundary: DropScopeKind, location: Location) -> (
        Seq<ExprId>,
        State,
    ) {
        if !self.elaborates_drops() {
            (Seq::empty(), self)
        } else {
            let names = unwound(self.drop_scopes, boundary);
            self.owned_drops(names, names.len() as int, location)
        }
    }

    /// The binding owns a value: it is no part of another place, and it is not discarded.
    pub open spec fn owns(self, name: NameId) -> bool {
        !self.binding_places.contains_key(name) && self.context.name(name) != "_"@
    }

    /// Those of the first `count` of `names` that own a value.
    pub open spec fn owners(self, names: Seq<NameId>, count: int) -> Seq<NameId>
        decreases count,
    {
        if count <= 0 {
            Seq::empty()
        } else {
            let owners = self.owners(names, count - 1);
            if self.owns(names[count - 1]) {
                owners.push(names[count - 1])
            } else {
                owners
            }
        }
    }

    /// The names a pattern binds.
    pub open spec fn bound_names(self, pattern: PatternId) -> Seq<NameId> {
        self.context.with_bound(Seq::empty(), pattern, NESTING_LIMIT as nat)
    }

    /// This state with the bindings of a pattern that own a value in the innermost scope.
    pub open spec fn locals_registered(self, pattern: PatternId) -> State {
        if !self.elaborates_drops() || self.drop_scopes.len() == 0 {
            self
        } else {
            let bound = self.bound_names(pattern);
            let names = self.owners(bound, bound.len() as int);
            let scope = self.drop_scopes.last();
            let locals = self.function_local_names;
            State {
                function_local_names: if locals.len() > 0 {
                    locals.update(locals.len() - 1, locals.last() + names)
                } else {
                    locals
                },
                drop_scopes: self.drop_scopes.update(
                    self.drop_scopes.len() - 1,
                    ScopeState {
                        kind: scope.kind,
                        names: with_all_new(scope.names, names, names.len() as int),
                    },
                ),
                ..self
            }
        }
    }

    /// Those of the first `count` of `names` that some branch moved and that are owned here.
    pub open spec fn moved_locals(
        self,
        names: Seq<NameId>,
        count: int,
        before: Moves,
        branches: Seq<Moves>,
    ) -> Seq<NameId>
        decreases count,
    {
        if count <= 0 {
            Seq::empty()
        } else {
            let moved = self.moved_locals(names, count - 1, before, branches);
            let name = names[count - 1];
            if moved_in_some(name, before, branches) && self.is_own_local(name) {
                moved.push(name)
            } else {
                moved
            }
        }
    }

    /// What some branch moved and another may still own, the latest first.
    pub open spec fn branch_candidates(self, before: Moves, branches: Seq<Moves>) -> Seq<NameId> {
        let names = declared_in(self.drop_scopes);
        self.moved_locals(names, names.len() as int, before, branches)
    }

    /// This state with what the ends of the first `count` of `edges` still own dropped there.
    pub open spec fn edges_equalized(
        self,
        candidates: Seq<NameId>,
        edges: Seq<(ExprId, MoveTracker)>,
        count: int,
    ) -> State
        decreases count,
    {
        if count <= 0 {
            self
        } else {
            let made = self.edges_equalized(candidates, edges, count - 1);
            let expr = edges[count - 1].0;
            let (drops, made) = made.edge_drops(
                candidates,
                candidates.len() as int,
                edges[count - 1].1@,
                made.context.expr_location(expr),
            );
            if drops.len() == 0 {
                made
            } else {
                State { context: made.context.with_post_expr_drops(expr, drops), ..made }
            }
        }
    }

    pub open spec fn branches_equalized(
        self,
        before: Moves,
        edges: Seq<(ExprId, MoveTracker)>,
    ) -> State {
        if !self.elaborates_drops() || edges.len() == 0 {
            self
        } else {
            let candidates = self.branch_candidates(before, edge_moves(edges));
            if candidates.len() == 0 {
                self
            } else {
                self.edges_equalized(candidates, edges, edges.len() as int)
            }
        }
    }

    /// The drops of an edge without an expression, next to a branch that moved something.
    pub open spec fn implicit_else_drops(
        self,
        before: Moves,
        branch: Moves,
        location: Location,
    ) -> (Seq<ExprId>, State) {
        if !self.elaborates_drops() {
            (Seq::empty(), self)
        } else {
            let candidates = self.branch_candidates(before, seq![branch]);
            self.edge_drops(candidates, candidates.len() as int, before, location)
        }
    }

    /// An assignment to a place of `root` overwrites a value that is owned here. What a closure
    /// captured is not, unless the closure cannot outlive the scope that owns it.
    pub open spec fn overwrites_owner(self, root: NameId) -> bool {
        &&& self.is_own_local(root) || (self.in_handler_scoped_lambda && self.is_enclosing_local(
            root,
        ))
        &&& self.name_types.contains_key(root)
        &&& !self.is_reference_typed(root)
    }

    /// This state with the old value dropped that the assignment at `id` overwrites.
    pub open spec fn overwritten_dropped(self, assignment: Assignment, id: ExprId) -> State {
        match (self.place_of_expr(assignment.lhs), self.type_of_expr(assignment.lhs)) {
            (Some(place), Some(typ)) => if !self.elaborates_drops() || !self.overwrites_owner(
                place.0,
            ) {
                self
            } else {
                let quiet = State { suppress_missing_drop_diagnostic: true, ..self };
                let (drop, made) = quiet.remainder_dropped(
                    place,
                    typ,
                    self.moves,
                    self.context.expr_location(assignment.lhs),
                );
                let made = State {
                    suppress_missing_drop_diagnostic: self.suppress_missing_drop_diagnostic,
                    ..made
                };
                match drop {
                    Some(drop) => State {
                        context: made.context.with_pre_exit_drops(id, seq![drop]),
                        ..made
                    },
                    None => made,
                }
            },
            _ => self,
        }
    }
}

impl State {
    /// This state with the value of the statement `item` dropped behind it, which nothing uses:
    /// the statement becomes `tmp = <item>; drop (mut tmp)`.
    pub open spec fn statement_value_dropped(self, item: ExprId, typ: Type) -> State {
        let typ = self.follow(typ);
        if !self.elaborates_drops() || self.diverges(typ) || typ == Type::error()
            || !self.is_concrete(typ) {
            self
        } else if self.is_copy(typ) {
            self.copy_asked(typ)
        } else {
            let asked = self.copy_asked(typ);
            let location = asked.context.expr_location(item);
            let name = asked.next_name();
            let (drop, made) = asked.with_variable("drop_tmp"@, typ, location).place_dropped(
                (name, Seq::empty()),
                typ,
                location,
            );
            match drop {
                Some(drop) => made.statement_wrapped(item, name, typ, location, drop),
                None => made,
            }
        }
    }

    /// This state with the statement `item` turned into `name = <item>; drop`.
    pub open spec fn statement_wrapped(
        self,
        item: ExprId,
        name: NameId,
        typ: Type,
        location: Location,
        drop: ExprId,
    ) -> State {
        let copied = self.next_expr();
        let with_copy = self.with_expr(self.context.expr(item), typ, location);
        let moved = State {
            context: with_copy.context.with_metadata_copied(item, copied).with_drops_cleared(item),
            ..with_copy
        };
        let definition = moved.next_expr();
        let bound = moved.with_binding(name, copied);
        State {
            context: bound.context.with_replaced(
                item,
                ExprForm::Sequence(seq![definition, drop]),
            ),
            expr_types: bound.expr_types.insert(item, Type::unit()),
            ..bound
        }
    }

    /// A reference to the value of `rhs` in an argument of a call is one to a temporary that the
    /// caller drops behind the call: the expression that is referred to then.
    pub open spec fn autoref_temp_bound(self, rhs: ExprId, element: Type, location: Location) -> (
        ExprId,
        State,
    ) {
        let typ = self.follow(element);
        if self.call_argument_depth == 0 || !self.elaborates_drops() || self.place_of_expr(
            rhs,
        ) is Some || typ == Type::error() || !self.is_concrete(typ) {
            (rhs, self)
        } else {
            let name = self.next_name();
            let (drop, made) = self.with_variable("autoref_tmp"@, typ, location).place_dropped(
                (name, Seq::empty()),
                typ,
                location,
            );
            match drop {
                None => (rhs, made),
                Some(drop) => {
                    let (body, placed) = made.place_expr((name, Seq::empty()), typ, location);
                    let definition = placed.next_expr();
                    let bound = placed.with_binding(name, rhs);
                    let block = bound.next_expr();
                    let made = bound.with_expr(
                        ExprForm::Sequence(seq![definition, body]),
                        typ,
                        location,
                    );
                    (
                        block,
                        State {
                            pending_autoref_temp_drops: made.pending_autoref_temp_drops.push(drop),
                            ..made
                        },
                    )
                },
            }
        }
    }

    /// Some lambda in the expression captures `name`. What is not written in other terms yet may
    /// do anything.
    pub open spec fn escapes_in(self, expr: ExprId, name: NameId, depth: nat) -> bool
        decreases depth, 0nat, 0int,
    {
        depth == 0 || match self.context.expr(expr) {
            ExprForm::Lambda { .. } => self.captures(expr, name),
            ExprForm::Sugar => true,
            form => self.escapes_in_some(
                form.children(),
                form.children().len() as int,
                name,
                (depth - 1) as nat,
            ),
        }
    }

    pub open spec fn escapes_in_some(
        self,
        exprs: Seq<ExprId>,
        count: int,
        name: NameId,
        depth: nat,
    ) -> bool
        decreases depth, 1nat, count,
    {
        count > 0 && (self.escapes_in_some(exprs, count - 1, name, depth) || self.escapes_in(
            exprs[count - 1],
            name,
            depth,
        ))
    }

    /// An explicit parameter of the type may be called, and the call may suspend.
    pub open spec fn may_suspend(self, parameter: Parameter, typ: Type) -> bool {
        !parameter.is_implicit && (self.follow(typ) is Function || self.is_ability(
            self.follow(typ),
        ))
    }

    /// The variable of a parameter that borrows: one of a shared type that is neither mutable nor
    /// captured in the body.
    pub open spec fn borrowing_name(self, parameter: Parameter, typ: Type, body: ExprId) -> Option<
        NameId,
    > {
        if parameter.is_mutable || !self.is_shared(self.follow(typ)) {
            None
        } else {
            match self.single_variable(parameter.pattern) {
                Some(name) => if self.escapes_in(body, name, NESTING_LIMIT as nat) {
                    None
                } else {
                    Some(name)
                },
                None => None,
            }
        }
    }

    /// Which of the first `count` of `parameters`, as far as they are explicit, borrow.
    pub open spec fn borrow_mask(
        self,
        parameters: Seq<Parameter>,
        types: Seq<Type>,
        body: ExprId,
        count: int,
    ) -> (Seq<bool>, State)
        decreases count,
    {
        if count <= 0 {
            (Seq::empty(), self)
        } else {
            let (mask, made) = self.borrow_mask(parameters, types, body, count - 1);
            let parameter = parameters[count - 1];
            if parameter.is_implicit {
                (mask, made)
            } else {
                match made.borrowing_name(parameter, types[count - 1], body) {
                    Some(name) => (
                        mask.push(true),
                        State {
                            borrowed_local_params: made.borrowed_local_params.insert(name),
                            ..made
                        },
                    ),
                    None => (mask.push(false), made),
                }
            }
        }
    }

    /// This state with it noted which explicit parameters of the function `fn_name` borrow.
    pub open spec fn borrowed_params_recorded(
        self,
        fn_name: NameId,
        parameters: Seq<Parameter>,
        body: ExprId,
        expected: Type,
    ) -> State {
        match self.follow(expected) {
            Type::Function(function) => {
                let types = function.parameters.types();
                if !self.elaborates_drops() || types.len() != parameters.len() || (exists|i: int|
                    0 <= i < parameters.len() && self.may_suspend(
                        #[trigger] parameters[i],
                        types[i],
                    )) {
                    self
                } else {
                    let (mask, made) = self.borrow_mask(
                        parameters,
                        types,
                        body,
                        parameters.len() as int,
                    );
                    match self.current_item {
                        Some(item) => if mask.contains(true) {
                            State {
                                borrowed_param_masks: put(
                                    made.borrowed_param_masks,
                                    (item, fn_name),
                                    mask,
                                ),
                                ..made
                            }
                        } else {
                            made
                        },
                        None => made,
                    }
                }
            },
            _ => self,
        }
    }

    /// The variable a definition binds, if it is an alias of an immutable local.
    pub open spec fn borrowed_alias(self, definition: Definition) -> Option<NameId> {
        match (self.context.pattern(definition.pattern), self.context.expr(definition.rhs)) {
            (PatternForm::Variable(bound), ExprForm::Variable(path)) => match self.context.local(
                path,
            ) {
                Some(source) => if definition.mutable || !self.elaborates_drops()
                    || self.mutable_definitions.contains(source) {
                    None
                } else {
                    Some(bound)
                },
                None => None,
            },
            _ => None,
        }
    }

    /// This state with `names` holding nothing that their death releases.
    pub open spec fn captures_retracted(self, names: Set<NameId>) -> State {
        State { shared_closure_captures: self.shared_closure_captures.remove_keys(names), ..self }
    }

    /// This state with nothing released at the death of closures that the expression uses as
    /// values. A call of a closure leaves it where it is.
    pub open spec fn escapes_scanned(self, expr: ExprId, depth: nat) -> State
        decreases depth, 0nat, 0int,
    {
        if depth == 0 {
            self
        } else {
            match self.context.expr(expr) {
                ExprForm::Variable(path) => match self.context.local(path) {
                    Some(name) => self.captures_retracted(set![name]),
                    None => self,
                },
                ExprForm::Lambda { .. } => self.captures_retracted(
                    self.context.free_names(expr, Set::empty()).to_set(),
                ),
                ExprForm::Call { function, arguments } => {
                    let exprs = arguments.map_values(|argument: Argument| argument.expr);
                    let scanned = if self.context.expr(function) is Variable {
                        self
                    } else {
                        self.escapes_scanned(function, (depth - 1) as nat)
                    };
                    scanned.all_escapes_scanned(exprs, exprs.len() as int, (depth - 1) as nat)
                },
                form => self.all_escapes_scanned(
                    form.children(),
                    form.children().len() as int,
                    (depth - 1) as nat,
                ),
            }
        }
    }

    pub open spec fn all_escapes_scanned(self, exprs: Seq<ExprId>, count: int, depth: nat) -> State
        decreases depth, 1nat, count,
    {
        if count <= 0 {
            self
        } else {
            self.all_escapes_scanned(exprs, count - 1, depth).escapes_scanned(
                exprs[count - 1],
                depth,
            )
        }
    }

    pub open spec fn escaping_closures_retracted(self, expr: ExprId) -> State {
        if self.elaborates_drops() {
            self.escapes_scanned(expr, NESTING_LIMIT as nat)
        } else {
            self
        }
    }

    /// The value of the expression is a handle to a counted cell.
    pub open spec fn is_counted(self, expr: ExprId) -> bool {
        match self.type_of_expr(expr) {
            Some(typ) => self.is_shared(typ) || self.has_heap_env(typ),
            None => false,
        }
    }

    /// This state with the handles retained that the value of the expression may be a place of.
    pub open spec fn tail_retained(self, expr: ExprId, depth: nat) -> State
        decreases depth, 0nat, 0int,
    {
        if depth == 0 || !self.elaborates_drops() {
            self
        } else {
            match self.context.expr(expr) {
                ExprForm::Variable(_) | ExprForm::MemberAccess { .. } => if self.is_counted(expr) {
                    State { context: self.context.with_escape_retain(expr), ..self }
                } else {
                    self
                },
                ExprForm::Sequence(items) => if items.len() > 0 {
                    self.tail_retained(items.last(), (depth - 1) as nat)
                } else {
                    self
                },
                ExprForm::If { then_expr, else_expr, .. } => {
                    let then_retained = self.tail_retained(then_expr, (depth - 1) as nat);
                    match else_expr {
                        Some(else_expr) => then_retained.tail_retained(
                            else_expr,
                            (depth - 1) as nat,
                        ),
                        None => then_retained,
                    }
                },
                ExprForm::Match { cases, .. } => self.tails_retained(
                    cases,
                    cases.len() as int,
                    (depth - 1) as nat,
                ),
                ExprForm::TypeAnnotation { lhs } => self.tail_retained(lhs, (depth - 1) as nat),
                _ => self,
            }
        }
    }

    pub open spec fn tails_retained(
        self,
        cases: Seq<(PatternId, ExprId)>,
        count: int,
        depth: nat,
    ) -> State
        decreases depth, 1nat, count,
    {
        if count <= 0 {
            self
        } else {
            self.tails_retained(cases, count - 1, depth).tail_retained(cases[count - 1].1, depth)
        }
    }

    /// The type the impl is one for, if it is a `Drop` impl. An impl with constraints is a function
    /// that returns the ability.
    pub open spec fn drop_impl_target(self, impl_type: Type) -> Option<Type> {
        let typ = self.follow(impl_type);
        let ability = match typ {
            Type::Function(function) => self.follow(function.return_type),
            _ => typ,
        };
        match ability {
            Type::Application(constructor, args) => if self.follow(*constructor)
                == Type::UserDefined(
                Origin::TopLevelDefinition(self.facts.prelude.drop_type),
            ) {
                args.head()
            } else {
                None
            },
            _ => None,
        }
    }

    /// This state with a `Drop` impl for a shared type reported: no point runs it.
    pub open spec fn shared_drop_impl_rejected(self, impl_type: Type, pattern: PatternId) -> State {
        match self.drop_impl_target(impl_type) {
            Some(target) => if self.facts.database.auto_drop && self.is_shared(target) {
                self.with_report(
                    Report::DropImplForSharedType {
                        location: self.context.pattern_location(pattern),
                    },
                )
            } else {
                self
            },
            None => self,
        }
    }

    /// The type of the release function of the type that `item` defines: from the type, which is
    /// passed by value, to unit.
    pub open spec fn release_type(self, item: TopLevelId) -> Type {
        match self.facts.database.type_definition(item) {
            None => Type::error(),
            Some(definition) => {
                let name = TopLevelName { top_level_item: item, local_name_id: definition.name };
                let constructor = Type::UserDefined(Origin::TopLevelDefinition(name));
                let generics = definition.generics@;
                let data_type = if generics.len() == 0 {
                    constructor
                } else {
                    Type::Application(
                        Box::new(constructor),
                        Box::new(
                            TypeList::of(
                                generics.map_values(
                                    |name: NameId|
                                        Type::Generic(Generic::Named(Origin::Local(name))),
                                ),
                            ),
                        ),
                    )
                };
                let function = Type::Function(
                    Box::new(
                        FunctionType {
                            parameters: Parameters::Cons(
                                false,
                                Box::new(data_type),
                                Box::new(Parameters::Nil),
                            ),
                            environment: Type::Primitive(PrimitiveType::NoClosureEnv),
                            return_type: Type::unit(),
                            effects: Type::Effects(Box::new(TypeList::Nil), None),
                        },
                    ),
                );
                if generics.len() == 0 {
                    function
                } else {
                    Type::Forall(Generics::named(generics), Box::new(function))
                }
            },
        }
    }
}

fn reversed(names: &Vec<NameId>) -> (reversed: Vec<NameId>)
    ensures
        reversed@ == names@.reverse(),
{
    let mut reversed: Vec<NameId> = Vec::new();
    let mut i: usize = names.len();
    while i > 0
        invariant
            i <= names.len(),
            reversed@.len() == names@.len() - i,
            forall|j: int| 0 <= j < reversed@.len() ==> reversed@[j] == names@[names@.len() - 1 - j],
        decreases i,
    {
        i -= 1;
        reversed.push(names[i]);
    }
    assert(reversed@ =~= names@.reverse());
    reversed
}

fn push_new(names: &mut Vec<NameId>, name: NameId)
    ensures
        final(names)@ == with_new(old(names)@, name),
{
    if !is_listed(names, name) {
        names.push(name);
    }
}

fn push_all_new(names: &mut Vec<NameId>, more: &Vec<NameId>)
    ensures
        final(names)@ == with_all_new(old(names)@, more@, more@.len() as int),
{
    let mut i: usize = 0;
    while i < more.len()
        invariant
            i <= more.len(),
            names@ == with_all_new(old(names)@, more@, i as int),
        decreases more.len() - i,
    {
        push_new(names, more[i]);
        i += 1;
    }
}

impl Context {
    fn bind_names(&self, names: &mut Vec<NameId>, pattern: PatternId, depth: u64)
        ensures
            final(names)@ == self@.with_bound(old(names)@, pattern, depth as nat),
        decreases depth, 0nat,
    {
        if depth == 0 {
            return ;
        }
        match self.pattern(pattern) {
            Pattern::Variable(name) => {
                push_new(names, *name);
            },
            Pattern::MethodName { item_name } => {
                push_new(names, *item_name);
            },
            Pattern::Alias(name, inner) => {
                push_new(names, *name);
                self.bind_names(names, *inner, depth - 1);
            },
            Pattern::TypeAnnotation(inner) => {
                self.bind_names(names, *inner, depth - 1);
            },
            Pattern::Or(patterns) => {
                self.bind_all_names(names, patterns, depth - 1);
            },
            Pattern::Constructor(_, patterns) => {
                self.bind_all_names(names, patterns, depth - 1);
            },
            Pattern::Literal => {},
            Pattern::Error => {},
        }
    }

    fn bind_all_names(&self, names: &mut Vec<NameId>, patterns: &Vec<PatternId>, depth: u64)
        ensures
            final(names)@ == self@.with_all_bound(
                old(names)@,
                patterns@,
                patterns@.len() as int,
                depth as nat,
            ),
        decreases depth, 1nat,
    {
        let mut i: usize = 0;
        while i < patterns.len()
            invariant
                i <= patterns.len(),
                names@ == self@.with_all_bound(old(names)@, patterns@, i as int, depth as nat),
            decreases patterns.len() - i,
        {
            self.bind_names(names, patterns[i], depth);
            i += 1;
        }
    }
}

impl<'a> TypeChecker<'a> {
    /// Enter a scope.
    pub fn push_drop_scope(&mut self, kind: DropScopeKind)
        ensures
            final(self)@ == old(self)@.scope_entered(kind),
    {
        if self.drop_elaboration_active() {
            self.drop_scopes.push(DropScope { kind, names: Vec::new() });
            assert(self@.drop_scopes =~= old(self)@.drop_scopes.push(
                ScopeState { kind, names: Seq::empty() },
            ));
            if kind == DropScopeKind::Function {
                self.function_local_names.push(Vec::new());
                assert(self@.function_local_names =~= old(self)@.function_local_names.push(
                    Seq::empty(),
                ));
            }
        }
    }

    /// Leave the innermost scope, and make the drops of its end. Where its end is not reached,
    /// every jump out of it made drops of its own.
    pub fn pop_drop_scope(&mut self, diverges: bool, location: Location) -> (drops: Vec<ExprId>)
        requires
            old(self)@.elaborates_drops() ==> old(self)@.drop_scopes.len() > 0,
        ensures
            (drops@, final(self)@) == old(self)@.scope_popped(diverges, location),
    {
        if !self.drop_elaboration_active() {
            return Vec::new();
        }
        let count: usize = self.drop_scopes.len();
        assert(self@.drop_scopes.last() == self.drop_scopes@[count - 1]@);
        let kind = self.drop_scopes[count - 1].kind;
        let names = reversed(&self.drop_scopes[count - 1].names);
        self.drop_scopes.pop();
        assert(self@.drop_scopes =~= old(self)@.drop_scopes.drop_last());
        if kind == DropScopeKind::Function {
            self.function_local_names.pop();
            assert(self@.function_local_names =~= old(self)@.scope_left().function_local_names);
        }
        assert(self@ == old(self)@.scope_left());
        if diverges {
            return Vec::new();
        }
        self.synthesize_drops(&names, location)
    }

    /// The drops of a `return`: of all that is owned inside the innermost function.
    pub fn drops_for_return(&mut self, location: Location) -> (drops: Vec<ExprId>)
        ensures
            (drops@, final(self)@) == old(self)@.exit_drops(DropScopeKind::Function, location),
    {
        self.drops_up_to(DropScopeKind::Function, location)
    }

    /// The drops of a `break` or a `continue`: of all that is owned inside the innermost loop.
    pub fn drops_for_loop_exit(&mut self, location: Location) -> (drops: Vec<ExprId>)
        ensures
            (drops@, final(self)@) == old(self)@.exit_drops(DropScopeKind::LoopBody, location),
    {
        self.drops_up_to(DropScopeKind::LoopBody, location)
    }

    fn drops_up_to(&mut self, boundary: DropScopeKind, location: Location) -> (drops: Vec<ExprId>)
        ensures
            (drops@, final(self)@) == old(self)@.exit_drops(boundary, location),
    {
        if !self.drop_elaboration_active() {
            return Vec::new();
        }
        let names = self.names_up_to(boundary);
        self.synthesize_drops(&names, location)
    }

    fn names_up_to(&self, boundary: DropScopeKind) -> (names: Vec<NameId>)
        ensures
            names@ == unwound(self@.drop_scopes, boundary),
    {
        let ghost scopes = self@.drop_scopes;
        let mut names: Vec<NameId> = Vec::new();
        let mut done = false;
        let mut i: usize = self.drop_scopes.len();
        assert(scopes.take(i as int) =~= scopes);
        while i > 0 && !done
            invariant
                i <= self.drop_scopes.len(),
                scopes == self@.drop_scopes,
                !done ==> unwound(scopes, boundary) == names@ + unwound(
                    scopes.take(i as int),
                    boundary,
                ),
                done ==> unwound(scopes, boundary) == names@,
            decreases i,
        {
            let ghost rest = scopes.take(i as int);
            i -= 1;
            assert(scopes[i as int] == self.drop_scopes@[i as int]@);
            assert(rest.last() == scopes[i as int]);
            assert(rest.drop_last() =~= scopes.take(i as int));
            let ghost before = names@;
            let mut declared = reversed(&self.drop_scopes[i].names);
            names.append(&mut declared);
            done = self.drop_scopes[i].kind == boundary;
            if done {
                assert(unwound(scopes, boundary) =~= names@);
            } else {
                assert(unwound(scopes, boundary) =~= names@ + unwound(
                    scopes.take(i as int),
                    boundary,
                ));
            }
        }
        assert(unwound(scopes, boundary) =~= names@);
        names
    }

    fn names_in_scopes(&self) -> (names: Vec<NameId>)
        ensures
            names@ == declared_in(self@.drop_scopes),
    {
        let ghost scopes = self@.drop_scopes;
        let mut names: Vec<NameId> = Vec::new();
        let mut i: usize = self.drop_scopes.len();
        assert(scopes.take(i as int) =~= scopes);
        while i > 0
            invariant
                i <= self.drop_scopes.len(),
                scopes == self@.drop_scopes,
                declared_in(scopes) == names@ + declared_in(scopes.take(i as int)),
            decreases i,
        {
            let ghost rest = scopes.take(i as int);
            i -= 1;
            assert(scopes[i as int] == self.drop_scopes@[i as int]@);
            assert(rest.last() == scopes[i as int]);
            assert(rest.drop_last() =~= scopes.take(i as int));
            let mut declared = reversed(&self.drop_scopes[i].names);
            names.append(&mut declared);
            assert(declared_in(scopes) =~= names@ + declared_in(scopes.take(i as int)));
        }
        assert(declared_in(scopes) =~= names@);
        names
    }

    /// Note the bindings of a pattern as owned locals of the innermost scope. A binding that is a
    /// part of another place owns nothing, and neither does a discarded one.
    pub fn register_drop_locals(&mut self, pattern: PatternId)
        ensures
            final(self)@ == old(self)@.locals_registered(pattern),
    {
        let count: usize = self.drop_scopes.len();
        if !self.drop_elaboration_active() || count == 0 {
            return ;
        }
        let bound = self.collect_pattern_binding_names(pattern);
        let names = self.find_owners(&bound);
        let locals: usize = self.function_local_names.len();
        if locals > 0 {
            let mut more = copy_ids(&names);
            self.function_local_names[locals - 1].append(&mut more);
            assert(self@.function_local_names =~= old(self)@.function_local_names.update(
                locals - 1,
                old(self)@.function_local_names.last() + names@,
            ));
        }
        let ghost before = self@.drop_scopes;
        assert(before.last() == self.drop_scopes@[count - 1]@);
        push_all_new(&mut self.drop_scopes[count - 1].names, &names);
        assert(self@.drop_scopes =~= before.update(
            count - 1,
            ScopeState {
                kind: before.last().kind,
                names: with_all_new(before.last().names, names@, names@.len() as int),
            },
        ));
    }

    /// The names a pattern binds, each once.
    pub fn collect_pattern_binding_names(&self, pattern: PatternId) -> (names: Vec<NameId>)
        ensures
            names@ == self@.bound_names(pattern),
    {
        let mut names: Vec<NameId> = Vec::new();
        self.context.bind_names(&mut names, pattern, NESTING_LIMIT);
        names
    }

    fn find_owners(&self, names: &Vec<NameId>) -> (owners: Vec<NameId>)
        ensures
            owners@ == self@.owners(names@, names@.len() as int),
    {
        let wildcard = "_".to_owned();
        let mut owners: Vec<NameId> = Vec::new();
        let mut i: usize = 0;
        while i < names.len()
            invariant
                i <= names.len(),
                wildcard@ == "_"@,
                owners@ == self@.owners(names@, i as int),
            decreases names.len() - i,
        {
            let text = self.context.name(names[i]);
            if map_get(&self.binding_places, names[i]).is_none() && text != wildcard {
                owners.push(names[i]);
            }
            i += 1;
        }
        owners
    }

    /// Make the drops of those of `names` that are still owned.
    fn synthesize_drops(&mut self, names: &Vec<NameId>, location: Location) -> (drops: Vec<ExprId>)
        ensures
            (drops@, final(self)@) == old(self)@.owned_drops(
                names@,
                names@.len() as int,
                location,
            ),
    {
        let mut drops: Vec<ExprId> = Vec::new();
        let mut i: usize = 0;
        while i < names.len()
            invariant
                i <= names.len(),
                (drops@, self@) == old(self)@.owned_drops(names@, i as int, location),
            decreases names.len() - i,
        {
            let known = match map_get(&self.name_types, names[i]) {
                Some(typ) => Some(typ.clone()),
                None => None,
            };
            match known {
                Some(typ) => {
                    if !set_contains(&self.captured_names, names[i]) {
                        let tracker = self.move_tracker.clone();
                        match self.synthesize_partial_drop(
                            &MovePath::Variable(names[i]),
                            &typ,
                            &tracker,
                            location,
                        ) {
                            Some(drop) => {
                                drops.push(drop);
                            },
                            None => {},
                        }
                    }
                },
                None => {},
            }
            i += 1;
        }
        drops
    }

    /// Make the drops of what `tracker` leaves of `names`.
    fn synthesize_edge_drops(
        &mut self,
        names: &Vec<NameId>,
        tracker: &MoveTracker,
        location: Location,
    ) -> (drops: Vec<ExprId>)
        ensures
            (drops@, final(self)@) == old(self)@.edge_drops(
                names@,
                names@.len() as int,
                tracker@,
                location,
            ),
    {
        let mut drops: Vec<ExprId> = Vec::new();
        let mut i: usize = 0;
        while i < names.len()
            invariant
                i <= names.len(),
                (drops@, self@) == old(self)@.edge_drops(names@, i as int, tracker@, location),
            decreases names.len() - i,
        {
            let known = match map_get(&self.name_types, names[i]) {
                Some(typ) => Some(typ.clone()),
                None => None,
            };
            match known {
                Some(typ) => match self.synthesize_partial_drop(
                    &MovePath::Variable(names[i]),
                    &typ,
                    tracker,
                    location,
                ) {
                    Some(drop) => {
                        drops.push(drop);
                    },
                    None => {},
                },
                None => {},
            }
            i += 1;
        }
        drops
    }

    /// Where branches meet, drop at the end of each of them what another one moved and it still
    /// owns. Behind that point it counts as moved, whichever branch ran.
    pub fn equalize_branch_drops(
        &mut self,
        pre_branch: &MoveTracker,
        edges: &Vec<(ExprId, MoveTracker)>,
    )
        ensures
            final(self)@ == old(self)@.branches_equalized(pre_branch@, edges@),
    {
        if !self.drop_elaboration_active() || edges.len() == 0 {
            return ;
        }
        let candidates = self.branch_move_candidates(pre_branch, edges);
        if candidates.len() == 0 {
            return ;
        }
        let mut i: usize = 0;
        while i < edges.len()
            invariant
                i <= edges.len(),
                self@ == old(self)@.edges_equalized(candidates@, edges@, i as int),
            decreases edges.len() - i,
        {
            let expr = edges[i].0;
            let location = self.context.expr_location(expr);
            let drops = self.synthesize_edge_drops(&candidates, &edges[i].1, location);
            if drops.len() > 0 {
                self.context.push_post_expr_drops(expr, drops);
            }
            i += 1;
        }
    }

    /// The drops of the edge an `if` without `else` takes where its condition fails: of what its
    /// branch moved. No expression stands for that edge.
    pub fn implicit_else_edge_drops(
        &mut self,
        pre_branch: &MoveTracker,
        then_moves: MoveTracker,
        location: Location,
    ) -> (drops: Vec<ExprId>)
        ensures
            (drops@, final(self)@) == old(self)@.implicit_else_drops(
                pre_branch@,
                then_moves@,
                location,
            ),
    {
        if !self.drop_elaboration_active() {
            return Vec::new();
        }
        let mut edges: Vec<(ExprId, MoveTracker)> = Vec::new();
        let ghost branch = then_moves@;
        edges.push((0, then_moves));
        assert(edge_moves(edges@) =~= seq![branch]);
        let candidates = self.branch_move_candidates(pre_branch, &edges);
        self.synthesize_edge_drops(&candidates, pre_branch, location)
    }

    fn is_moved_in_some(
        name: NameId,
        pre_branch: &MoveTracker,
        edges: &Vec<(ExprId, MoveTracker)>,
    ) -> (moved: bool)
        ensures
            moved == moved_in_some(name, pre_branch@, edge_moves(edges@)),
    {
        if pre_branch.is_moved(&MovePath::Variable(name)).is_some() {
            return false;
        }
        let mut i: usize = 0;
        while i < edges.len()
            invariant
                i <= edges.len(),
                pre_branch@.moved_at((name, Seq::empty())) is None,
                forall|j: int|
                    0 <= j < i ==> !(#[trigger] edge_moves(edges@)[j]).whole().contains(name),
            decreases edges.len() - i,
        {
            assert(edge_moves(edges@)[i as int] == edges@[i as int].1@);
            let place = MovePath::Variable(name);
            assert(place@ == (name, Seq::<Seq<char>>::empty()));
            if edges[i].1.save_move(&place).is_some() {
                assert(edge_moves(edges@)[i as int].whole().contains(name));
                return true;
            }
            i += 1;
        }
        false
    }

    /// The owned locals that some branch moved and that were not moved before the branches, in
    /// the order they are dropped in. What a closure captured is not owned by it.
    fn branch_move_candidates(
        &self,
        pre_branch: &MoveTracker,
        edges: &Vec<(ExprId, MoveTracker)>,
    ) -> (candidates: Vec<NameId>)
        ensures
            candidates@ == self@.branch_candidates(pre_branch@, edge_moves(edges@)),
    {
        let names = self.names_in_scopes();
        let mut candidates: Vec<NameId> = Vec::new();
        let mut i: usize = 0;
        while i < names.len()
            invariant
                i <= names.len(),
                candidates@ == self@.moved_locals(
                    names@,
                    i as int,
                    pre_branch@,
                    edge_moves(edges@),
                ),
            decreases names.len() - i,
        {
            if Self::is_moved_in_some(names[i], pre_branch, edges)
                && self.name_is_local_to_current_function(names[i]) {
                candidates.push(names[i]);
            }
            i += 1;
        }
        candidates
    }

    /// Drop the old value that the assignment at `id` overwrites, once the new one is there.
    /// Stores through references and pointers drop nothing.
    pub fn assignment_overwrite_drop(&mut self, assignment: &Assignment, id: ExprId)
        ensures
            final(self)@ == old(self)@.overwritten_dropped(*assignment, id),
    {
        if !self.drop_elaboration_active() {
            return ;
        }
        let place = match self.try_build_move_path(assignment.lhs) {
            Some(place) => place,
            None => {
                return ;
            },
        };
        let root = place.root_variable();
        if !self.name_is_local_to_current_function(root) && !(self.in_handler_scoped_lambda
            && self.name_is_local_to_any_enclosing_function(root)) {
            return ;
        }
        if map_get(&self.name_types, root).is_none() || self.name_is_reference_typed(root) {
            return ;
        }
        let typ = match self.type_of_expr(assignment.lhs) {
            Some(typ) => typ,
            None => {
                return ;
            },
        };
        let location = self.context.expr_location(assignment.lhs);
        let tracker = self.move_tracker.clone();
        // Another structure often owns what a place of a generic type holds.
        let outer = self.suppress_missing_drop_diagnostic;
        self.suppress_missing_drop_diagnostic = true;
        let drop = self.synthesize_partial_drop(&place, &typ, &tracker, location);
        self.suppress_missing_drop_diagnostic = outer;
        match drop {
            Some(drop) => {
                let mut drops: Vec<ExprId> = Vec::new();
                drops.push(drop);
                assert(drops@ =~= seq![drop]);
                self.context.push_pre_exit_drops(id, drops);
            },
            None => {},
        }
    }

    /// Drop the value of a statement that nothing uses, at the end of the statement. What the
    /// statement was is kept under a new id.
    pub fn drop_discarded_statement_value(&mut self, item: ExprId, typ: &Type)
        ensures
            final(self)@ == old(self)@.statement_value_dropped(item, *typ),
    {
        let typ = self.follow_type(typ).clone();
        if !self.drop_elaboration_active() || self.diverges(&typ) {
            return ;
        }
        match &typ {
            Type::Primitive(PrimitiveType::Error) => {
                return ;
            },
            _ => {},
        }
        if !self.type_is_concrete(&typ) || self.type_is_copy(&typ) {
            return ;
        }
        let location = self.context.expr_location(item);
        let name = self.fresh_variable("drop_tmp", &typ, location);
        match self.try_synthesize_drop_for_place(&MovePath::Variable(name), &typ, location) {
            Some(drop) => {
                self.wrap_statement(item, name, &typ, location, drop);
            },
            None => {},
        }
    }

    fn wrap_statement(
        &mut self,
        item: ExprId,
        name: NameId,
        typ: &Type,
        location: Location,
        drop: ExprId,
    )
        ensures
            final(self)@ == old(self)@.statement_wrapped(item, name, *typ, location, drop),
    {
        let content = self.context.replace_expr(item, Expr::Error);
        let copied = self.push_expr(content, typ.clone(), location);
        self.context.copy_expr_metadata(item, copied);
        self.context.clear_expr_drops(item);
        let definition = self.let_binding(name, copied);
        let mut items: Vec<ExprId> = Vec::new();
        items.push(definition);
        items.push(drop);
        assert(items@ =~= seq![definition, drop]);
        self.context.replace_expr(item, Expr::Sequence(items));
        map_insert(&mut self.expr_types, item, Type::Primitive(PrimitiveType::Unit));
        assert(self@.context.exprs =~= old(self)@.statement_wrapped(
            item,
            name,
            *typ,
            location,
            drop,
        ).context.exprs);
    }

    fn some_may_suspend(&self, parameters: &Vec<Parameter>, types: &Vec<Type>) -> (some: bool)
        requires
            parameters@.len() == types@.len(),
        ensures
            some == exists|i: int|
                0 <= i < parameters@.len() && self@.may_suspend(
                    #[trigger] parameters@[i],
                    types@[i],
                ),
    {
        let mut i: usize = 0;
        while i < parameters.len()
            invariant
                i <= parameters.len(),
                parameters@.len() == types@.len(),
                forall|j: int|
                    0 <= j < i ==> !self@.may_suspend(#[trigger] parameters@[j], types@[j]),
            decreases parameters.len() - i,
        {
            if !parameters[i].is_implicit {
                let typ = self.follow_type(&types[i]);
                let is_function = match typ {
                    Type::Function(_) => true,
                    _ => false,
                };
                if is_function || self.is_ability(typ) {
                    assert(self@.may_suspend(parameters@[i as int], types@[i as int]));
                    return true;
                }
            }
            i += 1;
        }
        false
    }

    fn borrowing_name(&self, parameter: &Parameter, typ: &Type, body: ExprId) -> (name: Option<
        NameId,
    >)
        ensures
            name == self@.borrowing_name(*parameter, *typ, body),
    {
        if parameter.is_mutable || !self.is_shared_user_defined(self.follow_type(typ)) {
            return None;
        }
        match self.single_variable_pattern(parameter.pattern) {
            Some(name) => {
                if self.param_escapes_in_body(body, name) {
                    None
                } else {
                    Some(name)
                }
            },
            None => None,
        }
    }

    /// Note which explicit parameters of the function `fn_name` borrow: the function does not
    /// release them, and its callers need not retain them. That takes a look at its body only as
    /// it is written. None borrows if a parameter can be called: such a call may suspend.
    pub fn compute_borrowed_param_mask(
        &mut self,
        fn_name: NameId,
        parameters: &Vec<Parameter>,
        body: ExprId,
        expected: &Type,
    )
        ensures
            final(self)@ == old(self)@.borrowed_params_recorded(
                fn_name,
                parameters@,
                body,
                *expected,
            ),
    {
        if !self.drop_elaboration_active() {
            return ;
        }
        let types: Vec<Type> = match self.follow_type(expected) {
            Type::Function(function) => function.parameters.list_types(),
            _ => {
                return ;
            },
        };
        if types.len() != parameters.len() || self.some_may_suspend(parameters, &types) {
            return ;
        }
        let ghost before = self@;
        let mut mask: Vec<bool> = Vec::new();
        let mut any = false;
        let mut i: usize = 0;
        while i < parameters.len()
            invariant
                i <= parameters.len(),
                parameters@.len() == types@.len(),
                (mask@, self@) == before.borrow_mask(parameters@, types@, body, i as int),
                self@.current_item == before.current_item,
                any == mask@.contains(true),
            decreases parameters.len() - i,
        {
            if !parameters[i].is_implicit {
                let ghost flags = mask@;
                match self.borrowing_name(&parameters[i], &types[i], body) {
                    Some(name) => {
                        set_insert(&mut self.borrowed_local_params, name);
                        mask.push(true);
                        any = true;
                        assert(mask@[flags.len() as int] == true);
                    },
                    None => {
                        mask.push(false);
                        assert(mask@.contains(true) == flags.contains(true)) by {
                            if flags.contains(true) {
                                let j = choose|j: int| 0 <= j < flags.len() && flags[j] == true;
                                assert(mask@[j] == true);
                            }
                        }
                    },
                }
            }
            i += 1;
        }
        if any {
            match self.current_item {
                Some(item) => {
                    put_mask(&mut self.borrowed_param_masks, item, fn_name, mask);
                },
                None => {},
            }
        }
    }

    fn escapes_in(&self, expr: ExprId, name: NameId, depth: u64) -> (escapes: bool)
        ensures
            escapes == self@.escapes_in(expr, name, depth as nat),
        decreases depth,
    {
        if depth == 0 {
            return true;
        }
        let form = self.context.expr(expr);
        match form {
            Expr::Lambda { .. } => {
                return self.lambda_captures_name(expr, name);
            },
            Expr::Sugar => {
                return true;
            },
            _ => {},
        }
        let children = form.children();
        let mut escapes = false;
        let mut i: usize = 0;
        while i < children.len()
            invariant
                i <= children.len(),
                depth > 0,
                escapes == self@.escapes_in_some(
                    children@,
                    i as int,
                    name,
                    (depth - 1) as nat,
                ),
            decreases children.len() - i,
        {
            escapes = escapes || self.escapes_in(children[i], name, depth - 1);
            i += 1;
        }
        escapes
    }

    /// Whether a lambda in the body captures the parameter `name`. A returned handle is retained
    /// where it leaves the function, so that returning one is no escape.
    pub fn param_escapes_in_body(&self, body: ExprId, name: NameId) -> (escapes: bool)
        ensures
            escapes == self@.escapes_in(body, name, NESTING_LIMIT as nat),
    {
        self.escapes_in(body, name, NESTING_LIMIT)
    }

    /// The variable a definition binds, if it only aliases an immutable local: that outlives the
    /// alias, which needs neither a retain nor a release.
    pub fn try_borrowed_alias_binding(&self, definition: &Definition) -> (name: Option<NameId>)
        ensures
            name == self@.borrowed_alias(*definition),
    {
        if definition.mutable || !self.drop_elaboration_active() {
            return None;
        }
        let bound = match self.context.pattern(definition.pattern) {
            Pattern::Variable(name) => *name,
            _ => {
                return None;
            },
        };
        let source = match self.context.expr(definition.rhs) {
            Expr::Variable(path) => match self.context.local(*path) {
                Some(source) => source,
                None => {
                    return None;
                },
            },
            _ => {
                return None;
            },
        };
        if set_contains(&self.mutable_definitions, source) {
            return None;
        }
        Some(bound)
    }

    /// Bind the value that an argument of a call refers to, so that it is dropped behind the call.
    /// A place has an owner already, and is left as it is.
    pub fn bind_autoref_temp_for_drop(
        &mut self,
        rhs: ExprId,
        element_type: &Type,
        location: Location,
    ) -> (id: ExprId)
        ensures
            (id, final(self)@) == old(self)@.autoref_temp_bound(rhs, *element_type, location),
    {
        if self.call_argument_depth == 0 || !self.drop_elaboration_active() {
            return rhs;
        }
        if self.try_build_move_path(rhs).is_some() {
            return rhs;
        }
        let typ = self.follow_type(element_type).clone();
        match &typ {
            Type::Primitive(PrimitiveType::Error) => {
                return rhs;
            },
            _ => {},
        }
        if !self.type_is_concrete(&typ) {
            return rhs;
        }
        let name = self.fresh_variable("autoref_tmp", &typ, location);
        let place = MovePath::Variable(name);
        let drop = match self.try_synthesize_drop_for_place(&place, &typ, location) {
            Some(drop) => drop,
            None => {
                return rhs;
            },
        };
        let body = self.synthesize_place_expr(&place, &typ, location);
        let definition = self.let_binding(name, rhs);
        let mut items: Vec<ExprId> = Vec::new();
        items.push(definition);
        items.push(body);
        assert(items@ =~= seq![definition, body]);
        let block = self.push_expr(Expr::Sequence(items), typ, location);
        self.pending_autoref_temp_drops.push(drop);
        block
    }

    /// Let the death of a closure release nothing of what it captured, if the expression uses it
    /// as a value: a copy of the closure may outlive it.
    pub fn retract_escaping_closure_env_releases(&mut self, expr: ExprId)
        ensures
            final(self)@ == old(self)@.escaping_closures_retracted(expr),
    {
        if self.drop_elaboration_active() {
            self.scan_closure_escapes(expr, NESTING_LIMIT);
        }
    }

    fn retract_escaped_closures(&mut self, names: &Vec<NameId>)
        ensures
            final(self)@ == old(self)@.captures_retracted(names@.to_set()),
    {
        let ghost before = lists(self.shared_closure_captures@);
        assert(before =~= before.remove_keys(names@.take(0).to_set()));
        let mut i: usize = 0;
        while i < names.len()
            invariant
                i <= names.len(),
                lists(self.shared_closure_captures@) == before.remove_keys(
                    names@.take(i as int).to_set(),
                ),
                self@ == (State {
                    shared_closure_captures: lists(self.shared_closure_captures@),
                    ..old(self)@
                }),
            decreases names.len() - i,
        {
            let ghost held = lists(self.shared_closure_captures@);
            map_remove(&mut self.shared_closure_captures, names[i]);
            assert(lists(self.shared_closure_captures@) =~= held.remove(names@[i as int]));
            let ghost taken = names@.take(i as int);
            assert(names@.take(i + 1) =~= taken.push(names@[i as int]));
            assert(names@.take(i + 1).to_set() =~= taken.to_set().insert(names@[i as int])) by {
                broadcast use vstd::seq_lib::group_seq_properties;
            }
            assert(held.remove(names@[i as int]) =~= before.remove_keys(
                names@.take(i + 1).to_set(),
            ));
            i += 1;
        }
        assert(names@.take(i as int) =~= names@);
    }

    fn scan_closure_escapes(&mut self, expr: ExprId, depth: u64)
        ensures
            final(self)@ == old(self)@.escapes_scanned(expr, depth as nat),
        decreases depth, 0nat,
    {
        if depth == 0 {
            return ;
        }
        let ghost form = self@.context.expr(expr);
        let children: Vec<ExprId> = match self.context.expr(expr) {
            Expr::Variable(path) => {
                match self.context.local(*path) {
                    Some(name) => {
                        let mut names: Vec<NameId> = Vec::new();
                        names.push(name);
                        assert(names@.to_set() =~= set![name]) by {
                            broadcast use vstd::seq_lib::group_seq_properties;
                            assert(names@ =~= Seq::<NameId>::empty().push(name));
                        }
                        self.retract_escaped_closures(&names);
                    },
                    None => {},
                }
                return ;
            },
            Expr::Lambda { .. } => {
                // What a nested lambda captures is copied into its environment.
                let names = free_variables_of(&self.context, expr, None);
                self.retract_escaped_closures(&names);
                return ;
            },
            Expr::Call { function, arguments } => {
                let mut exprs: Vec<ExprId> = Vec::new();
                let mut i: usize = 0;
                while i < arguments.len()
                    invariant
                        i <= arguments.len(),
                        exprs@ == arguments@.take(i as int).map_values(
                            |argument: Argument| argument.expr,
                        ),
                    decreases arguments.len() - i,
                {
                    exprs.push(arguments[i].expr);
                    assert(arguments@.take(i + 1) =~= arguments@.take(i as int).push(
                        arguments@[i as int],
                    ));
                    assert(exprs@ =~= arguments@.take(i + 1).map_values(
                        |argument: Argument| argument.expr,
                    ));
                    i += 1;
                }
                assert(arguments@.take(i as int) =~= arguments@);
                let function = *function;
                match self.context.expr(function) {
                    Expr::Variable(_) => {},
                    _ => {
                        self.scan_closure_escapes(function, depth - 1);
                    },
                }
                exprs
            },
            form => form.children(),
        };
        self.scan_all_closure_escapes(&children, depth - 1);
    }

    fn scan_all_closure_escapes(&mut self, exprs: &Vec<ExprId>, depth: u64)
        ensures
            final(self)@ == old(self)@.all_escapes_scanned(
                exprs@,
                exprs@.len() as int,
                depth as nat,
            ),
        decreases depth, 1nat,
    {
        let mut i: usize = 0;
        while i < exprs.len()
            invariant
                i <= exprs.len(),
                self@ == old(self)@.all_escapes_scanned(exprs@, i as int, depth as nat),
            decreases exprs.len() - i,
        {
            self.scan_closure_escapes(exprs[i], depth);
            i += 1;
        }
    }

    fn retain_tail(&mut self, expr: ExprId, depth: u64)
        ensures
            final(self)@ == old(self)@.tail_retained(expr, depth as nat),
        decreases depth, 0nat,
    {
        if depth == 0 || !self.drop_elaboration_active() {
            return ;
        }
        match self.context.expr(expr) {
            Expr::Variable(_) => {
                self.retain_place(expr);
            },
            Expr::MemberAccess { .. } => {
                self.retain_place(expr);
            },
            Expr::Sequence(items) => {
                let count: usize = items.len();
                if count > 0 {
                    let last = items[count - 1];
                    self.retain_tail(last, depth - 1);
                }
            },
            Expr::If { then_expr, else_expr, .. } => {
                let then_expr = *then_expr;
                let else_expr = *else_expr;
                self.retain_tail(then_expr, depth - 1);
                match else_expr {
                    Some(else_expr) => {
                        self.retain_tail(else_expr, depth - 1);
                    },
                    None => {},
                }
            },
            Expr::Match { cases, .. } => {
                let mut copies: Vec<(PatternId, ExprId)> = Vec::new();
                let mut i: usize = 0;
                while i < cases.len()
                    invariant
                        i <= cases.len(),
                        copies@ == cases@.take(i as int),
                    decreases cases.len() - i,
                {
                    copies.push((cases[i].0, cases[i].1));
                    assert(copies@ =~= cases@.take(i + 1));
                    i += 1;
                }
                assert(cases@.take(i as int) =~= cases@);
                self.retain_tails(&copies, depth - 1);
            },
            Expr::TypeAnnotation { lhs } => {
                let lhs = *lhs;
                self.retain_tail(lhs, depth - 1);
            },
            _ => {},
        }
    }

    fn retain_place(&mut self, expr: ExprId)
        ensures
            final(self)@ == (if old(self)@.is_counted(expr) {
                State { context: old(self)@.context.with_escape_retain(expr), ..old(self)@ }
            } else {
                old(self)@
            }),
    {
        let counted = match self.type_of_expr(expr) {
            Some(typ) => self.is_shared_user_defined(&typ) || self.is_heap_env_closure(&typ),
            None => false,
        };
        if counted {
            self.context.mark_escape_retain(expr);
        }
    }

    fn retain_tails(&mut self, cases: &Vec<(PatternId, ExprId)>, depth: u64)
        ensures
            final(self)@ == old(self)@.tails_retained(cases@, cases@.len() as int, depth as nat),
        decreases depth, 1nat,
    {
        let mut i: usize = 0;
        while i < cases.len()
            invariant
                i <= cases.len(),
                self@ == old(self)@.tails_retained(cases@, i as int, depth as nat),
            decreases cases.len() - i,
        {
            self.retain_tail(cases[i].1, depth);
            i += 1;
        }
    }

    /// Retain the handles to counted cells that the value of the expression may be a place of.
    /// What a call or a constructor returns is a handle of its own already.
    pub fn mark_tail_escape_retains(&mut self, expr: ExprId)
        ensures
            final(self)@ == old(self)@.tail_retained(expr, NESTING_LIMIT as nat),
    {
        self.retain_tail(expr, NESTING_LIMIT);
    }

    /// Reject a returned value with a reference into what this function frees.
    pub fn check_reference_escape(&mut self, returned: ExprId)
        ensures
            final(self)@ == (if old(self)@.elaborates_drops() {
                old(self)@.escapes_checked(returned)
            } else {
                old(self)@
            }),
    {
        if self.drop_elaboration_active() {
            self.reject_escaping_origins(returned);
        }
    }

    /// Reject a `Drop` impl for a shared type. Handles are `Copy`, and no point runs the impl.
    pub fn reject_shared_drop_impl(&mut self, impl_type: &Type, pattern: PatternId)
        ensures
            final(self)@ == old(self)@.shared_drop_impl_rejected(*impl_type, pattern),
    {
        if !self.facts.database.auto_drop {
            return ;
        }
        let drop_type = self.get_drop_type_name();
        let mut typ = self.follow_type(impl_type);
        match typ {
            Type::Function(function) => {
                typ = self.follow_type(&function.return_type);
            },
            _ => {},
        }
        let rejected = match typ {
            Type::Application(constructor, args) => {
                let is_drop = match self.follow_type(constructor) {
                    Type::UserDefined(Origin::TopLevelDefinition(name)) => *name == drop_type,
                    _ => false,
                };
                match args.first() {
                    Some(arg) => is_drop && self.is_shared_user_defined(arg),
                    None => false,
                }
            },
            _ => false,
        };
        if rejected {
            let location = self.context.pattern_location(pattern);
            self.report(Diagnostic::DropImplForSharedType { location });
        }
    }

    /// The type of the release function of the type that `item` defines. It is no item of its own,
    /// and its calls are typed like those of any generic function.
    pub fn release_function_generalized_type(&self, item: TopLevelId) -> (typ: Type)
        ensures
            typ == self@.release_type(item),
    {
        let definition = match self.facts.database.get_type_definition(item) {
            Some(definition) => definition,
            None => {
                return Type::Primitive(PrimitiveType::Error);
            },
        };
        let name = TopLevelName::new(item, definition.name);
        let constructor = Type::UserDefined(Origin::TopLevelDefinition(name));
        let generics = &definition.generics;
        let data_type = if generics.len() == 0 {
            constructor
        } else {
            let mut types: Vec<Type> = Vec::new();
            let mut i: usize = 0;
            while i < generics.len()
                invariant
                    i <= generics.len(),
                    types@ == generics@.take(i as int).map_values(
                        |name: NameId| Type::Generic(Generic::Named(Origin::Local(name))),
                    ),
                decreases generics.len() - i,
            {
                types.push(Type::Generic(Generic::Named(Origin::Local(generics[i]))));
                assert(generics@.take(i + 1) =~= generics@.take(i as int).push(
                    generics@[i as int],
                ));
                assert(types@ =~= generics@.take(i + 1).map_values(
                    |name: NameId| Type::Generic(Generic::Named(Origin::Local(name))),
                ));
                i += 1;
            }
            assert(generics@.take(i as int) =~= generics@);
            Type::Application(Box::new(constructor), Box::new(TypeList::from_vec(&types)))
        };
        let function = Type::Function(
            Box::new(
                FunctionType {
                    parameters: Parameters::Cons(
                        false,
                        Box::new(data_type),
                        Box::new(Parameters::Nil),
                    ),
                    environment: Type::Primitive(PrimitiveType::NoClosureEnv),
                    return_type: Type::Primitive(PrimitiveType::Unit),
                    effects: Type::Effects(Box::new(TypeList::Nil), None),
                },
            ),
        );
        if generics.len() == 0 {
            function
        } else {
            Type::Forall(Generics::from_names(generics), Box::new(function))
        }
    }
}

} // verus!

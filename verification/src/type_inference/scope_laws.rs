//! What holds of where values leave a scope, and of what is dropped where they stay.

#[allow(unused_imports)]
use crate::cst::{Argument, Assignment, ContextState, Definition, ExprForm, Parameter, PatternForm};
#[allow(unused_imports)]
use crate::ids::{ExprId, Location, NameId, Origin, PatternId, NESTING_LIMIT};
#[allow(unused_imports)]
use crate::type_inference::checker::{DropScopeKind, ScopeState, State};
#[allow(unused_imports)]
use crate::type_inference::drop_elaboration::unwound;
#[allow(unused_imports)]
use crate::types::{PrimitiveType, Type};
use vstd::prelude::*;

verus! {

impl ContextState {
    /// The expressions directly inside an expression are those that stand in it, at their places.
    pub proof fn law_children_stand_inside(self, whole: ExprId, index: int, child: ExprId)
        ensures
            ({
                let children = self.expr(whole).children();
                self.has_child(whole, index, child) <==> 0 <= index < children.len()
                    && children[index] == child
            }),
    {
    }

    /// Something in the expression may keep `name`, as far as `depth` levels show: a lambda that
    /// uses it, or something that is not written in other terms yet.
    pub open spec fn may_be_kept(self, expr: ExprId, name: NameId, depth: nat) -> bool
        decreases depth,
    {
        if depth == 0 {
            true
        } else {
            match self.expr(expr) {
                ExprForm::Lambda { .. } => self.is_used_free(expr, name, NESTING_LIMIT as nat),
                ExprForm::Sugar => true,
                _ => exists|i: int, child: ExprId| #[trigger]
                    self.has_child(expr, i, child) && self.may_be_kept(
                        child,
                        name,
                        (depth - 1) as nat,
                    ),
            }
        }
    }

    /// The value of the expression may be that of `tail`, a variable or a member.
    pub open spec fn has_tail(self, expr: ExprId, tail: ExprId, depth: nat) -> bool
        decreases depth,
    {
        depth > 0 && match self.expr(expr) {
            ExprForm::Variable(_) | ExprForm::MemberAccess { .. } => tail == expr,
            ExprForm::Sequence(items) => items.len() > 0 && self.has_tail(
                items[items.len() - 1],
                tail,
                (depth - 1) as nat,
            ),
            ExprForm::If { then_expr, else_expr, .. } => self.has_tail(
                then_expr,
                tail,
                (depth - 1) as nat,
            ) || (else_expr is Some && self.has_tail(else_expr->0, tail, (depth - 1) as nat)),
            ExprForm::Match { cases, .. } => exists|i: int|
                0 <= i < cases.len() && self.has_tail(
                    (#[trigger] cases[i]).1,
                    tail,
                    (depth - 1) as nat,
                ),
            ExprForm::TypeAnnotation { lhs } => self.has_tail(lhs, tail, (depth - 1) as nat),
            _ => false,
        }
    }

    /// The variable is used as a value in the expression: it is written there other than to be
    /// called, or a lambda there uses it.
    pub open spec fn is_used_as_value(self, expr: ExprId, name: NameId, depth: nat) -> bool
        decreases depth,
    {
        depth > 0 && match self.expr(expr) {
            ExprForm::Variable(path) => self.path_origin(path) == Some(Origin::Local(name)),
            ExprForm::Lambda { .. } => self.is_used_free(expr, name, NESTING_LIMIT as nat),
            ExprForm::Call { function, arguments } => {
                ||| !(self.expr(function) is Variable) && self.is_used_as_value(
                    function,
                    name,
                    (depth - 1) as nat,
                )
                ||| exists|i: int|
                    0 <= i < arguments.len() && self.is_used_as_value(
                        (#[trigger] arguments[i]).expr,
                        name,
                        (depth - 1) as nat,
                    )
            },
            _ => exists|i: int, child: ExprId| #[trigger]
                self.has_child(expr, i, child) && self.is_used_as_value(
                    child,
                    name,
                    (depth - 1) as nat,
                ),
        }
    }
}

impl State {
    proof fn some_escape(self, exprs: Seq<ExprId>, count: int, name: NameId, depth: nat)
        requires
            count <= exprs.len(),
        ensures
            self.escapes_in_some(exprs, count, name, depth) <==> exists|i: int|
                0 <= i < count && self.escapes_in(#[trigger] exprs[i], name, depth),
        decreases count,
    {
        if count > 0 {
            self.some_escape(exprs, count - 1, name, depth);
            assert(exprs[count - 1] == exprs[count - 1]);
            if self.escapes_in(exprs[count - 1], name, depth) {
                assert(self.escapes_in_some(exprs, count, name, depth));
            }
        }
    }

    /// A variable is said to escape in an expression if and only if something there may keep it.
    pub proof fn law_what_may_be_kept_escapes(self, expr: ExprId, name: NameId, depth: nat)
        ensures
            self.escapes_in(expr, name, depth) <==> self.context.may_be_kept(expr, name, depth),
        decreases depth,
    {
        if depth > 0 {
            let inner = (depth - 1) as nat;
            match self.context.expr(expr) {
                ExprForm::Lambda { .. } => {
                    self.context.law_free_names_are_used_and_not_bound(expr, Set::empty(), name);
                },
                ExprForm::Sugar => {},
                form => {
                    let children = form.children();
                    self.some_escape(children, children.len() as int, name, inner);
                    assert forall|i: int| 0 <= i < children.len() implies self.escapes_in(
                        #[trigger] children[i],
                        name,
                        inner,
                    ) == self.context.may_be_kept(children[i], name, inner) by {
                        self.law_what_may_be_kept_escapes(children[i], name, inner);
                    }
                    if self.escapes_in(expr, name, depth) {
                        let i = choose|i: int|
                            0 <= i < children.len() && self.escapes_in(
                                #[trigger] children[i],
                                name,
                                inner,
                            );
                        self.context.law_children_stand_inside(expr, i, children[i]);
                        assert(self.context.has_child(expr, i, children[i]));
                    }
                    if self.context.may_be_kept(expr, name, depth) {
                        let (i, child) = choose|i: int, child: ExprId| #[trigger]
                            self.context.has_child(expr, i, child) && self.context.may_be_kept(
                                child,
                                name,
                                inner,
                            );
                        self.context.law_children_stand_inside(expr, i, child);
                        assert(self.escapes_in(children[i], name, inner));
                    }
                },
            }
        }
    }

    /// Apart from what is retained where it leaves, this is `before`.
    pub open spec fn only_retains(self, before: State) -> bool {
        self == (State {
            context: ContextState {
                escape_retains: self.context.escape_retains,
                ..before.context
            },
            ..before
        })
    }

    /// Where handles are dropped automatically, the value of a tail is retained if and only if it is
    /// a counted handle. Nothing else is, and nothing else changes.
    pub proof fn law_a_tail_is_retained(self, expr: ExprId, tail: ExprId, depth: nat)
        requires
            self.elaborates_drops(),
        ensures
            ({
                let after = self.tail_retained(expr, depth);
                &&& after.only_retains(self)
                &&& after.context.escape_retains.contains(tail)
                    <==> self.context.escape_retains.contains(tail) || (self.context.has_tail(
                    expr,
                    tail,
                    depth,
                ) && self.is_counted(tail))
            }),
        decreases depth, 0nat, 0int,
    {
        if depth > 0 {
            let inner = (depth - 1) as nat;
            match self.context.expr(expr) {
                ExprForm::Sequence(items) => {
                    if items.len() > 0 {
                        self.law_a_tail_is_retained(items.last(), tail, inner);
                    }
                },
                ExprForm::If { then_expr, else_expr, .. } => {
                    self.law_a_tail_is_retained(then_expr, tail, inner);
                    let retained = self.tail_retained(then_expr, inner);
                    match else_expr {
                        Some(else_expr) => {
                            retained.law_a_tail_is_retained(else_expr, tail, inner);
                            self.tails_stay(retained, else_expr, tail, inner);
                        },
                        None => {},
                    }
                },
                ExprForm::Match { cases, .. } => {
                    self.tails_are_retained(cases, cases.len() as int, tail, inner);
                },
                ExprForm::TypeAnnotation { lhs } => {
                    self.law_a_tail_is_retained(lhs, tail, inner);
                },
                _ => {},
            }
        }
    }

    proof fn tails_are_retained(
        self,
        cases: Seq<(PatternId, ExprId)>,
        count: int,
        tail: ExprId,
        depth: nat,
    )
        requires
            self.elaborates_drops(),
            count <= cases.len(),
        ensures
            ({
                let after = self.tails_retained(cases, count, depth);
                &&& after.only_retains(self)
                &&& after.context.escape_retains.contains(tail)
                    <==> self.context.escape_retains.contains(tail) || (self.is_counted(tail) && exists|
                    i: int,
                |
                    0 <= i < count && self.context.has_tail((#[trigger] cases[i]).1, tail, depth))
            }),
        decreases depth, 1nat, count,
    {
        if count > 0 {
            self.tails_are_retained(cases, count - 1, tail, depth);
            let made = self.tails_retained(cases, count - 1, depth);
            made.law_a_tail_is_retained(cases[count - 1].1, tail, depth);
            self.tails_stay(made, cases[count - 1].1, tail, depth);
            if self.context.has_tail(cases[count - 1].1, tail, depth) {
                assert(self.context.has_tail(cases[count - 1].1, tail, depth) && count - 1 < count);
            }
        }
    }

    proof fn sharing_stays(self, other: State, typ: Type, depth: nat)
        requires
            other.bindings == self.bindings,
            other.facts == self.facts,
        ensures
            other.defining_item_at(typ, depth) == self.defining_item_at(typ, depth),
        decreases depth,
    {
        if depth > 0 {
            match self.follow(typ) {
                Type::Application(constructor, _) => {
                    self.sharing_stays(other, *constructor, (depth - 1) as nat);
                },
                _ => {},
            }
        }
    }

    proof fn tails_stay(self, other: State, expr: ExprId, tail: ExprId, depth: nat)
        requires
            other.only_retains(self),
        ensures
            other.context.has_tail(expr, tail, depth) == self.context.has_tail(expr, tail, depth),
            other.is_counted(tail) == self.is_counted(tail),
        decreases depth,
    {
        match self.type_of_expr(tail) {
            Some(typ) => {
                self.sharing_stays(other, typ, NESTING_LIMIT as nat);
            },
            None => {},
        }
        if depth > 0 {
            let inner = (depth - 1) as nat;
            match self.context.expr(expr) {
                ExprForm::Sequence(items) => {
                    if items.len() > 0 {
                        self.tails_stay(other, items.last(), tail, inner);
                    }
                },
                ExprForm::If { then_expr, else_expr, .. } => {
                    self.tails_stay(other, then_expr, tail, inner);
                    if else_expr is Some {
                        self.tails_stay(other, else_expr->0, tail, inner);
                    }
                },
                ExprForm::Match { cases, .. } => {
                    assert forall|i: int| 0 <= i < cases.len() implies other.context.has_tail(
                        (#[trigger] cases[i]).1,
                        tail,
                        inner,
                    ) == self.context.has_tail(cases[i].1, tail, inner) by {
                        self.tails_stay(other, cases[i].1, tail, inner);
                    }
                },
                ExprForm::TypeAnnotation { lhs } => {
                    self.tails_stay(other, lhs, tail, inner);
                },
                _ => {},
            }
        }
    }

    /// Apart from what the deaths of closures release, this is `before`, and nothing more is
    /// released.
    pub open spec fn only_retracts(self, before: State) -> bool {
        &&& self == (State { shared_closure_captures: self.shared_closure_captures, ..before })
        &&& forall|name: NameId| #[trigger]
            self.shared_closure_captures.contains_key(name) ==> {
                &&& before.shared_closure_captures.contains_key(name)
                &&& self.shared_closure_captures[name] == before.shared_closure_captures[name]
            }
    }

    /// The death of a closure releases nothing if the closure is used as a value in what was
    /// scanned, and otherwise what it did.
    pub proof fn law_a_closure_that_is_used_as_a_value_keeps_its_handles(
        self,
        expr: ExprId,
        name: NameId,
        depth: nat,
    )
        ensures
            ({
                let after = self.escapes_scanned(expr, depth);
                &&& after.only_retracts(self)
                &&& after.shared_closure_captures.contains_key(name)
                    <==> self.shared_closure_captures.contains_key(name)
                    && !self.context.is_used_as_value(expr, name, depth)
            }),
        decreases depth, 0nat, 0int,
    {
        if depth > 0 {
            let inner = (depth - 1) as nat;
            match self.context.expr(expr) {
                ExprForm::Variable(path) => {
                    assert(forall|own: NameId| #[trigger] set![own].contains(name) <==> own == name);
                },
                ExprForm::Lambda { .. } => {
                    self.context.law_free_names_are_used_and_not_bound(expr, Set::empty(), name);
                    let free = self.context.free_names(expr, Set::empty());
                    assert(free.to_set().contains(name) == free.contains(name));
                },
                ExprForm::Call { function, arguments } => {
                    let exprs = arguments.map_values(|argument: Argument| argument.expr);
                    if !(self.context.expr(function) is Variable) {
                        self.law_a_closure_that_is_used_as_a_value_keeps_its_handles(
                            function,
                            name,
                            inner,
                        );
                    }
                    let scanned = if self.context.expr(function) is Variable {
                        self
                    } else {
                        self.escapes_scanned(function, inner)
                    };
                    scanned.scanning_all(exprs, exprs.len() as int, name, inner);
                    let used = exists|i: int|
                        0 <= i < exprs.len() && self.context.is_used_as_value(
                            #[trigger] exprs[i],
                            name,
                            inner,
                        );
                    if used {
                        let i = choose|i: int|
                            0 <= i < exprs.len() && self.context.is_used_as_value(
                                #[trigger] exprs[i],
                                name,
                                inner,
                            );
                        assert(self.context.is_used_as_value(arguments[i].expr, name, inner));
                    }
                    let written = exists|i: int|
                        0 <= i < arguments.len() && self.context.is_used_as_value(
                            (#[trigger] arguments[i]).expr,
                            name,
                            inner,
                        );
                    if written {
                        let i = choose|i: int|
                            0 <= i < arguments.len() && self.context.is_used_as_value(
                                (#[trigger] arguments[i]).expr,
                                name,
                                inner,
                            );
                        assert(self.context.is_used_as_value(exprs[i], name, inner));
                    }
                },
                form => {
                    let children = form.children();
                    self.scanning_all(children, children.len() as int, name, inner);
                    let used = exists|i: int|
                        0 <= i < children.len() && self.context.is_used_as_value(
                            #[trigger] children[i],
                            name,
                            inner,
                        );
                    if used {
                        let i = choose|i: int|
                            0 <= i < children.len() && self.context.is_used_as_value(
                                #[trigger] children[i],
                                name,
                                inner,
                            );
                        self.context.law_children_stand_inside(expr, i, children[i]);
                        assert(self.context.has_child(expr, i, children[i]));
                    }
                    if self.context.is_used_as_value(expr, name, depth) {
                        let (i, child) = choose|i: int, child: ExprId| #[trigger]
                            self.context.has_child(expr, i, child)
                                && self.context.is_used_as_value(child, name, inner);
                        self.context.law_children_stand_inside(expr, i, child);
                        assert(self.context.is_used_as_value(children[i], name, inner));
                    }
                },
            }
        }
    }

    proof fn scanning_all(self, exprs: Seq<ExprId>, count: int, name: NameId, depth: nat)
        requires
            count <= exprs.len(),
        ensures
            ({
                let after = self.all_escapes_scanned(exprs, count, depth);
                &&& after.only_retracts(self)
                &&& after.shared_closure_captures.contains_key(name)
                    <==> self.shared_closure_captures.contains_key(name) && !exists|i: int|
                    0 <= i < count && self.context.is_used_as_value(#[trigger] exprs[i], name, depth)
            }),
        decreases depth, 1nat, count,
    {
        if count > 0 {
            self.scanning_all(exprs, count - 1, name, depth);
            let made = self.all_escapes_scanned(exprs, count - 1, depth);
            made.law_a_closure_that_is_used_as_a_value_keeps_its_handles(
                exprs[count - 1],
                name,
                depth,
            );
            assert(exprs[count - 1] == exprs[count - 1]);
        }
    }
}

/// How many of `parameters` before `index` are written at a call.
pub open spec fn explicit_before(parameters: Seq<Parameter>, index: int) -> nat {
    parameters.take(index).filter(|parameter: Parameter| !parameter.is_implicit).len()
}

pub(crate) proof fn explicit_before_grows(parameters: Seq<Parameter>, index: int)
    requires
        0 <= index < parameters.len(),
    ensures
        explicit_before(parameters, 0) == 0,
        explicit_before(parameters, index + 1) == explicit_before(parameters, index) + if
        parameters[index].is_implicit {
            0nat
        } else {
            1nat
        },
        explicit_before(parameters, index) <= explicit_before(parameters, index + 1),
{
    reveal(Seq::filter);
    assert(parameters.take(index + 1).drop_last() =~= parameters.take(index));
    assert(parameters.take(0) =~= Seq::<Parameter>::empty());
}

pub(crate) proof fn explicit_before_ascends(parameters: Seq<Parameter>, first: int, second: int)
    requires
        0 <= first <= second <= parameters.len(),
    ensures
        explicit_before(parameters, first) <= explicit_before(parameters, second),
    decreases second - first,
{
    if first < second {
        explicit_before_ascends(parameters, first, second - 1);
        explicit_before_grows(parameters, second - 1);
    }
}

impl State {
    /// The parameter borrows its argument: it is an immutable variable of a shared type, through
    /// any annotations, and nothing in the body may keep it.
    pub open spec fn borrows_argument(self, parameter: Parameter, typ: Type, body: ExprId) -> bool {
        &&& !parameter.is_mutable
        &&& self.is_shared(self.follow(typ))
        &&& self.single_variable(parameter.pattern) matches Some(name)
            && !self.context.may_be_kept(body, name, NESTING_LIMIT as nat)
    }

    proof fn single_variable_stays(self, other: State, pattern: PatternId, depth: nat)
        requires
            other.context == self.context,
        ensures
            other.single_variable_at(pattern, depth) == self.single_variable_at(pattern, depth),
        decreases depth,
    {
        if depth > 0 {
            match self.context.pattern(pattern) {
                PatternForm::TypeAnnotation(inner) => {
                    self.single_variable_stays(other, inner, (depth - 1) as nat);
                },
                _ => {},
            }
        }
    }

    proof fn borrowing_names_borrow(
        self,
        before: State,
        parameter: Parameter,
        typ: Type,
        body: ExprId,
    )
        requires
            self == (State { borrowed_local_params: self.borrowed_local_params, ..before }),
        ensures
            self.borrowing_name(parameter, typ, body) is Some <==> before.borrows_argument(
                parameter,
                typ,
                body,
            ),
            self.borrowing_name(parameter, typ, body) is Some ==> self.borrowing_name(
                parameter,
                typ,
                body,
            ) == before.single_variable(parameter.pattern),
    {
        before.single_variable_stays(self, parameter.pattern, NESTING_LIMIT as nat);
        before.sharing_stays(self, self.follow(typ), NESTING_LIMIT as nat);
        match self.single_variable(parameter.pattern) {
            Some(name) => {
                self.law_what_may_be_kept_escapes(body, name, NESTING_LIMIT as nat);
            },
            None => {},
        }
    }

    proof fn mask_is_long(
        self,
        parameters: Seq<Parameter>,
        types: Seq<Type>,
        body: ExprId,
        count: int,
    )
        requires
            0 <= count <= parameters.len(),
        ensures
            ({
                let (mask, made) = self.borrow_mask(parameters, types, body, count);
                &&& mask.len() == explicit_before(parameters, count)
                &&& made == (State { borrowed_local_params: made.borrowed_local_params, ..self })
            }),
        decreases count,
    {
        if count > 0 {
            self.mask_is_long(parameters, types, body, count - 1);
            explicit_before_grows(parameters, count - 1);
        } else if parameters.len() > 0 {
            explicit_before_grows(parameters, 0);
        } else {
            reveal(Seq::filter);
            assert(parameters.take(0) =~= Seq::<Parameter>::empty());
        }
    }

    /// The mask of a function says of each parameter that is written at a call, in their order,
    /// whether it borrows its argument, and the variables of those that do are noted as borrowed.
    pub proof fn law_a_mask_marks_what_is_borrowed(
        self,
        parameters: Seq<Parameter>,
        types: Seq<Type>,
        body: ExprId,
        count: int,
        index: int,
    )
        requires
            0 <= index < count <= parameters.len(),
            !parameters[index].is_implicit,
        ensures
            ({
                let (mask, made) = self.borrow_mask(parameters, types, body, count);
                let place = explicit_before(parameters, index) as int;
                let borrows = self.borrows_argument(parameters[index], types[index], body);
                &&& mask.len() == explicit_before(parameters, count)
                &&& place < mask.len()
                &&& mask[place] == borrows
                &&& borrows ==> made.borrowed_local_params.contains(
                    self.single_variable(parameters[index].pattern)->0,
                )
                &&& made == (State { borrowed_local_params: made.borrowed_local_params, ..self })
            }),
        decreases count,
    {
        self.mask_is_long(parameters, types, body, count);
        self.mask_is_long(parameters, types, body, count - 1);
        explicit_before_grows(parameters, count - 1);
        let made = self.borrow_mask(parameters, types, body, count - 1).1;
        made.borrowing_names_borrow(self, parameters[count - 1], types[count - 1], body);
        if index < count - 1 {
            self.law_a_mask_marks_what_is_borrowed(parameters, types, body, count - 1, index);
            explicit_before_grows(parameters, index);
            explicit_before_ascends(parameters, index + 1, count - 1);
        }
    }

    /// Nothing is noted as borrowed but what was before, and the variables of parameters that borrow
    /// their arguments.
    pub proof fn law_only_borrowing_parameters_are_noted(
        self,
        parameters: Seq<Parameter>,
        types: Seq<Type>,
        body: ExprId,
        count: int,
        name: NameId,
    )
        requires
            0 <= count <= parameters.len(),
            self.borrow_mask(parameters, types, body, count).1.borrowed_local_params.contains(name),
        ensures
            self.borrowed_local_params.contains(name) || exists|i: int|
                0 <= i < count && !(#[trigger] parameters[i]).is_implicit && self.borrows_argument(
                    parameters[i],
                    types[i],
                    body,
                ) && self.single_variable(parameters[i].pattern) == Some(name),
        decreases count,
    {
        if count > 0 {
            self.mask_is_long(parameters, types, body, count - 1);
            let made = self.borrow_mask(parameters, types, body, count - 1).1;
            made.borrowing_names_borrow(self, parameters[count - 1], types[count - 1], body);
            if made.borrowed_local_params.contains(name) {
                self.law_only_borrowing_parameters_are_noted(
                    parameters,
                    types,
                    body,
                    count - 1,
                    name,
                );
            } else {
                assert(!parameters[count - 1].is_implicit);
            }
        }
    }
}

proof fn reversing_keeps(names: Seq<NameId>, name: NameId)
    ensures
        names.reverse().contains(name) == names.contains(name),
{
    if names.contains(name) {
        let i = choose|i: int| 0 <= i < names.len() && names[i] == name;
        assert(names.reverse()[names.len() - 1 - i] == name);
    }
    if names.reverse().contains(name) {
        let i = choose|i: int| 0 <= i < names.len() && names.reverse()[i] == name;
        assert(names[names.len() - 1 - i] == name);
    }
}

proof fn joining_keeps(first: Seq<NameId>, second: Seq<NameId>, name: NameId)
    ensures
        (first + second).contains(name) == (first.contains(name) || second.contains(name)),
{
    let all = first + second;
    if all.contains(name) {
        let i = choose|i: int| 0 <= i < all.len() && all[i] == name;
        if i < first.len() {
            assert(first[i] == name);
        } else {
            assert(second[i - first.len()] == name);
        }
    }
    if first.contains(name) {
        let i = choose|i: int| 0 <= i < first.len() && first[i] == name;
        assert(all[i] == name);
    }
    if second.contains(name) {
        let i = choose|i: int| 0 <= i < second.len() && second[i] == name;
        assert(all[first.len() + i] == name);
    }
}

/// No scope inside of the one at `index` is of the kind `boundary`.
pub open spec fn is_inside(scopes: Seq<ScopeState>, boundary: DropScopeKind, index: int) -> bool {
    &&& 0 <= index < scopes.len()
    &&& forall|j: int| index < j < scopes.len() ==> (#[trigger] scopes[j]).kind != boundary
}

/// What a jump leaves is what is declared in the scopes from the innermost one up to the first that
/// the jump ends at.
pub proof fn law_a_jump_leaves_the_scopes_up_to_its_boundary(
    scopes: Seq<ScopeState>,
    boundary: DropScopeKind,
    name: NameId,
)
    ensures
        unwound(scopes, boundary).contains(name) <==> exists|i: int| #[trigger]
            is_inside(scopes, boundary, i) && scopes[i].names.contains(name),
    decreases scopes.len(),
{
    if scopes.len() > 0 {
        let outer = scopes.drop_last();
        let last = scopes.len() - 1;
        let names = scopes.last().names;
        law_a_jump_leaves_the_scopes_up_to_its_boundary(outer, boundary, name);
        let rest = if scopes.last().kind == boundary {
            Seq::empty()
        } else {
            unwound(outer, boundary)
        };
        reversing_keeps(names, name);
        joining_keeps(names.reverse(), rest, name);
        assert(is_inside(scopes, boundary, last));
        assert forall|i: int| 0 <= i < last implies is_inside(scopes, boundary, i) == (
        scopes.last().kind != boundary && #[trigger] is_inside(outer, boundary, i)) by {
            if is_inside(scopes, boundary, i) {
                assert(scopes[last].kind != boundary);
                assert forall|j: int| i < j < outer.len() implies (#[trigger] outer[j]).kind
                    != boundary by {
                    assert(scopes[j].kind != boundary);
                }
            }
            if scopes.last().kind != boundary && is_inside(outer, boundary, i) {
                assert forall|j: int| i < j < scopes.len() implies (#[trigger] scopes[j]).kind
                    != boundary by {
                    if j < last {
                        assert(outer[j].kind != boundary);
                    }
                }
            }
        }
        if rest.contains(name) {
            let i = choose|i: int| #[trigger]
                is_inside(outer, boundary, i) && outer[i].names.contains(name);
            assert(is_inside(scopes, boundary, i) && scopes[i].names.contains(name));
        }
        if exists|i: int| #[trigger]
            is_inside(scopes, boundary, i) && scopes[i].names.contains(name) {
            let i = choose|i: int| #[trigger]
                is_inside(scopes, boundary, i) && scopes[i].names.contains(name);
            if i < last {
                assert(is_inside(outer, boundary, i) && outer[i].names.contains(name));
            }
        }
    }
}

} // verus!

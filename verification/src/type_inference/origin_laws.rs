//! What holds of origins: where references point comes from what gives them their value.

#[allow(unused_imports)]
use crate::cst::{Argument, ExprForm};
#[allow(unused_imports)]
use crate::ids::{ExprId, NameId, PatternId, NESTING_LIMIT};
#[allow(unused_imports)]
use crate::type_inference::checker::State;
#[allow(unused_imports)]
use crate::type_inference::origins::{
    explicit_arguments, plain, Flow, OriginForm, OriginPlace, Origins,
};
#[allow(unused_imports)]
use crate::types::Type;
use vstd::prelude::*;

verus! {

impl Flow {
    /// Every recorded set holds something.
    pub open spec fn holds_no_empty_set(self) -> bool {
        forall|expr: ExprId| #[trigger]
            self.origins.contains_key(expr) ==> self.origins[expr].len() > 0
    }
}

impl State {
    proof fn origin_is_recorded(self, flow: Flow, expr: ExprId, depth: nat)
        requires
            flow.holds_no_empty_set(),
        ensures
            self.origin_at(flow, expr, depth).1.holds_no_empty_set(),
        decreases depth, 0nat, 0int,
    {
        if depth > 0 {
            let depth = (depth - 1) as nat;
            match self.context.expr(expr) {
                ExprForm::MemberAccess { object, .. } => {
                    self.origin_is_recorded(flow, object, depth);
                },
                ExprForm::TypeAnnotation { lhs } => {
                    self.origin_is_recorded(flow, lhs, depth);
                },
                ExprForm::Sequence(items) => {
                    if items.len() > 0 {
                        self.statements_are_recorded(flow, items, items.len() - 1, depth);
                        let before = self.statements_at(flow, items, items.len() - 1, depth);
                        self.origin_is_recorded(before, items[items.len() - 1], depth);
                    }
                },
                ExprForm::Definition(_) => {
                    self.statement_is_recorded(flow, expr, depth);
                },
                ExprForm::If { then_expr, else_expr, .. } => {
                    let branches = match else_expr {
                        Some(else_expr) => seq![then_expr, else_expr],
                        None => seq![then_expr],
                    };
                    self.origins_are_recorded(flow, branches, branches.len() as int, depth);
                },
                ExprForm::Match { cases, .. } => {
                    let branches = cases.map_values(|case: (u32, ExprId)| case.1);
                    self.origins_are_recorded(flow, branches, branches.len() as int, depth);
                },
                ExprForm::Constructor { fields } => {
                    let values = fields.map_values(|field: (u32, ExprId)| field.1);
                    self.origins_are_recorded(flow, values, values.len() as int, depth);
                },
                ExprForm::Call { function, arguments } => {
                    let forwarded = self.forwarded_arguments(function, arguments, expr);
                    self.origins_are_recorded(flow, forwarded, forwarded.len() as int, depth);
                },
                _ => {},
            }
        }
    }

    proof fn origins_are_recorded(self, flow: Flow, exprs: Seq<ExprId>, count: int, depth: nat)
        requires
            flow.holds_no_empty_set(),
        ensures
            self.origins_at(flow, exprs, count, depth).1.holds_no_empty_set(),
        decreases depth, 2nat, count,
    {
        if count > 0 {
            self.origins_are_recorded(flow, exprs, count - 1, depth);
            let (_, before) = self.origins_at(flow, exprs, count - 1, depth);
            self.origin_is_recorded(before, exprs[count - 1], depth);
        }
    }

    proof fn statement_is_recorded(self, flow: Flow, expr: ExprId, depth: nat)
        requires
            flow.holds_no_empty_set(),
        ensures
            self.statement_at(flow, expr, depth).holds_no_empty_set(),
        decreases depth, 1nat, 0int,
    {
        if depth > 0 {
            let depth = (depth - 1) as nat;
            match self.context.expr(expr) {
                ExprForm::Definition(definition) => {
                    self.origin_is_recorded(flow, definition.rhs, depth);
                },
                ExprForm::Assignment(assignment) => {
                    self.origin_is_recorded(flow, assignment.rhs, depth);
                },
                ExprForm::Sequence(items) => {
                    self.statements_are_recorded(flow, items, items.len() as int, depth);
                },
                _ => {},
            }
        }
    }

    proof fn statements_are_recorded(self, flow: Flow, items: Seq<ExprId>, count: int, depth: nat)
        requires
            flow.holds_no_empty_set(),
        ensures
            self.statements_at(flow, items, count, depth).holds_no_empty_set(),
        decreases depth, 2nat, count,
    {
        if count > 0 {
            self.statements_are_recorded(flow, items, count - 1, depth);
            self.statement_is_recorded(
                self.statements_at(flow, items, count - 1, depth),
                items[count - 1],
                depth,
            );
        }
    }

    /// Only what carries references is recorded, and the origins of the body of a function that
    /// carries some are recorded for it.
    pub proof fn law_only_carriers_are_recorded(self, body: ExprId)
        ensures
            self.body_origins(body).1.holds_no_empty_set(),
            self.body_origins(body).0.len() > 0 ==> self.body_origins(body).1.origins.contains_key(
                body,
            ) && self.body_origins(body).1.origins[body] == self.body_origins(body).0,
    {
        self.origin_is_recorded(Flow::nothing(), body, NESTING_LIMIT as nat);
    }
}

impl Flow {
    /// With the origins of an expression recorded, if it has any.
    pub open spec fn with_recorded(self, expr: ExprId, set: Origins) -> Flow {
        if set.len() > 0 {
            Flow { origins: self.origins.insert(expr, set), ..self }
        } else {
            self
        }
    }

    /// With a variable that points where `set` says, if there is one.
    pub open spec fn with_bound(self, name: Option<NameId>, set: Origins) -> Flow {
        match name {
            Some(name) => Flow { bindings: self.bindings.insert(name, set), ..self },
            None => self,
        }
    }

    /// Where a variable points, as far as it is known.
    pub open spec fn bound(self, name: NameId) -> Origins {
        if self.bindings.contains_key(name) {
            self.bindings[name]
        } else {
            Seq::empty()
        }
    }
}

impl State {
    /// `part` stands directly in `whole`, where its value may become a part of that of `whole` or
    /// of a variable.
    pub open spec fn is_part(self, part: ExprId, whole: ExprId) -> bool {
        match self.context.expr(whole) {
            ExprForm::MemberAccess { object, .. } => part == object,
            ExprForm::TypeAnnotation { lhs } => part == lhs,
            ExprForm::Sequence(items) => items.contains(part),
            ExprForm::Definition(definition) => part == definition.rhs,
            ExprForm::Assignment(assignment) => part == assignment.rhs,
            ExprForm::If { then_expr, else_expr, .. } => part == then_expr || else_expr == Some(
                part,
            ),
            ExprForm::Match { cases, .. } => exists|i: int|
                0 <= i < cases.len() && (#[trigger] cases[i]).1 == part,
            ExprForm::Constructor { fields } => exists|i: int|
                0 <= i < fields.len() && (#[trigger] fields[i]).1 == part,
            ExprForm::Call { arguments, .. } => exists|i: int|
                0 <= i < arguments.len() && (#[trigger] arguments[i]).expr == part,
            _ => false,
        }
    }

    /// No expression stands inside itself: what stands in an expression has a lower rank. There are
    /// no more ranks than there are expressions.
    pub open spec fn is_nested(self, rank: spec_fn(ExprId) -> nat) -> bool {
        &&& forall|expr: ExprId| (#[trigger] rank(expr)) <= u32::MAX
        &&& forall|part: ExprId, whole: ExprId| #[trigger]
            self.is_part(part, whole) ==> rank(part) < rank(whole)
    }

    proof fn explicit_arguments_are_arguments(arguments: Seq<Argument>, count: int)
        requires
            0 <= count <= arguments.len(),
        ensures
            forall|i: int|
                0 <= i < explicit_arguments(arguments, count).len() ==> exists|j: int|
                    0 <= j < count && (#[trigger] arguments[j]).expr
                        == #[trigger] explicit_arguments(arguments, count)[i],
        decreases count,
    {
        if count > 0 {
            Self::explicit_arguments_are_arguments(arguments, count - 1);
            let before = explicit_arguments(arguments, count - 1);
            let all = explicit_arguments(arguments, count);
            assert forall|i: int| 0 <= i < all.len() implies exists|j: int|
                0 <= j < count && (#[trigger] arguments[j]).expr == #[trigger] all[i] by {
                if i < before.len() {
                    assert(all[i] == before[i]);
                } else {
                    assert(arguments[count - 1].expr == all[i]);
                }
            }
        }
    }

    proof fn aliasing_arguments_are_arguments(
        self,
        arguments: Seq<ExprId>,
        result_elements: Seq<Type>,
        count: int,
    )
        requires
            0 <= count <= arguments.len(),
        ensures
            forall|i: int|
                0 <= i < self.aliasing_arguments(arguments, result_elements, count).len()
                    ==> arguments.contains(
                    #[trigger] self.aliasing_arguments(arguments, result_elements, count)[i],
                ),
        decreases count,
    {
        if count > 0 {
            self.aliasing_arguments_are_arguments(arguments, result_elements, count - 1);
            let before = self.aliasing_arguments(arguments, result_elements, count - 1);
            let all = self.aliasing_arguments(arguments, result_elements, count);
            assert forall|i: int| 0 <= i < all.len() implies arguments.contains(
                #[trigger] all[i],
            ) by {
                if i < before.len() {
                    assert(all[i] == before[i]);
                } else {
                    assert(all[i] == arguments[count - 1]);
                }
            }
        }
    }

    proof fn forwarded_arguments_are_parts(self, expr: ExprId)
        requires
            self.context.expr(expr) is Call,
        ensures
            ({
                let function = self.context.expr(expr)->Call_function;
                let arguments = self.context.expr(expr)->Call_arguments;
                let forwarded = self.forwarded_arguments(function, arguments, expr);
                forall|i: int|
                    0 <= i < forwarded.len() ==> self.is_part(#[trigger] forwarded[i], expr)
            }),
    {
        let function = self.context.expr(expr)->Call_function;
        let arguments = self.context.expr(expr)->Call_arguments;
        let explicit = explicit_arguments(arguments, arguments.len() as int);
        let forwarded = self.forwarded_arguments(function, arguments, expr);
        Self::explicit_arguments_are_arguments(arguments, arguments.len() as int);
        assert forall|i: int| 0 <= i < forwarded.len() implies self.is_part(
            #[trigger] forwarded[i],
            expr,
        ) by {
            if !self.is_constructor(function) {
                let typ = self.type_of_expr(expr).unwrap();
                self.aliasing_arguments_are_arguments(
                    explicit,
                    self.origin_elements_at(typ, NESTING_LIMIT as nat),
                    explicit.len() as int,
                );
            }
            assert(explicit.contains(forwarded[i]));
            let at = choose|at: int| 0 <= at < explicit.len() && explicit[at] == forwarded[i];
            assert(explicit[at] == forwarded[i]);
        }
    }

    /// The expressions that an expression takes its references from, where it takes them from
    /// several in turn.
    pub open spec fn sources(self, expr: ExprId) -> Seq<ExprId> {
        match self.context.expr(expr) {
            ExprForm::If { then_expr, else_expr, .. } => match else_expr {
                Some(else_expr) => seq![then_expr, else_expr],
                None => seq![then_expr],
            },
            ExprForm::Match { cases, .. } => cases.map_values(|case: (PatternId, ExprId)| case.1),
            ExprForm::Constructor { fields } => fields.map_values(
                |field: (NameId, ExprId)| field.1,
            ),
            ExprForm::Call { function, arguments } => self.forwarded_arguments(
                function,
                arguments,
                expr,
            ),
            _ => Seq::empty(),
        }
    }

    proof fn sources_are_parts(self, expr: ExprId)
        ensures
            forall|i: int|
                0 <= i < self.sources(expr).len() ==> self.is_part(
                    #[trigger] self.sources(expr)[i],
                    expr,
                ),
    {
        match self.context.expr(expr) {
            ExprForm::Match { cases, .. } => {
                assert forall|i: int| 0 <= i < self.sources(expr).len() implies self.is_part(
                    #[trigger] self.sources(expr)[i],
                    expr,
                ) by {
                    assert(cases[i].1 == self.sources(expr)[i]);
                }
            },
            ExprForm::Constructor { fields } => {
                assert forall|i: int| 0 <= i < self.sources(expr).len() implies self.is_part(
                    #[trigger] self.sources(expr)[i],
                    expr,
                ) by {
                    assert(fields[i].1 == self.sources(expr)[i]);
                }
            },
            ExprForm::Call { .. } => {
                self.forwarded_arguments_are_parts(expr);
            },
            _ => {},
        }
    }

    proof fn more_depth_finds_no_more(
        self,
        flow: Flow,
        expr: ExprId,
        rank: spec_fn(ExprId) -> nat,
        depth: nat,
        other: nat,
    )
        requires
            self.is_nested(rank),
            2 * rank(expr) + 2 <= depth,
            2 * rank(expr) + 2 <= other,
        ensures
            self.origin_at(flow, expr, depth) == self.origin_at(flow, expr, other),
        decreases rank(expr), 2nat, 0int,
    {
        let (a, b) = ((depth - 1) as nat, (other - 1) as nat);
        match self.context.expr(expr) {
            ExprForm::MemberAccess { object, .. } => {
                assert(self.is_part(object, expr));
                self.more_depth_finds_no_more(flow, object, rank, a, b);
            },
            ExprForm::TypeAnnotation { lhs } => {
                assert(self.is_part(lhs, expr));
                self.more_depth_finds_no_more(flow, lhs, rank, a, b);
            },
            ExprForm::Sequence(items) => {
                if items.len() > 0 {
                    let count = items.len() - 1;
                    assert forall|i: int| 0 <= i < items.len() implies self.is_part(
                        #[trigger] items[i],
                        expr,
                    ) by {}
                    self.more_depth_states_no_more(flow, items, count, rank, rank(expr), a, b);
                    let before = self.statements_at(flow, items, count, a);
                    self.more_depth_finds_no_more(before, items[count], rank, a, b);
                }
            },
            ExprForm::Definition(_) => {
                self.more_depth_binds_no_more(flow, expr, rank, a, b);
            },
            _ => {
                let sources = self.sources(expr);
                let count = sources.len() as int;
                self.sources_are_parts(expr);
                self.more_depth_lists_no_more(flow, sources, count, rank, rank(expr), a, b);
            },
        }
    }

    proof fn more_depth_binds_no_more(
        self,
        flow: Flow,
        expr: ExprId,
        rank: spec_fn(ExprId) -> nat,
        depth: nat,
        other: nat,
    )
        requires
            self.is_nested(rank),
            2 * rank(expr) + 1 <= depth,
            2 * rank(expr) + 1 <= other,
        ensures
            self.statement_at(flow, expr, depth) == self.statement_at(flow, expr, other),
        decreases rank(expr), 1nat, 0int,
    {
        let (a, b) = ((depth - 1) as nat, (other - 1) as nat);
        match self.context.expr(expr) {
            ExprForm::Definition(definition) => {
                assert(self.is_part(definition.rhs, expr));
                self.more_depth_finds_no_more(flow, definition.rhs, rank, a, b);
            },
            ExprForm::Assignment(assignment) => {
                assert(self.is_part(assignment.rhs, expr));
                self.more_depth_finds_no_more(flow, assignment.rhs, rank, a, b);
            },
            ExprForm::Sequence(items) => {
                assert forall|i: int| 0 <= i < items.len() implies self.is_part(
                    #[trigger] items[i],
                    expr,
                ) by {}
                let count = items.len() as int;
                self.more_depth_states_no_more(flow, items, count, rank, rank(expr), a, b);
            },
            _ => {},
        }
    }

    proof fn more_depth_lists_no_more(
        self,
        flow: Flow,
        exprs: Seq<ExprId>,
        count: int,
        rank: spec_fn(ExprId) -> nat,
        above: nat,
        depth: nat,
        other: nat,
    )
        requires
            self.is_nested(rank),
            count <= exprs.len(),
            forall|i: int| 0 <= i < exprs.len() ==> rank(#[trigger] exprs[i]) < above,
            2 * above <= depth,
            2 * above <= other,
        ensures
            self.origins_at(flow, exprs, count, depth) == self.origins_at(
                flow,
                exprs,
                count,
                other,
            ),
        decreases above, 0nat, count,
    {
        if count > 0 {
            self.more_depth_lists_no_more(flow, exprs, count - 1, rank, above, depth, other);
            let (_, before) = self.origins_at(flow, exprs, count - 1, depth);
            self.more_depth_finds_no_more(before, exprs[count - 1], rank, depth, other);
        }
    }

    proof fn more_depth_states_no_more(
        self,
        flow: Flow,
        items: Seq<ExprId>,
        count: int,
        rank: spec_fn(ExprId) -> nat,
        above: nat,
        depth: nat,
        other: nat,
    )
        requires
            self.is_nested(rank),
            count <= items.len(),
            forall|i: int| 0 <= i < items.len() ==> rank(#[trigger] items[i]) < above,
            2 * above <= depth,
            2 * above <= other,
        ensures
            self.statements_at(flow, items, count, depth) == self.statements_at(
                flow,
                items,
                count,
                other,
            ),
        decreases above, 0nat, count,
    {
        if count > 0 {
            self.more_depth_states_no_more(flow, items, count - 1, rank, above, depth, other);
            let before = self.statements_at(flow, items, count - 1, depth);
            self.more_depth_binds_no_more(before, items[count - 1], rank, depth, other);
        }
    }

    /// Where the references of an expression may point comes from what gives its value, in the
    /// order it is written in: from both branches of an `if`, the one behind the other; from the
    /// branches of a `match`, in turn; from the last item of a sequence, behind the statements
    /// before it; from what a member or an annotation stands on; from the fields of a constructor
    /// and the arguments that a call passes on. A condition and what is matched on add nothing, and
    /// literals and globals point nowhere. What was found is what is recorded for the expression,
    /// if anything was, and nothing empty is recorded.
    pub proof fn law_origins_come_from_the_value(
        self,
        flow: Flow,
        expr: ExprId,
        rank: spec_fn(ExprId) -> nat,
    )
        requires
            self.is_nested(rank),
        ensures
            ({
                let (set, after) = self.origin(flow, expr);
                let (found, reached) = match self.context.expr(expr) {
                    ExprForm::If { then_expr, else_expr, .. } => {
                        let (first, behind) = self.origin(flow, then_expr);
                        match else_expr {
                            Some(else_expr) => {
                                let (second, end) = self.origin(behind, else_expr);
                                (first + second, end)
                            },
                            None => (first, behind),
                        }
                    },
                    ExprForm::Sequence(items) => if items.len() == 0 {
                        (Seq::empty(), flow)
                    } else {
                        self.origin(self.statements(flow, items, items.len() - 1), items.last())
                    },
                    ExprForm::MemberAccess { object, .. } => self.origin(flow, object),
                    ExprForm::TypeAnnotation { lhs } => self.origin(flow, lhs),
                    ExprForm::Match { .. } | ExprForm::Constructor { .. } | ExprForm::Call {
                        ..
                    } => self.origins(flow, self.sources(expr), self.sources(expr).len() as int),
                    ExprForm::Definition(_) => (Seq::empty(), self.statement(flow, expr)),
                    ExprForm::Reference { rhs, .. } => (self.reference_origin(expr, rhs), flow),
                    ExprForm::Lambda { .. } => (self.lambda_origin(expr, flow.bindings), flow),
                    ExprForm::Variable(path) => match self.context.local(path) {
                        Some(name) => if flow.bindings.contains_key(name) {
                            (flow.bindings[name], flow)
                        } else if self.is_reference_typed(name) {
                            (seq![plain(OriginPlace::Param(name))], flow)
                        } else {
                            (Seq::empty(), flow)
                        },
                        None => (Seq::empty(), flow),
                    },
                    _ => (Seq::empty(), flow),
                };
                &&& set == found
                &&& after == reached.with_recorded(expr, set)
                &&& set.len() > 0 ==> after.origins.contains_key(expr) && after.origins[expr] == set
                &&& flow.holds_no_empty_set() ==> after.holds_no_empty_set()
            }),
    {
        let full = NESTING_LIMIT as nat;
        let depth = (NESTING_LIMIT - 1) as nat;
        assert(rank(expr) <= u32::MAX);
        if flow.holds_no_empty_set() {
            self.origin_is_recorded(flow, expr, full);
        }
        match self.context.expr(expr) {
            ExprForm::MemberAccess { object, .. } => {
                assert(self.is_part(object, expr));
                self.more_depth_finds_no_more(flow, object, rank, depth, full);
            },
            ExprForm::TypeAnnotation { lhs } => {
                assert(self.is_part(lhs, expr));
                self.more_depth_finds_no_more(flow, lhs, rank, depth, full);
            },
            ExprForm::Sequence(items) => {
                if items.len() > 0 {
                    let count = items.len() - 1;
                    assert forall|i: int| 0 <= i < items.len() implies self.is_part(
                        #[trigger] items[i],
                        expr,
                    ) by {}
                    self.more_depth_states_no_more(
                        flow,
                        items,
                        count,
                        rank,
                        rank(expr),
                        depth,
                        full,
                    );
                    let before = self.statements(flow, items, count);
                    self.more_depth_finds_no_more(before, items[count], rank, depth, full);
                }
            },
            ExprForm::Definition(_) => {
                self.more_depth_binds_no_more(flow, expr, rank, depth, full);
            },
            _ => {
                let sources = self.sources(expr);
                let count = sources.len() as int;
                self.sources_are_parts(expr);
                self.more_depth_lists_no_more(
                    flow,
                    sources,
                    count,
                    rank,
                    rank(expr),
                    depth,
                    full,
                );
            },
        }
        match self.context.expr(expr) {
            ExprForm::If { then_expr, else_expr, .. } => {
                let branches = self.sources(expr);
                let (first, behind) = self.origin(flow, then_expr);
                assert(Seq::<OriginForm>::empty() + first =~= first);
                assert(self.origins(flow, branches, 0) == (Seq::<OriginForm>::empty(), flow));
                assert(self.origins(flow, branches, 1) == (first, behind));
                match else_expr {
                    Some(else_expr) => {
                        let (second, end) = self.origin(behind, else_expr);
                        assert(branches[1] == else_expr);
                        assert(self.origins(flow, branches, 2) == (first + second, end));
                    },
                    None => {},
                }
            },
            _ => {},
        }
    }

    /// What is taken from several expressions in turn is in their order: what comes from one of
    /// them stands behind what comes from those before it, and nothing else is among it.
    pub proof fn law_origins_come_in_turn(
        self,
        flow: Flow,
        exprs: Seq<ExprId>,
        count: int,
        index: int,
    )
        requires
            0 <= index < count <= exprs.len(),
        ensures
            ({
                let (before, reached) = self.origins(flow, exprs, index);
                let (own, behind) = self.origin(reached, exprs[index]);
                let (set, after) = self.origins(flow, exprs, count);
                &&& (before + own).is_prefix_of(set)
                &&& index == 0 ==> before.len() == 0 && reached == flow
                &&& index == count - 1 ==> set == before + own && after == behind
                &&& self.origins(flow, exprs, index + 1) == (before + own, behind)
            }),
        decreases count,
    {
        if index < count - 1 {
            self.law_origins_come_in_turn(flow, exprs, count - 1, index);
        }
    }

    /// A variable that is defined points where the value does, and one that is assigned also where
    /// it did before. The statements of a sequence come in turn, and nothing else is a statement.
    pub proof fn law_statements_bind(self, flow: Flow, expr: ExprId, rank: spec_fn(ExprId) -> nat)
        requires
            self.is_nested(rank),
        ensures
            self.statement(flow, expr) == match self.context.expr(expr) {
                ExprForm::Definition(definition) => {
                    let (set, behind) = self.origin(flow, definition.rhs);
                    behind.with_bound(self.single_variable(definition.pattern), set)
                },
                ExprForm::Assignment(assignment) => {
                    let (set, behind) = self.origin(flow, assignment.rhs);
                    match self.context.expr(assignment.lhs) {
                        ExprForm::Variable(path) => match self.context.local(path) {
                            Some(name) => behind.with_bound(Some(name), behind.bound(name) + set),
                            None => behind,
                        },
                        _ => behind,
                    }
                },
                ExprForm::Sequence(items) => self.statements(flow, items, items.len() as int),
                _ => flow,
            },
    {
        let full = NESTING_LIMIT as nat;
        let depth = (NESTING_LIMIT - 1) as nat;
        assert(rank(expr) <= u32::MAX);
        match self.context.expr(expr) {
            ExprForm::Definition(definition) => {
                assert(self.is_part(definition.rhs, expr));
                self.more_depth_finds_no_more(flow, definition.rhs, rank, depth, full);
            },
            ExprForm::Assignment(assignment) => {
                assert(self.is_part(assignment.rhs, expr));
                self.more_depth_finds_no_more(flow, assignment.rhs, rank, depth, full);
            },
            ExprForm::Sequence(items) => {
                assert forall|i: int| 0 <= i < items.len() implies self.is_part(
                    #[trigger] items[i],
                    expr,
                ) by {}
                let count = items.len() as int;
                self.more_depth_states_no_more(
                    flow,
                    items,
                    count,
                    rank,
                    rank(expr),
                    depth,
                    full,
                );
            },
            _ => {},
        }
    }
}

} // verus!

//! What holds of the names that patterns bind, and of those an expression uses from outside.

#[allow(unused_imports)]
use crate::cst::{Argument, ContextState, ExprForm, HandleForm, Parameter, PatternForm};
#[allow(unused_imports)]
use crate::ids::{ExprId, NameId, Origin, PatternId, NESTING_LIMIT};
#[allow(unused_imports)]
use crate::type_inference::checker::State;
#[allow(unused_imports)]
use crate::type_inference::drop_elaboration::with_new;
#[allow(unused_imports)]
use crate::type_inference::free_variables::{
    ascending, case_steps, handler_steps, law_with_name, walks, with_name, Found, Step,
};
use vstd::prelude::*;

verus! {

impl ContextState {
    /// `name` occurs as a binder in the pattern, no more than `depth` levels deep: as a variable, as
    /// the name of a method or as an alias, through annotations, alternatives and the arguments of
    /// constructors.
    pub open spec fn binds(self, pattern: PatternId, name: NameId, depth: nat) -> bool
        decreases depth,
    {
        depth > 0 && match self.pattern(pattern) {
            PatternForm::Variable(own) => own == name,
            PatternForm::MethodName { item_name } => item_name == name,
            PatternForm::Alias(own, inner) => own == name || self.binds(
                inner,
                name,
                (depth - 1) as nat,
            ),
            PatternForm::TypeAnnotation(inner) => self.binds(inner, name, (depth - 1) as nat),
            PatternForm::Or(parts) => exists|i: int|
                0 <= i < parts.len() && self.binds(#[trigger] parts[i], name, (depth - 1) as nat),
            PatternForm::Constructor(_, parts) => exists|i: int|
                0 <= i < parts.len() && self.binds(#[trigger] parts[i], name, (depth - 1) as nat),
            PatternForm::Literal | PatternForm::Error => false,
        }
    }

    proof fn binding_adds(self, names: Seq<NameId>, pattern: PatternId, name: NameId, depth: nat)
        ensures
            self.with_bound(names, pattern, depth).contains(name) <==> names.contains(name)
                || self.binds(pattern, name, depth),
            names.is_prefix_of(self.with_bound(names, pattern, depth)),
            names.no_duplicates() ==> self.with_bound(names, pattern, depth).no_duplicates(),
        decreases depth, 0nat, 0int,
    {
        if depth > 0 {
            let depth = (depth - 1) as nat;
            match self.pattern(pattern) {
                PatternForm::Variable(own) => {
                    naming_adds(names, own, name);
                },
                PatternForm::MethodName { item_name } => {
                    naming_adds(names, item_name, name);
                },
                PatternForm::Alias(own, inner) => {
                    naming_adds(names, own, name);
                    self.binding_adds(with_new(names, own), inner, name, depth);
                },
                PatternForm::TypeAnnotation(inner) => {
                    self.binding_adds(names, inner, name, depth);
                },
                PatternForm::Or(parts) => {
                    self.binding_all_adds(names, parts, name, parts.len() as int, depth);
                },
                PatternForm::Constructor(_, parts) => {
                    self.binding_all_adds(names, parts, name, parts.len() as int, depth);
                },
                PatternForm::Literal | PatternForm::Error => {},
            }
        }
    }

    proof fn binding_all_adds(
        self,
        names: Seq<NameId>,
        parts: Seq<PatternId>,
        name: NameId,
        count: int,
        depth: nat,
    )
        requires
            0 <= count <= parts.len(),
        ensures
            self.with_all_bound(names, parts, count, depth).contains(name) <==> names.contains(name)
                || exists|i: int|
                0 <= i < count && self.binds(#[trigger] parts[i], name, depth),
            names.is_prefix_of(self.with_all_bound(names, parts, count, depth)),
            names.no_duplicates() ==> self.with_all_bound(
                names,
                parts,
                count,
                depth,
            ).no_duplicates(),
        decreases depth, 1nat, count,
    {
        if count > 0 {
            self.binding_all_adds(names, parts, name, count - 1, depth);
            let before = self.with_all_bound(names, parts, count - 1, depth);
            self.binding_adds(before, parts[count - 1], name, depth);
            if self.binds(parts[count - 1], name, depth) {
                assert(exists|i: int|
                    0 <= i < count && self.binds(#[trigger] parts[i], name, depth));
            }
        }
    }

    /// The names that are bound once a pattern was met are those bound before and those that occur
    /// as binders in the pattern. They come behind those bound before, and none comes twice.
    pub proof fn law_a_pattern_binds_what_occurs_in_it(
        self,
        names: Seq<NameId>,
        pattern: PatternId,
        name: NameId,
    )
        ensures
            ({
                let bound = self.with_bound(names, pattern, NESTING_LIMIT as nat);
                &&& bound.contains(name) <==> names.contains(name) || self.binds(
                    pattern,
                    name,
                    NESTING_LIMIT as nat,
                )
                &&& names.is_prefix_of(bound)
                &&& names.no_duplicates() ==> bound.no_duplicates()
            }),
    {
        self.binding_adds(names, pattern, name, NESTING_LIMIT as nat);
    }

    /// The names of a part of a pattern come before those of the parts behind it, unless they occur
    /// there as well.
    pub proof fn law_parts_bind_in_order(
        self,
        names: Seq<NameId>,
        parts: Seq<PatternId>,
        first: int,
        second: int,
        name: NameId,
        depth: nat,
    )
        requires
            0 <= first <= second <= parts.len(),
        ensures
            self.with_all_bound(names, parts, first, depth).is_prefix_of(
                self.with_all_bound(names, parts, second, depth),
            ),
            self.with_all_bound(names, parts, first, depth).contains(name) <==> names.contains(name)
                || exists|i: int|
                0 <= i < first && self.binds(#[trigger] parts[i], name, depth),
        decreases second,
    {
        self.binding_all_adds(names, parts, name, first, depth);
        if first < second {
            self.law_parts_bind_in_order(names, parts, first, second - 1, name, depth);
            let before = self.with_all_bound(names, parts, second - 1, depth);
            self.binding_adds(before, parts[second - 1], name, depth);
        }
    }
}

proof fn naming_adds(names: Seq<NameId>, own: NameId, name: NameId)
    ensures
        with_new(names, own).contains(name) <==> names.contains(name) || own == name,
        names.is_prefix_of(with_new(names, own)),
        names.no_duplicates() ==> with_new(names, own).no_duplicates(),
{
    let after = names.push(own);
    if names.contains(name) {
        let i = choose|i: int| 0 <= i < names.len() && names[i] == name;
        assert(after[i] == name);
    }
    assert(after[names.len() as int] == own);
}

impl State {
    /// A pattern binds exactly the names that occur as binders in it, each of them once.
    pub proof fn law_bound_names_occur(self, pattern: PatternId, name: NameId)
        ensures
            self.bound_names(pattern).contains(name) <==> self.context.binds(
                pattern,
                name,
                NESTING_LIMIT as nat,
            ),
            self.bound_names(pattern).no_duplicates(),
    {
        self.context.binding_adds(Seq::empty(), pattern, name, NESTING_LIMIT as nat);
    }

    /// Where values are dropped, the end of a scope is where everything dies that occurs as a binder
    /// in a pattern registered there, unless it is a part of another place or is discarded. It
    /// counts as a local of the function, too.
    pub proof fn law_what_a_pattern_binds_is_a_local(self, pattern: PatternId, name: NameId)
        requires
            self.facts.database.auto_drop,
            !self.synthesizing_drops,
            !self.suppress_move_record,
            self.drop_scopes.len() > 0,
            self.context.binds(pattern, name, NESTING_LIMIT as nat),
            !self.binding_places.contains_key(name),
            self.context.name(name) != "_"@,
        ensures
            self.locals_registered(pattern).drop_scopes.len() == self.drop_scopes.len(),
            self.locals_registered(pattern).drop_scopes.last().names.contains(name),
            self.locals_registered(pattern).drop_scopes.drop_last()
                == self.drop_scopes.drop_last(),
            self.function_local_names.len() > 0 ==> self.locals_registered(
                pattern,
            ).function_local_names.last().contains(name),
    {
        self.law_bound_names_occur(pattern, name);
        let bound = self.bound_names(pattern);
        let names = self.owners(bound, bound.len() as int);
        let at = choose|i: int| 0 <= i < bound.len() && bound[i] == name;
        self.owner_is_listed(bound, bound.len() as int, at);
        let own = choose|i: int| 0 <= i < names.len() && names[i] == name;
        let scope = self.drop_scopes.last().names;
        new_name_is_listed(scope, names, names.len() as int, own);
        if self.function_local_names.len() > 0 {
            let locals = self.function_local_names.last();
            assert((locals + names)[locals.len() + own] == name);
        }
        let after = self.locals_registered(pattern);
        assert(after.drop_scopes.drop_last() =~= self.drop_scopes.drop_last());
    }

    proof fn owner_is_listed(self, names: Seq<NameId>, count: int, at: int)
        requires
            0 <= at < count <= names.len(),
            self.owns(names[at]),
        ensures
            self.owners(names, count).contains(names[at]),
        decreases count,
    {
        let before = self.owners(names, count - 1);
        if at < count - 1 {
            self.owner_is_listed(names, count - 1, at);
            let i = choose|i: int| 0 <= i < before.len() && before[i] == names[at];
            assert(self.owners(names, count)[i] == names[at]);
        } else {
            assert(self.owners(names, count)[before.len() as int] == names[at]);
        }
    }
}

proof fn new_name_is_listed(names: Seq<NameId>, more: Seq<NameId>, count: int, at: int)
    requires
        0 <= at < count <= more.len(),
    ensures
        crate::type_inference::drop_elaboration::with_all_new(names, more, count).contains(
            more[at],
        ),
    decreases count,
{
    let before = crate::type_inference::drop_elaboration::with_all_new(names, more, count - 1);
    if at < count - 1 {
        new_name_is_listed(names, more, count - 1, at);
    }
    naming_adds(before, more[count - 1], more[at]);
}

/// What is recorded for an expression.
pub open spec fn recorded(table: Map<ExprId, Seq<ExprId>>, expr: ExprId) -> Seq<ExprId> {
    if table.contains_key(expr) {
        table[expr]
    } else {
        Seq::empty()
    }
}

impl ContextState {
    /// `name` is declared by the pattern, no more than `depth` levels deep. Every alternative binds
    /// the same names, so that the first one tells them.
    pub open spec fn declares(self, pattern: PatternId, name: NameId, depth: nat) -> bool
        decreases depth,
    {
        depth > 0 && match self.pattern(pattern) {
            PatternForm::Variable(own) => own == name,
            PatternForm::MethodName { item_name } => item_name == name,
            PatternForm::Alias(own, inner) => own == name || self.declares(
                inner,
                name,
                (depth - 1) as nat,
            ),
            PatternForm::TypeAnnotation(inner) => self.declares(inner, name, (depth - 1) as nat),
            PatternForm::Or(parts) => parts.len() > 0 && self.declares(
                parts[0],
                name,
                (depth - 1) as nat,
            ),
            PatternForm::Constructor(_, parts) => exists|i: int|
                0 <= i < parts.len() && self.declares(
                    #[trigger] parts[i],
                    name,
                    (depth - 1) as nat,
                ),
            PatternForm::Literal | PatternForm::Error => false,
        }
    }

    /// The name is declared by the pattern, however deep.
    pub open spec fn is_declared(self, pattern: PatternId, name: NameId) -> bool {
        self.declares(pattern, name, NESTING_LIMIT as nat)
    }

    /// `child` stands directly inside `whole`, and `index` others are evaluated before it.
    pub open spec fn has_child(self, whole: ExprId, index: int, child: ExprId) -> bool {
        match self.expr(whole) {
            ExprForm::Sequence(items) => 0 <= index < items.len() && child == items[index],
            ExprForm::Definition(definition) => index == 0 && child == definition.rhs,
            ExprForm::MemberAccess { object, .. } => index == 0 && child == object,
            ExprForm::Call { function, arguments } => {
                ||| index == 0 && child == function
                ||| 0 < index <= arguments.len() && child == arguments[index - 1].expr
            },
            ExprForm::Lambda { body, .. } => index == 0 && child == body,
            ExprForm::If { condition, then_expr, else_expr } => {
                ||| index == 0 && child == condition
                ||| index == 1 && child == then_expr
                ||| index == 2 && else_expr == Some(child)
            },
            ExprForm::Match { expression, cases } => {
                ||| index == 0 && child == expression
                ||| 0 < index <= cases.len() && child == cases[index - 1].1
            },
            ExprForm::Handle { expression, handlers, .. } => {
                ||| index == 0 && child == expression
                ||| 0 < index <= handlers.len() && child == handlers[index - 1].branch
            },
            ExprForm::Reference { rhs, .. } => index == 0 && child == rhs,
            ExprForm::TypeAnnotation { lhs } => index == 0 && child == lhs,
            ExprForm::Constructor { fields } => 0 <= index < fields.len() && child
                == fields[index].1,
            ExprForm::While { condition, body } => {
                ||| index == 0 && child == condition
                ||| index == 1 && child == body
            },
            ExprForm::For { start, end, body, .. } => {
                ||| index == 0 && child == start
                ||| index == 1 && child == end
                ||| index == 2 && child == body
            },
            ExprForm::Return { expression } => index == 0 && child == expression,
            ExprForm::Assignment(assignment) => {
                ||| index == 0 && child == assignment.lhs
                ||| index == 1 && child == assignment.rhs
                ||| index == 2 && assignment.op == Some(child)
            },
            ExprForm::ArrayLiteral(elements) => 0 <= index < elements.len() && child
                == elements[index],
            _ => false,
        }
    }

    /// A handler binds the name: in its arguments, or as its `resume`.
    pub open spec fn handler_binds(self, handler: HandleForm, name: NameId) -> bool {
        handler.resume_name == name || exists|i: int|
            0 <= i < handler.args.len() && self.is_declared(#[trigger] handler.args[i], name)
    }

    /// The expression itself binds the name before what stands in it behind `index` others.
    pub open spec fn binds_before(self, whole: ExprId, index: int, name: NameId) -> bool {
        match self.expr(whole) {
            ExprForm::Definition(definition) => self.is_declared(definition.pattern, name),
            ExprForm::Lambda { parameters, .. } => exists|i: int|
                0 <= i < parameters.len() && self.is_declared(
                    (#[trigger] parameters[i]).pattern,
                    name,
                ),
            ExprForm::Match { cases, .. } => exists|i: int|
                0 <= i < index && i < cases.len() && self.is_declared(
                    (#[trigger] cases[i]).0,
                    name,
                ),
            ExprForm::Handle { handler_name, handlers, .. } => handler_name == name || exists|
                i: int,
            |
                0 <= i < index && i < handlers.len() && self.handler_binds(
                    #[trigger] handlers[i],
                    name,
                ),
            ExprForm::For { variable, .. } => index >= 2 && variable == name,
            _ => false,
        }
    }

    /// The expression itself binds the name.
    pub open spec fn binds_somewhere(self, whole: ExprId, name: NameId) -> bool {
        exists|index: int| #[trigger] self.binds_before(whole, index, name)
    }

    /// The drops that run at an expression, once it is evaluated.
    pub open spec fn drops_recorded(self, expr: ExprId) -> Seq<ExprId> {
        recorded(self.post_expr_drops, expr) + recorded(self.pre_exit_drops, expr) + recorded(
            self.implicit_else_drops,
            expr,
        )
    }

    /// The name is bound in the expression, or in something inside it.
    pub open spec fn is_bound_in(self, expr: ExprId, name: NameId, depth: nat) -> bool
        decreases depth,
    {
        depth > 0 && {
            let depth = (depth - 1) as nat;
            let drops = self.drops_recorded(expr);
            ||| self.binds_somewhere(expr, name)
            ||| exists|i: int, child: ExprId| #[trigger]
                self.has_child(expr, i, child) && self.is_bound_in(child, name, depth)
            ||| exists|i: int|
                0 <= i < drops.len() && self.is_bound_in(#[trigger] drops[i], name, depth)
        }
    }

    /// The name is bound once what stands in the expression before its `index`-th part is evaluated.
    pub open spec fn is_bound_before(
        self,
        expr: ExprId,
        index: int,
        name: NameId,
        depth: nat,
    ) -> bool {
        ||| self.binds_before(expr, index, name)
        ||| exists|i: int, child: ExprId|
            i < index && #[trigger] self.has_child(expr, i, child) && self.is_bound_in(
                child,
                name,
                depth,
            )
    }

    /// The expression, or something inside it, is a variable that refers to the name, and nothing
    /// binds the name before it.
    pub open spec fn is_used_free(self, expr: ExprId, name: NameId, depth: nat) -> bool
        decreases depth,
    {
        depth > 0 && {
            let depth = (depth - 1) as nat;
            let drops = self.drops_recorded(expr);
            ||| self.expr(expr) matches ExprForm::Variable(path) && self.path_origin(path) == Some(
                Origin::Local(name),
            )
            ||| exists|i: int, child: ExprId| #[trigger]
                self.has_child(expr, i, child) && !self.is_bound_before(expr, i, name, depth)
                    && self.is_used_free(child, name, depth)
            ||| exists|i: int|
                {
                    &&& 0 <= i < drops.len()
                    &&& self.is_used_free(#[trigger] drops[i], name, depth)
                    &&& !self.binds_somewhere(expr, name)
                    &&& forall|j: int, child: ExprId| #[trigger]
                        self.has_child(expr, j, child) ==> !self.is_bound_in(child, name, depth)
                    &&& forall|j: int|
                        0 <= j < i ==> !self.is_bound_in(#[trigger] drops[j], name, depth)
                }
        }
    }

    proof fn declaring_defines(self, found: Found, pattern: PatternId, name: NameId, depth: nat)
        ensures
            self.declared(found, pattern, depth).defined.contains(name) <==> found.defined.contains(
                name,
            ) || self.declares(pattern, name, depth),
            self.declared(found, pattern, depth).free == found.free,
        decreases depth, 0nat, 0int,
    {
        if depth > 0 {
            let depth = (depth - 1) as nat;
            match self.pattern(pattern) {
                PatternForm::Constructor(_, parts) => {
                    self.declaring_all_defines(found, parts, name, parts.len() as int, depth);
                },
                PatternForm::TypeAnnotation(inner) => {
                    self.declaring_defines(found, inner, name, depth);
                },
                PatternForm::Or(parts) => {
                    if parts.len() > 0 {
                        self.declaring_defines(found, parts[0], name, depth);
                    }
                },
                PatternForm::Alias(own, inner) => {
                    self.declaring_defines(found.with_defined(own), inner, name, depth);
                },
                _ => {},
            }
        }
    }

    proof fn declaring_all_defines(
        self,
        found: Found,
        parts: Seq<PatternId>,
        name: NameId,
        count: int,
        depth: nat,
    )
        requires
            0 <= count <= parts.len(),
        ensures
            self.all_declared(found, parts, count, depth).defined.contains(name)
                <==> found.defined.contains(name) || exists|i: int|
                0 <= i < count && self.declares(#[trigger] parts[i], name, depth),
            self.all_declared(found, parts, count, depth).free == found.free,
        decreases depth, 1nat, count,
    {
        if count > 0 {
            self.declaring_all_defines(found, parts, name, count - 1, depth);
            let before = self.all_declared(found, parts, count - 1, depth);
            self.declaring_defines(before, parts[count - 1], name, depth);
            if self.declares(parts[count - 1], name, depth) {
                assert(exists|i: int|
                    0 <= i < count && self.declares(#[trigger] parts[i], name, depth));
            }
        }
    }

    spec fn step_binds(self, step: Step, name: NameId, depth: nat) -> bool {
        match step {
            Step::Declare(pattern) => self.is_declared(pattern, name),
            Step::Define(own) => own == name,
            Step::Use(_) => false,
            Step::Walk(expr) => self.is_bound_in(expr, name, depth),
        }
    }

    spec fn step_uses(self, step: Step, name: NameId, depth: nat) -> bool {
        match step {
            Step::Use(own) => own == name,
            Step::Walk(expr) => self.is_used_free(expr, name, depth),
            _ => false,
        }
    }

    spec fn steps_bind(self, steps: Seq<Step>, count: int, name: NameId, depth: nat) -> bool {
        exists|i: int| 0 <= i < count && self.step_binds(#[trigger] steps[i], name, depth)
    }

    spec fn steps_use(self, steps: Seq<Step>, count: int, name: NameId, depth: nat) -> bool {
        exists|i: int|
            0 <= i < count && self.step_uses(#[trigger] steps[i], name, depth) && !self.steps_bind(
                steps,
                i,
                name,
                depth,
            )
    }

    proof fn stepping_finds(
        self,
        found: Found,
        steps: Seq<Step>,
        count: int,
        name: NameId,
        depth: nat,
    )
        requires
            0 <= count <= steps.len(),
            ascending(found.free),
        ensures
            ({
                let after = self.all_stepped(found, steps, count, depth);
                &&& ascending(after.free)
                &&& after.defined.contains(name) <==> found.defined.contains(name)
                    || self.steps_bind(steps, count, name, depth)
                &&& after.free.contains(name) <==> found.free.contains(name) || (
                !found.defined.contains(name) && self.steps_use(steps, count, name, depth))
            }),
        decreases depth, 2nat, count,
    {
        if count > 0 {
            self.stepping_finds(found, steps, count - 1, name, depth);
            let before = self.all_stepped(found, steps, count - 1, depth);
            let step = steps[count - 1];
            let after = self.all_stepped(found, steps, count, depth);
            reveal_with_fuel(ContextState::stepped, 2);
            assert(after == self.stepped(before, step, depth));
            match step {
                Step::Declare(pattern) => {
                    self.declaring_defines(before, pattern, name, NESTING_LIMIT as nat);
                },
                Step::Define(_) => {},
                Step::Use(own) => {
                    law_with_name(before.free, own);
                    assert(with_name(before.free, own).to_set().contains(name)
                        == before.free.to_set().insert(own).contains(name));
                    assert(before.free.to_set().contains(name) == before.free.contains(name));
                },
                Step::Walk(expr) => {
                    self.walking_finds(before, expr, name, depth);
                },
            }
            if self.step_binds(step, name, depth) {
                assert(self.steps_bind(steps, count, name, depth));
            }
            if self.steps_bind(steps, count - 1, name, depth) {
                let i = choose|i: int|
                    0 <= i < count - 1 && self.step_binds(#[trigger] steps[i], name, depth);
                assert(self.step_binds(steps[i], name, depth));
            }
            if self.step_uses(step, name, depth) && !self.steps_bind(steps, count - 1, name, depth) {
                assert(self.steps_use(steps, count, name, depth));
            }
            if self.steps_use(steps, count - 1, name, depth) {
                let i = choose|i: int|
                    0 <= i < count - 1 && self.step_uses(#[trigger] steps[i], name, depth)
                        && !self.steps_bind(steps, i, name, depth);
                assert(self.step_uses(steps[i], name, depth));
            }
        }
    }

    proof fn walking_finds(self, found: Found, expr: ExprId, name: NameId, depth: nat)
        requires
            ascending(found.free),
        ensures
            ({
                let after = self.walked(found, expr, depth);
                &&& ascending(after.free)
                &&& after.defined.contains(name) <==> found.defined.contains(name)
                    || self.is_bound_in(expr, name, depth)
                &&& after.free.contains(name) <==> found.free.contains(name) || (
                !found.defined.contains(name) && self.is_used_free(expr, name, depth))
            }),
        decreases depth, 0nat, 0int,
    {
        if depth > 0 {
            let steps = self.steps(expr) + walks(self.drops_at(expr));
            let inner = (depth - 1) as nat;
            self.stepping_finds(found, steps, steps.len() as int, name, inner);
            self.steps_tell(expr, name, inner);
        }
    }

    proof fn joined_steps(self, first: Seq<Step>, second: Seq<Step>, name: NameId, depth: nat)
        ensures
            self.steps_bind(first + second, (first + second).len() as int, name, depth)
                <==> self.steps_bind(first, first.len() as int, name, depth) || self.steps_bind(
                second,
                second.len() as int,
                name,
                depth,
            ),
            self.steps_use(first + second, (first + second).len() as int, name, depth)
                <==> self.steps_use(first, first.len() as int, name, depth) || (!self.steps_bind(
                first,
                first.len() as int,
                name,
                depth,
            ) && self.steps_use(second, second.len() as int, name, depth)),
    {
        let all = first + second;
        let count = first.len() as int;
        assert forall|i: int| 0 <= i <= count implies #[trigger] self.steps_bind(all, i, name, depth)
            == self.steps_bind(first, i, name, depth) by {
            if self.steps_bind(all, i, name, depth) {
                let j = choose|j: int|
                    0 <= j < i && self.step_binds(#[trigger] all[j], name, depth);
                assert(self.step_binds(first[j], name, depth));
            }
            if self.steps_bind(first, i, name, depth) {
                let j = choose|j: int|
                    0 <= j < i && self.step_binds(#[trigger] first[j], name, depth);
                assert(self.step_binds(all[j], name, depth));
            }
        }
        assert forall|i: int| 0 <= i <= second.len() implies #[trigger] self.steps_bind(
            second,
            i,
            name,
            depth,
        ) || self.steps_bind(first, count, name, depth) <==> self.steps_bind(
            all,
            count + i,
            name,
            depth,
        ) by {
            if self.steps_bind(second, i, name, depth) {
                let j = choose|j: int|
                    0 <= j < i && self.step_binds(#[trigger] second[j], name, depth);
                assert(self.step_binds(all[count + j], name, depth));
            }
            if self.steps_bind(first, count, name, depth) {
                let j = choose|j: int|
                    0 <= j < count && self.step_binds(#[trigger] first[j], name, depth);
                assert(self.step_binds(all[j], name, depth));
            }
            if self.steps_bind(all, count + i, name, depth) {
                let j = choose|j: int|
                    0 <= j < count + i && self.step_binds(#[trigger] all[j], name, depth);
                if j < count {
                    assert(self.step_binds(first[j], name, depth));
                } else {
                    assert(self.step_binds(second[j - count], name, depth));
                }
            }
        }
        assert(self.steps_bind(second, second.len() as int, name, depth) || self.steps_bind(
            first,
            count,
            name,
            depth,
        ) <==> self.steps_bind(all, all.len() as int, name, depth));
        if self.steps_use(all, all.len() as int, name, depth) {
            let i = choose|i: int|
                0 <= i < all.len() && self.step_uses(#[trigger] all[i], name, depth)
                    && !self.steps_bind(all, i, name, depth);
            if i < count {
                assert(self.step_uses(first[i], name, depth));
                assert(!self.steps_bind(first, i, name, depth));
            } else {
                assert(self.step_uses(second[i - count], name, depth));
                assert(!self.steps_bind(second, i - count, name, depth));
            }
        }
        if self.steps_use(first, count, name, depth) {
            let i = choose|i: int|
                0 <= i < count && self.step_uses(#[trigger] first[i], name, depth)
                    && !self.steps_bind(first, i, name, depth);
            assert(self.step_uses(all[i], name, depth));
            assert(!self.steps_bind(all, i, name, depth));
        }
        if !self.steps_bind(first, count, name, depth) && self.steps_use(
            second,
            second.len() as int,
            name,
            depth,
        ) {
            let i = choose|i: int|
                0 <= i < second.len() && self.step_uses(#[trigger] second[i], name, depth)
                    && !self.steps_bind(second, i, name, depth);
            assert(self.step_uses(all[count + i], name, depth));
            assert(!self.steps_bind(all, count + i, name, depth));
        }
    }

    proof fn one_step(self, step: Step, name: NameId, depth: nat)
        ensures
            self.steps_bind(seq![step], 1, name, depth) == self.step_binds(step, name, depth),
            self.steps_use(seq![step], 1, name, depth) == self.step_uses(step, name, depth),
    {
        let steps = seq![step];
        assert(steps[0] == step);
        assert(!self.steps_bind(steps, 0, name, depth));
    }

    proof fn walking_steps(self, exprs: Seq<ExprId>, name: NameId, depth: nat)
        ensures
            self.steps_bind(walks(exprs), exprs.len() as int, name, depth) <==> exists|i: int|
                0 <= i < exprs.len() && self.is_bound_in(#[trigger] exprs[i], name, depth),
            self.steps_use(walks(exprs), exprs.len() as int, name, depth) <==> exists|i: int|
                0 <= i < exprs.len() && self.is_used_free(#[trigger] exprs[i], name, depth) && (
                forall|j: int|
                    0 <= j < i ==> !self.is_bound_in(#[trigger] exprs[j], name, depth)),
    {
        let steps = walks(exprs);
        assert forall|i: int| 0 <= i < exprs.len() implies #[trigger] steps[i] == Step::Walk(
            exprs[i],
        ) by {}
        assert forall|i: int| 0 <= i <= exprs.len() implies (#[trigger] self.steps_bind(
            steps,
            i,
            name,
            depth,
        ) <==> exists|j: int|
            0 <= j < i && self.is_bound_in(#[trigger] exprs[j], name, depth)) by {
            if self.steps_bind(steps, i, name, depth) {
                let j = choose|j: int|
                    0 <= j < i && self.step_binds(#[trigger] steps[j], name, depth);
                assert(self.is_bound_in(exprs[j], name, depth));
            }
            if exists|j: int| 0 <= j < i && self.is_bound_in(#[trigger] exprs[j], name, depth) {
                let j = choose|j: int|
                    0 <= j < i && self.is_bound_in(#[trigger] exprs[j], name, depth);
                assert(self.step_binds(steps[j], name, depth));
            }
        }
        if self.steps_use(steps, exprs.len() as int, name, depth) {
            let i = choose|i: int|
                0 <= i < exprs.len() && self.step_uses(#[trigger] steps[i], name, depth)
                    && !self.steps_bind(steps, i, name, depth);
            assert(self.is_used_free(exprs[i], name, depth));
        }
        if exists|i: int|
            0 <= i < exprs.len() && self.is_used_free(#[trigger] exprs[i], name, depth) && (forall|
                j: int,
            |
                0 <= j < i ==> !self.is_bound_in(#[trigger] exprs[j], name, depth)) {
            let i = choose|i: int|
                0 <= i < exprs.len() && self.is_used_free(#[trigger] exprs[i], name, depth) && (
                forall|j: int| 0 <= j < i ==> !self.is_bound_in(#[trigger] exprs[j], name, depth));
            assert(self.step_uses(steps[i], name, depth));
            assert(!self.steps_bind(steps, i, name, depth));
        }
    }

    proof fn declaring_steps(self, patterns: Seq<PatternId>, name: NameId, depth: nat)
        ensures
            ({
                let steps = patterns.map_values(|pattern: PatternId| Step::Declare(pattern));
                &&& self.steps_bind(steps, steps.len() as int, name, depth) <==> exists|i: int|
                    0 <= i < patterns.len() && self.is_declared(#[trigger] patterns[i], name)
                &&& !self.steps_use(steps, steps.len() as int, name, depth)
            }),
    {
        let steps = patterns.map_values(|pattern: PatternId| Step::Declare(pattern));
        assert forall|i: int| 0 <= i < patterns.len() implies #[trigger] steps[i] == Step::Declare(
            patterns[i],
        ) by {}
        if self.steps_bind(steps, steps.len() as int, name, depth) {
            let i = choose|i: int|
                0 <= i < steps.len() && self.step_binds(#[trigger] steps[i], name, depth);
            assert(self.is_declared(patterns[i], name));
        }
        if exists|i: int| 0 <= i < patterns.len() && self.is_declared(#[trigger] patterns[i], name) {
            let i = choose|i: int|
                0 <= i < patterns.len() && self.is_declared(#[trigger] patterns[i], name);
            assert(self.step_binds(steps[i], name, depth));
        }
    }

    /// One of the first `count` cases binds the name, in its pattern or in its branch.
    spec fn cases_bind(
        self,
        cases: Seq<(PatternId, ExprId)>,
        count: int,
        name: NameId,
        depth: nat,
    ) -> bool {
        exists|i: int|
            0 <= i < count && (self.is_declared((#[trigger] cases[i]).0, name) || self.is_bound_in(
                cases[i].1,
                name,
                depth,
            ))
    }

    spec fn cases_use(
        self,
        cases: Seq<(PatternId, ExprId)>,
        count: int,
        name: NameId,
        depth: nat,
    ) -> bool {
        exists|i: int|
            0 <= i < count && self.is_used_free((#[trigger] cases[i]).1, name, depth)
                && !self.is_declared(cases[i].0, name) && !self.cases_bind(cases, i, name, depth)
    }

    proof fn case_steps_tell(
        self,
        cases: Seq<(PatternId, ExprId)>,
        count: int,
        name: NameId,
        depth: nat,
    )
        requires
            0 <= count <= cases.len(),
        ensures
            ({
                let steps = case_steps(cases, count);
                &&& self.steps_bind(steps, steps.len() as int, name, depth) <==> self.cases_bind(
                    cases,
                    count,
                    name,
                    depth,
                )
                &&& self.steps_use(steps, steps.len() as int, name, depth) <==> self.cases_use(
                    cases,
                    count,
                    name,
                    depth,
                )
            }),
        decreases count,
    {
        if count > 0 {
            self.case_steps_tell(cases, count - 1, name, depth);
            let (pattern, branch) = cases[count - 1];
            let declare = seq![Step::Declare(pattern)];
            let walk = seq![Step::Walk(branch)];
            let earlier = case_steps(cases, count - 1);
            self.one_step(Step::Declare(pattern), name, depth);
            self.one_step(Step::Walk(branch), name, depth);
            self.joined_steps(declare, walk, name, depth);
            assert(declare + walk =~= seq![Step::Declare(pattern), Step::Walk(branch)]);
            self.joined_steps(earlier, declare + walk, name, depth);
            if self.cases_bind(cases, count - 1, name, depth) {
                let i = choose|i: int|
                    0 <= i < count - 1 && (self.is_declared((#[trigger] cases[i]).0, name)
                        || self.is_bound_in(cases[i].1, name, depth));
                assert(self.is_declared(cases[i].0, name) || self.is_bound_in(
                    cases[i].1,
                    name,
                    depth,
                ));
            }
            if self.is_declared(pattern, name) || self.is_bound_in(branch, name, depth) {
                assert(self.is_declared(cases[count - 1].0, name) || self.is_bound_in(
                    cases[count - 1].1,
                    name,
                    depth,
                ));
            }
            if self.cases_use(cases, count - 1, name, depth) {
                let i = choose|i: int|
                    0 <= i < count - 1 && self.is_used_free((#[trigger] cases[i]).1, name, depth)
                        && !self.is_declared(cases[i].0, name) && !self.cases_bind(
                        cases,
                        i,
                        name,
                        depth,
                    );
                assert(self.is_used_free(cases[i].1, name, depth));
            }
            if self.is_used_free(branch, name, depth) && !self.is_declared(pattern, name)
                && !self.cases_bind(cases, count - 1, name, depth) {
                assert(self.is_used_free(cases[count - 1].1, name, depth));
            }
        }
    }

    spec fn handlers_bind(
        self,
        handlers: Seq<HandleForm>,
        count: int,
        name: NameId,
        depth: nat,
    ) -> bool {
        exists|i: int|
            0 <= i < count && (self.handler_binds(#[trigger] handlers[i], name) || self.is_bound_in(
                handlers[i].branch,
                name,
                depth,
            ))
    }

    spec fn handlers_use(
        self,
        handlers: Seq<HandleForm>,
        count: int,
        name: NameId,
        depth: nat,
    ) -> bool {
        exists|i: int|
            0 <= i < count && self.is_used_free((#[trigger] handlers[i]).branch, name, depth)
                && !self.handler_binds(handlers[i], name) && !self.handlers_bind(
                handlers,
                i,
                name,
                depth,
            )
    }

    proof fn handler_steps_tell(
        self,
        handlers: Seq<HandleForm>,
        count: int,
        name: NameId,
        depth: nat,
    )
        requires
            0 <= count <= handlers.len(),
        ensures
            ({
                let steps = handler_steps(handlers, count);
                &&& self.steps_bind(steps, steps.len() as int, name, depth)
                    <==> self.handlers_bind(handlers, count, name, depth)
                &&& self.steps_use(steps, steps.len() as int, name, depth) <==> self.handlers_use(
                    handlers,
                    count,
                    name,
                    depth,
                )
            }),
        decreases count,
    {
        if count > 0 {
            self.handler_steps_tell(handlers, count - 1, name, depth);
            let handler = handlers[count - 1];
            let declare = handler.args.map_values(|pattern: PatternId| Step::Declare(pattern));
            let define = seq![Step::Define(handler.resume_name)];
            let walk = seq![Step::Walk(handler.branch)];
            let earlier = handler_steps(handlers, count - 1);
            self.declaring_steps(handler.args, name, depth);
            self.one_step(Step::Define(handler.resume_name), name, depth);
            self.one_step(Step::Walk(handler.branch), name, depth);
            self.joined_steps(define, walk, name, depth);
            let last = seq![Step::Define(handler.resume_name), Step::Walk(handler.branch)];
            assert(define + walk =~= last);
            self.joined_steps(earlier, declare, name, depth);
            self.joined_steps(earlier + declare, last, name, depth);
            if self.handlers_bind(handlers, count - 1, name, depth) {
                let i = choose|i: int|
                    0 <= i < count - 1 && (self.handler_binds(#[trigger] handlers[i], name)
                        || self.is_bound_in(handlers[i].branch, name, depth));
                assert(self.handler_binds(handlers[i], name) || self.is_bound_in(
                    handlers[i].branch,
                    name,
                    depth,
                ));
            }
            if self.handler_binds(handler, name) || self.is_bound_in(handler.branch, name, depth) {
                assert(self.handler_binds(handlers[count - 1], name) || self.is_bound_in(
                    handlers[count - 1].branch,
                    name,
                    depth,
                ));
            }
            if self.handlers_use(handlers, count - 1, name, depth) {
                let i = choose|i: int|
                    0 <= i < count - 1 && self.is_used_free(
                        (#[trigger] handlers[i]).branch,
                        name,
                        depth,
                    ) && !self.handler_binds(handlers[i], name) && !self.handlers_bind(
                        handlers,
                        i,
                        name,
                        depth,
                    );
                assert(self.is_used_free(handlers[i].branch, name, depth));
            }
            if self.is_used_free(handler.branch, name, depth) && !self.handler_binds(handler, name)
                && !self.handlers_bind(handlers, count - 1, name, depth) {
                assert(self.is_used_free(handlers[count - 1].branch, name, depth));
            }
        }
    }

    /// The expression binds the name, or something directly inside it does.
    spec fn form_binds(self, expr: ExprId, name: NameId, depth: nat) -> bool {
        self.binds_somewhere(expr, name) || exists|i: int, child: ExprId| #[trigger]
            self.has_child(expr, i, child) && self.is_bound_in(child, name, depth)
    }

    spec fn form_uses(self, expr: ExprId, name: NameId, depth: nat) -> bool {
        ||| self.expr(expr) matches ExprForm::Variable(path) && self.path_origin(path) == Some(
            Origin::Local(name),
        )
        ||| exists|i: int, child: ExprId| #[trigger]
            self.has_child(expr, i, child) && !self.is_bound_before(expr, i, name, depth)
                && self.is_used_free(child, name, depth)
    }

    proof fn plain_steps_tell(self, expr: ExprId, name: NameId, depth: nat)
        requires
            !(self.expr(expr) is Variable),
            !(self.expr(expr) is Definition),
            !(self.expr(expr) is Lambda),
            !(self.expr(expr) is Match),
            !(self.expr(expr) is Handle),
            !(self.expr(expr) is For),
        ensures
            ({
                let steps = self.steps(expr);
                &&& self.steps_bind(steps, steps.len() as int, name, depth) <==> self.form_binds(
                    expr,
                    name,
                    depth,
                )
                &&& self.steps_use(steps, steps.len() as int, name, depth) <==> self.form_uses(
                    expr,
                    name,
                    depth,
                )
            }),
    {
        let children = self.expr(expr).children();
        let steps = self.steps(expr);
        assert(steps == walks(children));
        self.walking_steps(children, name, depth);
        assert forall|i: int, child: ExprId| #[trigger]
            self.has_child(expr, i, child) <==> 0 <= i < children.len() && children[i]
                == child by {}
        assert(!self.binds_somewhere(expr, name));
        if exists|i: int|
            0 <= i < children.len() && self.is_bound_in(#[trigger] children[i], name, depth) {
            let i = choose|i: int|
                0 <= i < children.len() && self.is_bound_in(#[trigger] children[i], name, depth);
            assert(self.has_child(expr, i, children[i]));
        }
        if self.form_binds(expr, name, depth) {
            let (i, child) = choose|i: int, child: ExprId| #[trigger]
                self.has_child(expr, i, child) && self.is_bound_in(child, name, depth);
            assert(self.is_bound_in(children[i], name, depth));
        }
        if self.steps_use(steps, steps.len() as int, name, depth) {
            let i = choose|i: int|
                0 <= i < children.len() && self.is_used_free(#[trigger] children[i], name, depth)
                    && (forall|j: int|
                    0 <= j < i ==> !self.is_bound_in(#[trigger] children[j], name, depth));
            assert(self.has_child(expr, i, children[i]));
            assert(!self.is_bound_before(expr, i, name, depth));
        }
        if self.form_uses(expr, name, depth) {
            let (i, child) = choose|i: int, child: ExprId| #[trigger]
                self.has_child(expr, i, child) && !self.is_bound_before(expr, i, name, depth)
                    && self.is_used_free(child, name, depth);
            assert forall|j: int| 0 <= j < i implies !self.is_bound_in(
                #[trigger] children[j],
                name,
                depth,
            ) by {
                assert(self.has_child(expr, j, children[j]));
            }
            assert(self.is_used_free(children[i], name, depth));
        }
    }

    proof fn match_steps_tell(self, expr: ExprId, name: NameId, depth: nat)
        requires
            self.expr(expr) is Match,
        ensures
            ({
                let steps = self.steps(expr);
                &&& self.steps_bind(steps, steps.len() as int, name, depth) <==> self.form_binds(
                    expr,
                    name,
                    depth,
                )
                &&& self.steps_use(steps, steps.len() as int, name, depth) <==> self.form_uses(
                    expr,
                    name,
                    depth,
                )
            }),
    {
        let expression = self.expr(expr)->Match_expression;
        let cases = self.expr(expr)->Match_cases;
        let count = cases.len() as int;
        let first = seq![Step::Walk(expression)];
        self.one_step(Step::Walk(expression), name, depth);
        self.case_steps_tell(cases, count, name, depth);
        self.joined_steps(first, case_steps(cases, count), name, depth);
        assert(self.has_child(expr, 0, expression));
        assert forall|i: int| 0 <= i < count implies self.has_child(
            expr,
            i + 1,
            (#[trigger] cases[i]).1,
        ) by {}
        if self.cases_bind(cases, count, name, depth) {
            let i = choose|i: int|
                0 <= i < count && (self.is_declared((#[trigger] cases[i]).0, name)
                    || self.is_bound_in(cases[i].1, name, depth));
            assert(self.has_child(expr, i + 1, cases[i].1));
            if self.is_declared(cases[i].0, name) {
                assert(self.binds_before(expr, i + 1, name));
            }
        }
        if self.binds_somewhere(expr, name) {
            let index = choose|index: int| #[trigger] self.binds_before(expr, index, name);
            let i = choose|i: int|
                0 <= i < index && i < count && self.is_declared((#[trigger] cases[i]).0, name);
            assert(self.is_declared(cases[i].0, name));
            assert(self.cases_bind(cases, count, name, depth));
        }
        if exists|i: int, child: ExprId| #[trigger]
            self.has_child(expr, i, child) && self.is_bound_in(child, name, depth) {
            let (i, child) = choose|i: int, child: ExprId| #[trigger]
                self.has_child(expr, i, child) && self.is_bound_in(child, name, depth);
            if i > 0 {
                assert(self.is_bound_in(cases[i - 1].1, name, depth));
                assert(self.cases_bind(cases, count, name, depth));
            }
        }
        assert forall|i: int| 0 <= i < count implies (self.is_bound_before(expr, i + 1, name, depth)
            <==> self.is_bound_in(expression, name, depth) || self.is_declared(
            (#[trigger] cases[i]).0,
            name,
        ) || self.cases_bind(cases, i, name, depth)) by {
            if self.is_bound_in(expression, name, depth) {
                assert(self.has_child(expr, 0, expression));
            }
            if self.is_declared(cases[i].0, name) {
                assert(self.binds_before(expr, i + 1, name));
            }
            if self.cases_bind(cases, i, name, depth) {
                let j = choose|j: int|
                    0 <= j < i && (self.is_declared((#[trigger] cases[j]).0, name)
                        || self.is_bound_in(cases[j].1, name, depth));
                assert(self.has_child(expr, j + 1, cases[j].1));
                if self.is_declared(cases[j].0, name) {
                    assert(self.binds_before(expr, i + 1, name));
                }
            }
            if self.binds_before(expr, i + 1, name) {
                let j = choose|j: int|
                    0 <= j < i + 1 && j < count && self.is_declared((#[trigger] cases[j]).0, name);
                if j < i {
                    assert(self.is_declared(cases[j].0, name));
                    assert(self.cases_bind(cases, i, name, depth));
                }
            }
            if exists|j: int, child: ExprId|
                j < i + 1 && #[trigger] self.has_child(expr, j, child) && self.is_bound_in(
                    child,
                    name,
                    depth,
                ) {
                let (j, child) = choose|j: int, child: ExprId|
                    j < i + 1 && #[trigger] self.has_child(expr, j, child) && self.is_bound_in(
                        child,
                        name,
                        depth,
                    );
                if j > 0 {
                    assert(self.is_bound_in(cases[j - 1].1, name, depth));
                    assert(self.cases_bind(cases, i, name, depth));
                }
            }
        }
        assert(!self.is_bound_before(expr, 0, name, depth));
        if self.cases_use(cases, count, name, depth) && !self.is_bound_in(expression, name, depth) {
            let i = choose|i: int|
                0 <= i < count && self.is_used_free((#[trigger] cases[i]).1, name, depth)
                    && !self.is_declared(cases[i].0, name) && !self.cases_bind(
                    cases,
                    i,
                    name,
                    depth,
                );
            assert(self.has_child(expr, i + 1, cases[i].1));
            assert(!self.is_bound_before(expr, i + 1, name, depth));
        }
        if self.form_uses(expr, name, depth) {
            let (i, child) = choose|i: int, child: ExprId| #[trigger]
                self.has_child(expr, i, child) && !self.is_bound_before(expr, i, name, depth)
                    && self.is_used_free(child, name, depth);
            if i > 0 {
                assert(self.is_used_free(cases[i - 1].1, name, depth));
                assert(!self.is_bound_before(expr, (i - 1) + 1, name, depth));
                assert(self.cases_use(cases, count, name, depth));
            }
        }
    }

    proof fn handle_steps_tell(self, expr: ExprId, name: NameId, depth: nat)
        requires
            self.expr(expr) is Handle,
        ensures
            ({
                let steps = self.steps(expr);
                &&& self.steps_bind(steps, steps.len() as int, name, depth) <==> self.form_binds(
                    expr,
                    name,
                    depth,
                )
                &&& self.steps_use(steps, steps.len() as int, name, depth) <==> self.form_uses(
                    expr,
                    name,
                    depth,
                )
            }),
    {
        let expression = self.expr(expr)->Handle_expression;
        let own = self.expr(expr)->Handle_handler_name;
        let handlers = self.expr(expr)->Handle_handlers;
        let count = handlers.len() as int;
        let first = seq![Step::Define(own), Step::Walk(expression)];
        self.one_step(Step::Define(own), name, depth);
        self.one_step(Step::Walk(expression), name, depth);
        self.joined_steps(seq![Step::Define(own)], seq![Step::Walk(expression)], name, depth);
        assert(seq![Step::Define(own)] + seq![Step::Walk(expression)] =~= first);
        self.handler_steps_tell(handlers, count, name, depth);
        self.joined_steps(first, handler_steps(handlers, count), name, depth);
        assert(self.has_child(expr, 0, expression));
        if own == name {
            assert(self.binds_before(expr, 0, name));
        }
        if self.handlers_bind(handlers, count, name, depth) {
            let i = choose|i: int|
                0 <= i < count && (self.handler_binds(#[trigger] handlers[i], name)
                    || self.is_bound_in(handlers[i].branch, name, depth));
            assert(self.has_child(expr, i + 1, handlers[i].branch));
            if self.handler_binds(handlers[i], name) {
                assert(self.binds_before(expr, i + 1, name));
            }
        }
        if self.binds_somewhere(expr, name) && own != name {
            let index = choose|index: int| #[trigger] self.binds_before(expr, index, name);
            let i = choose|i: int|
                0 <= i < index && i < count && self.handler_binds(#[trigger] handlers[i], name);
            assert(self.handler_binds(handlers[i], name));
            assert(self.handlers_bind(handlers, count, name, depth));
        }
        if exists|i: int, child: ExprId| #[trigger]
            self.has_child(expr, i, child) && self.is_bound_in(child, name, depth) {
            let (i, child) = choose|i: int, child: ExprId| #[trigger]
                self.has_child(expr, i, child) && self.is_bound_in(child, name, depth);
            if i > 0 {
                assert(self.is_bound_in(handlers[i - 1].branch, name, depth));
                assert(self.handlers_bind(handlers, count, name, depth));
            }
        }
        assert forall|i: int| 0 <= i < count implies (self.is_bound_before(expr, i + 1, name, depth)
            <==> own == name || self.is_bound_in(expression, name, depth) || self.handler_binds(
            #[trigger] handlers[i],
            name,
        ) || self.handlers_bind(handlers, i, name, depth)) by {
            if self.is_bound_in(expression, name, depth) {
                assert(self.has_child(expr, 0, expression));
            }
            if self.handler_binds(handlers[i], name) {
                assert(self.binds_before(expr, i + 1, name));
            }
            if self.handlers_bind(handlers, i, name, depth) {
                let j = choose|j: int|
                    0 <= j < i && (self.handler_binds(#[trigger] handlers[j], name)
                        || self.is_bound_in(handlers[j].branch, name, depth));
                assert(self.has_child(expr, j + 1, handlers[j].branch));
                if self.handler_binds(handlers[j], name) {
                    assert(self.binds_before(expr, i + 1, name));
                }
            }
            if self.binds_before(expr, i + 1, name) && own != name {
                let j = choose|j: int|
                    0 <= j < i + 1 && j < count && self.handler_binds(
                        #[trigger] handlers[j],
                        name,
                    );
                if j < i {
                    assert(self.handler_binds(handlers[j], name));
                    assert(self.handlers_bind(handlers, i, name, depth));
                }
            }
            if exists|j: int, child: ExprId|
                j < i + 1 && #[trigger] self.has_child(expr, j, child) && self.is_bound_in(
                    child,
                    name,
                    depth,
                ) {
                let (j, child) = choose|j: int, child: ExprId|
                    j < i + 1 && #[trigger] self.has_child(expr, j, child) && self.is_bound_in(
                        child,
                        name,
                        depth,
                    );
                if j > 0 {
                    assert(self.is_bound_in(handlers[j - 1].branch, name, depth));
                    assert(self.handlers_bind(handlers, i, name, depth));
                }
            }
        }
        assert(self.is_bound_before(expr, 0, name, depth) <==> own == name);
        if self.handlers_use(handlers, count, name, depth) && own != name && !self.is_bound_in(
            expression,
            name,
            depth,
        ) {
            let i = choose|i: int|
                0 <= i < count && self.is_used_free((#[trigger] handlers[i]).branch, name, depth)
                    && !self.handler_binds(handlers[i], name) && !self.handlers_bind(
                    handlers,
                    i,
                    name,
                    depth,
                );
            assert(self.has_child(expr, i + 1, handlers[i].branch));
            assert(!self.is_bound_before(expr, i + 1, name, depth));
        }
        if self.form_uses(expr, name, depth) {
            let (i, child) = choose|i: int, child: ExprId| #[trigger]
                self.has_child(expr, i, child) && !self.is_bound_before(expr, i, name, depth)
                    && self.is_used_free(child, name, depth);
            if i > 0 {
                assert(self.is_used_free(handlers[i - 1].branch, name, depth));
                assert(!self.is_bound_before(expr, (i - 1) + 1, name, depth));
                assert(self.handlers_use(handlers, count, name, depth));
            }
        }
    }

    proof fn short_steps_tell(self, expr: ExprId, name: NameId, depth: nat)
        requires
            self.expr(expr) is Variable || self.expr(expr) is Definition || self.expr(expr) is Lambda
                || self.expr(expr) is For,
        ensures
            ({
                let steps = self.steps(expr);
                &&& self.steps_bind(steps, steps.len() as int, name, depth) <==> self.form_binds(
                    expr,
                    name,
                    depth,
                )
                &&& self.steps_use(steps, steps.len() as int, name, depth) <==> self.form_uses(
                    expr,
                    name,
                    depth,
                )
            }),
    {
        let steps = self.steps(expr);
        match self.expr(expr) {
            ExprForm::Variable(path) => {
                assert(!self.binds_somewhere(expr, name));
                match self.local(path) {
                    Some(own) => {
                        self.one_step(Step::Use(own), name, depth);
                    },
                    None => {},
                }
            },
            ExprForm::Definition(definition) => {
                let declare = Step::Declare(definition.pattern);
                let walk = Step::Walk(definition.rhs);
                self.one_step(declare, name, depth);
                self.one_step(walk, name, depth);
                self.joined_steps(seq![declare], seq![walk], name, depth);
                assert(seq![declare] + seq![walk] =~= steps);
                self.only_child_tells(expr, definition.rhs, name, depth);
            },
            ExprForm::Lambda { parameters, body, .. } => {
                let patterns = parameters.map_values(|parameter: Parameter| parameter.pattern);
                let declare = patterns.map_values(|pattern: PatternId| Step::Declare(pattern));
                self.declaring_steps(patterns, name, depth);
                self.one_step(Step::Walk(body), name, depth);
                self.joined_steps(declare, seq![Step::Walk(body)], name, depth);
                assert(declare + seq![Step::Walk(body)] =~= steps);
                if exists|i: int|
                    0 <= i < patterns.len() && self.is_declared(#[trigger] patterns[i], name) {
                    let i = choose|i: int|
                        0 <= i < patterns.len() && self.is_declared(#[trigger] patterns[i], name);
                    assert(self.is_declared(parameters[i].pattern, name));
                }
                if self.binds_before(expr, 0, name) {
                    let i = choose|i: int|
                        0 <= i < parameters.len() && self.is_declared(
                            (#[trigger] parameters[i]).pattern,
                            name,
                        );
                    assert(self.is_declared(patterns[i], name));
                }
                self.only_child_tells(expr, body, name, depth);
            },
            ExprForm::For { variable, start, end, body } => {
                let a = Step::Walk(start);
                let b = Step::Walk(end);
                let c = Step::Define(variable);
                let d = Step::Walk(body);
                self.one_step(a, name, depth);
                self.one_step(b, name, depth);
                self.one_step(c, name, depth);
                self.one_step(d, name, depth);
                self.joined_steps(seq![a], seq![b], name, depth);
                self.joined_steps(seq![c], seq![d], name, depth);
                self.joined_steps(seq![a] + seq![b], seq![c] + seq![d], name, depth);
                assert((seq![a] + seq![b]) + (seq![c] + seq![d]) =~= steps);
                assert(self.has_child(expr, 0, start));
                assert(self.has_child(expr, 1, end));
                assert(self.has_child(expr, 2, body));
                if variable == name {
                    assert(self.binds_before(expr, 2, name));
                }
                assert(!self.is_bound_before(expr, 0, name, depth));
                assert(self.is_bound_before(expr, 1, name, depth) == self.is_bound_in(
                    start,
                    name,
                    depth,
                ));
                assert(self.is_bound_before(expr, 2, name, depth) == (self.is_bound_in(
                    start,
                    name,
                    depth,
                ) || self.is_bound_in(end, name, depth) || variable == name));
            },
            _ => {},
        }
    }

    proof fn only_child_tells(self, expr: ExprId, child: ExprId, name: NameId, depth: nat)
        requires
            self.expr(expr) is Definition || self.expr(expr) is Lambda,
            forall|i: int, other: ExprId| #[trigger]
                self.has_child(expr, i, other) <==> i == 0 && other == child,
        ensures
            self.form_binds(expr, name, depth) <==> self.binds_before(expr, 0, name)
                || self.is_bound_in(child, name, depth),
            self.form_uses(expr, name, depth) <==> !self.binds_before(expr, 0, name)
                && self.is_used_free(child, name, depth),
    {
        assert(self.has_child(expr, 0, child));
        assert(self.is_bound_before(expr, 0, name, depth) == self.binds_before(expr, 0, name));
        if self.binds_somewhere(expr, name) {
            let index = choose|index: int| #[trigger] self.binds_before(expr, index, name);
            assert(self.binds_before(expr, 0, name));
        }
    }

    proof fn steps_tell(self, expr: ExprId, name: NameId, depth: nat)
        ensures
            ({
                let steps = self.steps(expr) + walks(self.drops_at(expr));
                &&& self.steps_bind(steps, steps.len() as int, name, depth) <==> self.is_bound_in(
                    expr,
                    name,
                    depth + 1,
                )
                &&& self.steps_use(steps, steps.len() as int, name, depth) <==> self.is_used_free(
                    expr,
                    name,
                    depth + 1,
                )
            }),
    {
        match self.expr(expr) {
            ExprForm::Match { .. } => {
                self.match_steps_tell(expr, name, depth);
            },
            ExprForm::Handle { .. } => {
                self.handle_steps_tell(expr, name, depth);
            },
            ExprForm::Variable(_)
            | ExprForm::Definition(_)
            | ExprForm::Lambda { .. }
            | ExprForm::For { .. } => {
                self.short_steps_tell(expr, name, depth);
            },
            _ => {
                self.plain_steps_tell(expr, name, depth);
            },
        }
        let drops = self.drops_recorded(expr);
        assert(self.drops_at(expr) =~= drops);
        self.walking_steps(drops, name, depth);
        self.joined_steps(self.steps(expr), walks(drops), name, depth);
        if self.steps_use(walks(drops), drops.len() as int, name, depth) && !self.form_binds(
            expr,
            name,
            depth,
        ) {
            let i = choose|i: int|
                0 <= i < drops.len() && self.is_used_free(#[trigger] drops[i], name, depth) && (
                forall|j: int| 0 <= j < i ==> !self.is_bound_in(#[trigger] drops[j], name, depth));
            assert(self.is_used_free(drops[i], name, depth));
            assert(self.is_used_free(expr, name, depth + 1));
        }
    }

    /// The free names of an expression are those that it uses without binding them first: the name
    /// is not defined outside already, and some variable in the expression, or in a drop that runs
    /// there, refers to it with nothing on the way before it that binds it.
    pub proof fn law_free_names_are_used_and_not_bound(
        self,
        expr: ExprId,
        defined: Set<NameId>,
        name: NameId,
    )
        ensures
            self.free_names(expr, defined).contains(name) <==> !defined.contains(name)
                && self.is_used_free(expr, name, NESTING_LIMIT as nat),
    {
        let found = Found { free: Seq::empty(), defined };
        self.walking_finds(found, expr, name, NESTING_LIMIT as nat);
    }
}

} // verus!

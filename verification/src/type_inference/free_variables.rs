//! What closures capture.

use crate::collections::{insert_all, is_listed, remove_all, set_contains, set_insert};
use crate::cst::{list_at, put_list, Context, Expr, Pattern};
#[allow(unused_imports)]
use crate::cst::{ContextState, ExprForm, HandleForm, PatternForm};
use crate::ids::{ExprId, NameId, PatternId, NESTING_LIMIT};
use crate::type_inference::checker::{Request, TypeChecker};
#[allow(unused_imports)]
use crate::type_inference::checker::State;
use crate::types::{PrimitiveType, ReferenceKind, Type, TypeBindings, TypeList};
use rustc_hash::FxHashSet;
use vstd::prelude::*;

verus! {

broadcast use vstd::seq_lib::group_seq_properties;

/// How many of the first names of `names` are lower than `name`.
pub open spec fn lower_names(names: Seq<NameId>, name: NameId) -> int
    decreases names.len(),
{
    if names.len() == 0 || name <= names[0] {
        0
    } else {
        1 + lower_names(names.drop_first(), name)
    }
}

/// `names`, which are in order, with `name` among them.
pub open spec fn with_name(names: Seq<NameId>, name: NameId) -> Seq<NameId> {
    let at = lower_names(names, name);
    if at < names.len() && names[at] == name {
        names
    } else {
        names.insert(at, name)
    }
}

/// Every name is higher than those before it.
pub open spec fn ascending(names: Seq<NameId>) -> bool {
    forall|i: int, j: int| 0 <= i < j < names.len() ==> names[i] < names[j]
}

proof fn lower_names_is_first(names: Seq<NameId>, name: NameId, at: int)
    requires
        0 <= at <= names.len(),
        forall|i: int| 0 <= i < at ==> #[trigger] names[i] < name,
        at < names.len() ==> name <= names[at],
    ensures
        lower_names(names, name) == at,
    decreases names.len(),
{
    if at > 0 {
        assert(names[0] < name);
        let rest = names.drop_first();
        assert forall|i: int| 0 <= i < at - 1 implies #[trigger] rest[i] < name by {
            assert(rest[i] == names[i + 1]);
        }
        lower_names_is_first(rest, name, at - 1);
    }
}

proof fn lower_names_is_within(names: Seq<NameId>, name: NameId)
    ensures
        0 <= lower_names(names, name) <= names.len(),
        forall|i: int| 0 <= i < lower_names(names, name) ==> #[trigger] names[i] < name,
        lower_names(names, name) < names.len() ==> name <= names[lower_names(names, name)],
    decreases names.len(),
{
    if names.len() > 0 && name > names[0] {
        let rest = names.drop_first();
        lower_names_is_within(rest, name);
        assert forall|i: int| 0 <= i < lower_names(names, name) implies #[trigger] names[i]
            < name by {
            if i > 0 {
                assert(rest[i - 1] == names[i]);
            }
        }
    }
}

/// Adding a name keeps names in order and each of them once, and adds nothing else.
pub proof fn law_with_name(names: Seq<NameId>, name: NameId)
    requires
        ascending(names),
    ensures
        ascending(with_name(names, name)),
        with_name(names, name).to_set() == names.to_set().insert(name),
{
    lower_names_is_within(names, name);
    let at = lower_names(names, name);
    let after = with_name(names, name);
    if at < names.len() && names[at] == name {
        assert(names.contains(name));
        assert(after.to_set() =~= names.to_set().insert(name));
    } else {
        assert forall|other: NameId| #[trigger] after.contains(other) == (names.contains(other)
            || other == name) by {
            if names.contains(other) {
                let i = choose|i: int| 0 <= i < names.len() && names[i] == other;
                if i < at {
                    assert(after[i] == other);
                } else {
                    assert(after[i + 1] == other);
                }
            }
            assert(after[at] == name);
            if after.contains(other) && other != name {
                let i = choose|i: int| 0 <= i < after.len() && after[i] == other;
                if i < at {
                    assert(names[i] == other);
                } else {
                    assert(names[i - 1] == other);
                }
            }
        }
        assert(after.to_set() =~= names.to_set().insert(name));
    }
}

/// What a walk over an expression came upon.
#[verifier::ext_equal]
pub struct Found {
    /// The names used before they were defined, in order.
    pub free: Seq<NameId>,
    pub defined: Set<NameId>,
}

impl Found {
    pub open spec fn nothing() -> Found {
        Found { free: Seq::empty(), defined: Set::empty() }
    }

    pub open spec fn with_defined(self, name: NameId) -> Found {
        Found { defined: self.defined.insert(name), ..self }
    }

    pub open spec fn with_used(self, name: NameId) -> Found {
        if self.defined.contains(name) {
            self
        } else {
            Found { free: with_name(self.free, name), ..self }
        }
    }
}

/// What a walk does at an expression.
#[derive(Clone, Copy, Debug, PartialEq, Eq, Structural)]
pub enum Step {
    /// Define the names of a pattern.
    Declare(PatternId),
    /// Define a name.
    Define(NameId),
    /// Use a name.
    Use(NameId),
    /// Walk over an expression.
    Walk(ExprId),
}

/// The steps at the first `count` cases of a match.
pub open spec fn case_steps(cases: Seq<(PatternId, ExprId)>, count: int) -> Seq<Step>
    decreases count,
{
    if count <= 0 {
        Seq::empty()
    } else {
        case_steps(cases, count - 1) + seq![
            Step::Declare(cases[count - 1].0),
            Step::Walk(cases[count - 1].1),
        ]
    }
}

/// The steps at the first `count` handlers of a handle.
pub open spec fn handler_steps(handlers: Seq<HandleForm>, count: int) -> Seq<Step>
    decreases count,
{
    if count <= 0 {
        Seq::empty()
    } else {
        let handler = handlers[count - 1];
        handler_steps(handlers, count - 1) + handler.args.map_values(
            |pattern: PatternId| Step::Declare(pattern),
        ) + seq![Step::Define(handler.resume_name), Step::Walk(handler.branch)]
    }
}

pub open spec fn walks(exprs: Seq<ExprId>) -> Seq<Step> {
    exprs.map_values(|expr: ExprId| Step::Walk(expr))
}

impl ContextState {
    /// The steps at an expression.
    pub open spec fn steps(self, expr: ExprId) -> Seq<Step> {
        match self.expr(expr) {
            ExprForm::Variable(path) => match self.local(path) {
                Some(name) => seq![Step::Use(name)],
                None => Seq::empty(),
            },
            ExprForm::Definition(definition) => seq![
                Step::Declare(definition.pattern),
                Step::Walk(definition.rhs),
            ],
            ExprForm::Lambda { parameters, body, .. } => parameters.map_values(
                |parameter: crate::cst::Parameter| Step::Declare(parameter.pattern),
            ) + seq![Step::Walk(body)],
            ExprForm::Match { expression, cases } => seq![Step::Walk(expression)] + case_steps(
                cases,
                cases.len() as int,
            ),
            // The handler and the `resume` of each branch are names of the handle itself.
            ExprForm::Handle { expression, handler_name, handlers } => seq![
                Step::Define(handler_name),
                Step::Walk(expression),
            ] + handler_steps(handlers, handlers.len() as int),
            ExprForm::For { variable, start, end, body } => seq![
                Step::Walk(start),
                Step::Walk(end),
                Step::Define(variable),
                Step::Walk(body),
            ],
            other => walks(other.children()),
        }
    }

    /// The drops that run at an expression.
    pub open spec fn drops_at(self, expr: ExprId) -> Seq<ExprId> {
        ContextState::drops_in(self.post_expr_drops, expr) + ContextState::drops_in(
            self.pre_exit_drops,
            expr,
        ) + ContextState::drops_in(self.implicit_else_drops, expr)
    }

    /// What is found once the names of a pattern are defined.
    pub open spec fn declared(self, found: Found, pattern: PatternId, depth: nat) -> Found
        decreases depth, 0nat, 0int,
    {
        if depth == 0 {
            found
        } else {
            let depth = (depth - 1) as nat;
            match self.pattern(pattern) {
                PatternForm::Error | PatternForm::Literal => found,
                PatternForm::Variable(name) => found.with_defined(name),
                PatternForm::MethodName { item_name } => found.with_defined(item_name),
                PatternForm::Constructor(_, arguments) => self.all_declared(
                    found,
                    arguments,
                    arguments.len() as int,
                    depth,
                ),
                PatternForm::TypeAnnotation(inner) => self.declared(found, inner, depth),
                // Every alternative defines the same names.
                PatternForm::Or(alternatives) => if alternatives.len() > 0 {
                    self.declared(found, alternatives[0], depth)
                } else {
                    found
                },
                PatternForm::Alias(name, inner) => self.declared(
                    found.with_defined(name),
                    inner,
                    depth,
                ),
            }
        }
    }

    pub open spec fn all_declared(
        self,
        found: Found,
        patterns: Seq<PatternId>,
        count: int,
        depth: nat,
    ) -> Found
        decreases depth, 1nat, count,
    {
        if count <= 0 {
            found
        } else {
            self.declared(
                self.all_declared(found, patterns, count - 1, depth),
                patterns[count - 1],
                depth,
            )
        }
    }

    /// What is found once a step was done.
    pub open spec fn stepped(self, found: Found, step: Step, depth: nat) -> Found
        decreases depth, 1nat, 0int,
    {
        match step {
            Step::Declare(pattern) => self.declared(found, pattern, NESTING_LIMIT as nat),
            Step::Define(name) => found.with_defined(name),
            Step::Use(name) => found.with_used(name),
            Step::Walk(expr) => self.walked(found, expr, depth),
        }
    }

    /// What is found once the first `count` steps were done.
    pub open spec fn all_stepped(self, found: Found, steps: Seq<Step>, count: int, depth: nat) -> Found
        decreases depth, 2nat, count,
    {
        if count <= 0 {
            found
        } else {
            self.stepped(
                self.all_stepped(found, steps, count - 1, depth),
                steps[count - 1],
                depth,
            )
        }
    }

    /// What is found once an expression was walked over: first the expression itself, then the
    /// drops that run there, which refer to names that it declares.
    pub open spec fn walked(self, found: Found, expr: ExprId, depth: nat) -> Found
        decreases depth, 0nat, 0int,
    {
        if depth == 0 {
            found
        } else {
            let depth = (depth - 1) as nat;
            let steps = self.steps(expr) + walks(self.drops_at(expr));
            self.all_stepped(found, steps, steps.len() as int, depth)
        }
    }

    /// The names used in an expression that are not defined in it, nor in `defined`.
    pub open spec fn free_names(self, expr: ExprId, defined: Set<NameId>) -> Seq<NameId> {
        self.walked(Found { free: Seq::empty(), defined }, expr, NESTING_LIMIT as nat).free
    }

    proof fn steps_keep_order(self, found: Found, steps: Seq<Step>, count: int, depth: nat)
        requires
            ascending(found.free),
            0 <= count <= steps.len(),
        ensures
            ascending(self.all_stepped(found, steps, count, depth).free),
        decreases depth, 2nat, count,
    {
        if count > 0 {
            self.steps_keep_order(found, steps, count - 1, depth);
            let before = self.all_stepped(found, steps, count - 1, depth);
            reveal_with_fuel(ContextState::stepped, 2);
            assert(self.all_stepped(found, steps, count, depth) == self.stepped(
                before,
                steps[count - 1],
                depth,
            ));
            match steps[count - 1] {
                Step::Declare(pattern) => self.declaring_keeps_free(
                    before,
                    pattern,
                    NESTING_LIMIT as nat,
                ),
                Step::Define(_) => {},
                Step::Use(name) => law_with_name(before.free, name),
                Step::Walk(expr) => self.walk_keeps_order(before, expr, depth),
            }
        }
    }

    proof fn walk_keeps_order(self, found: Found, expr: ExprId, depth: nat)
        requires
            ascending(found.free),
        ensures
            ascending(self.walked(found, expr, depth).free),
        decreases depth, 0nat, 0int,
    {
        if depth > 0 {
            let steps = self.steps(expr) + walks(self.drops_at(expr));
            self.steps_keep_order(found, steps, steps.len() as int, (depth - 1) as nat);
        }
    }

    proof fn declaring_keeps_free(self, found: Found, pattern: PatternId, depth: nat)
        ensures
            self.declared(found, pattern, depth).free == found.free,
        decreases depth, 0nat, 0int,
    {
        if depth > 0 {
            let depth = (depth - 1) as nat;
            match self.pattern(pattern) {
                PatternForm::Constructor(_, arguments) => {
                    self.declaring_all_keeps_free(found, arguments, arguments.len() as int, depth);
                },
                PatternForm::TypeAnnotation(inner) => {
                    self.declaring_keeps_free(found, inner, depth);
                },
                PatternForm::Or(alternatives) => {
                    if alternatives.len() > 0 {
                        self.declaring_keeps_free(found, alternatives[0], depth);
                    }
                },
                PatternForm::Alias(name, inner) => {
                    self.declaring_keeps_free(found.with_defined(name), inner, depth);
                },
                _ => {},
            }
        }
    }

    proof fn declaring_all_keeps_free(
        self,
        found: Found,
        patterns: Seq<PatternId>,
        count: int,
        depth: nat,
    )
        ensures
            self.all_declared(found, patterns, count, depth).free == found.free,
        decreases depth, 1nat, count,
    {
        if count > 0 {
            self.declaring_all_keeps_free(found, patterns, count - 1, depth);
            self.declaring_keeps_free(
                self.all_declared(found, patterns, count - 1, depth),
                patterns[count - 1],
                depth,
            );
        }
    }

    /// The free names of an expression are in order, each of them once.
    pub proof fn law_free_names_are_ascending(self, expr: ExprId, defined: Set<NameId>)
        ensures
            ascending(self.free_names(expr, defined)),
    {
        self.walk_keeps_order(
            Found { free: Seq::empty(), defined },
            expr,
            NESTING_LIMIT as nat,
        );
    }
}

/// A walk that looks for free variables.
pub struct FreeVars {
    /// The free variables found, in order.
    pub free_vars: Vec<NameId>,
    /// What is defined on the way, whatever the scope.
    pub defined_in_fn: FxHashSet<NameId>,
}

impl View for FreeVars {
    type V = Found;

    open spec fn view(&self) -> Found {
        Found { free: self.free_vars@, defined: self.defined_in_fn@ }
    }
}

/// The steps at an expression.
fn steps_at(context: &Context, expr: ExprId) -> (steps: Vec<Step>)
    ensures
        steps@ == context@.steps(expr),
{
    let form = context.expr(expr);
    let mut steps: Vec<Step> = Vec::new();
    match form {
        Expr::Variable(path) => {
            match context.local(*path) {
                Some(name) => {
                    steps.push(Step::Use(name));
                },
                None => {},
            }
        },
        Expr::Definition(definition) => {
            steps.push(Step::Declare(definition.pattern));
            steps.push(Step::Walk(definition.rhs));
        },
        Expr::Lambda { parameters, body, .. } => {
            let mut i: usize = 0;
            while i < parameters.len()
                invariant
                    i <= parameters.len(),
                    steps@ == parameters@.take(i as int).map_values(
                        |parameter: crate::cst::Parameter| Step::Declare(parameter.pattern),
                    ),
                decreases parameters.len() - i,
            {
                steps.push(Step::Declare(parameters[i].pattern));
                assert(parameters@.take(i + 1) =~= parameters@.take(i as int).push(
                    parameters@[i as int],
                ));
                i += 1;
            }
            assert(parameters@.take(i as int) =~= parameters@);
            steps.push(Step::Walk(*body));
        },
        Expr::Match { expression, cases } => {
            steps.push(Step::Walk(*expression));
            let mut i: usize = 0;
            while i < cases.len()
                invariant
                    i <= cases.len(),
                    steps@ == seq![Step::Walk(*expression)] + case_steps(cases@, i as int),
                decreases cases.len() - i,
            {
                steps.push(Step::Declare(cases[i].0));
                steps.push(Step::Walk(cases[i].1));
                i += 1;
            }
        },
        Expr::Handle { expression, handler_name, handlers } => {
            steps.push(Step::Define(*handler_name));
            steps.push(Step::Walk(*expression));
            let ghost first = steps@;
            let ghost forms = handlers@.map_values(|handler: crate::cst::HandleCase| handler@);
            let mut i: usize = 0;
            while i < handlers.len()
                invariant
                    i <= handlers.len(),
                    forms == handlers@.map_values(|handler: crate::cst::HandleCase| handler@),
                    steps@ == first + handler_steps(forms, i as int),
                decreases handlers.len() - i,
            {
                let args = &handlers[i].args;
                let ghost start = steps@;
                let mut j: usize = 0;
                while j < args.len()
                    invariant
                        j <= args.len(),
                        steps@ == start + args@.take(j as int).map_values(
                            |pattern: PatternId| Step::Declare(pattern),
                        ),
                    decreases args.len() - j,
                {
                    steps.push(Step::Declare(args[j]));
                    assert(args@.take(j + 1) =~= args@.take(j as int).push(args@[j as int]));
                    j += 1;
                }
                assert(args@.take(j as int) =~= args@);
                steps.push(Step::Define(handlers[i].resume_name));
                steps.push(Step::Walk(handlers[i].branch));
                assert(steps@ =~= first + handler_steps(forms, i + 1));
                i += 1;
            }
        },
        Expr::For { variable, start, end, body } => {
            steps.push(Step::Walk(*start));
            steps.push(Step::Walk(*end));
            steps.push(Step::Define(*variable));
            steps.push(Step::Walk(*body));
        },
        other => {
            let children = other.children();
            push_walks(&mut steps, &children);
        },
    }
    assert(steps@ =~= context@.steps(expr));
    steps
}

fn push_walks(steps: &mut Vec<Step>, exprs: &Vec<ExprId>)
    ensures
        final(steps)@ == old(steps)@ + walks(exprs@),
{
    let mut i: usize = 0;
    while i < exprs.len()
        invariant
            i <= exprs.len(),
            steps@ == old(steps)@ + walks(exprs@.take(i as int)),
        decreases exprs.len() - i,
    {
        steps.push(Step::Walk(exprs[i]));
        assert(exprs@.take(i + 1) =~= exprs@.take(i as int).push(exprs@[i as int]));
        i += 1;
    }
    assert(exprs@.take(i as int) =~= exprs@);
}

impl FreeVars {
    pub fn new() -> (vars: FreeVars)
        ensures
            vars@ == Found::nothing(),
    {
        FreeVars { free_vars: Vec::new(), defined_in_fn: FxHashSet::default() }
    }

    /// Note the use of a name.
    fn check_name(&mut self, name: NameId)
        ensures
            final(self)@ == old(self)@.with_used(name),
    {
        if set_contains(&self.defined_in_fn, name) {
            return ;
        }
        let mut at: usize = 0;
        while at < self.free_vars.len() && self.free_vars[at] < name
            invariant
                at <= self.free_vars.len(),
                forall|i: int| 0 <= i < at ==> #[trigger] self.free_vars@[i] < name,
            decreases self.free_vars.len() - at,
        {
            at += 1;
        }
        proof {
            lower_names_is_first(self.free_vars@, name, at as int);
        }
        if at < self.free_vars.len() && self.free_vars[at] == name {
            return ;
        }
        self.free_vars.insert(at, name);
    }

    /// Define the names of a pattern.
    fn declare_pattern(&mut self, pattern: PatternId, context: &Context, depth: u64)
        ensures
            final(self)@ == context@.declared(old(self)@, pattern, depth as nat),
        decreases depth, 0nat,
    {
        if depth == 0 {
            return ;
        }
        match context.pattern(pattern) {
            Pattern::Error => {},
            Pattern::Literal => {},
            Pattern::Variable(name) => {
                set_insert(&mut self.defined_in_fn, *name);
            },
            Pattern::MethodName { item_name } => {
                set_insert(&mut self.defined_in_fn, *item_name);
            },
            Pattern::Constructor(_, arguments) => {
                let mut i: usize = 0;
                while i < arguments.len()
                    invariant
                        i <= arguments.len(),
                        depth > 0,
                        self@ == context@.all_declared(
                            old(self)@,
                            arguments@,
                            i as int,
                            (depth - 1) as nat,
                        ),
                    decreases arguments.len() - i,
                {
                    self.declare_pattern(arguments[i], context, depth - 1);
                    i += 1;
                }
            },
            Pattern::TypeAnnotation(inner) => {
                self.declare_pattern(*inner, context, depth - 1);
            },
            Pattern::Or(alternatives) => {
                if alternatives.len() > 0 {
                    self.declare_pattern(alternatives[0], context, depth - 1);
                }
            },
            Pattern::Alias(name, inner) => {
                set_insert(&mut self.defined_in_fn, *name);
                self.declare_pattern(*inner, context, depth - 1);
            },
        }
    }

    fn step(&mut self, step: Step, context: &Context, depth: u64)
        ensures
            final(self)@ == context@.stepped(old(self)@, step, depth as nat),
        decreases depth, 1nat,
    {
        match step {
            Step::Declare(pattern) => {
                self.declare_pattern(pattern, context, NESTING_LIMIT);
            },
            Step::Define(name) => {
                set_insert(&mut self.defined_in_fn, name);
            },
            Step::Use(name) => {
                self.check_name(name);
            },
            Step::Walk(expr) => {
                self.find_free_variables_inner(expr, context, depth);
            },
        }
    }

    fn find_free_variables_inner(&mut self, expr: ExprId, context: &Context, depth: u64)
        ensures
            final(self)@ == context@.walked(old(self)@, expr, depth as nat),
        decreases depth, 0nat,
    {
        if depth == 0 {
            return ;
        }
        let mut steps = steps_at(context, expr);
        // The drops that run at an expression are no part of it, but may refer to what it declares.
        let mut drops = list_at(&context.post_expr_drops, expr);
        let mut more = list_at(&context.pre_exit_drops, expr);
        drops.append(&mut more);
        let mut more = list_at(&context.implicit_else_drops, expr);
        drops.append(&mut more);
        push_walks(&mut steps, &drops);
        assert(drops@ =~= context@.drops_at(expr));
        let mut i: usize = 0;
        while i < steps.len()
            invariant
                i <= steps.len(),
                depth > 0,
                self@ == context@.all_stepped(old(self)@, steps@, i as int, (depth - 1) as nat),
            decreases steps.len() - i,
        {
            self.step(steps[i], context, depth - 1);
            i += 1;
        }
    }

    /// Note the free variables of an expression.
    pub fn find_free_variables(&mut self, expr: ExprId, context: &Context)
        ensures
            final(self)@ == context@.walked(old(self)@, expr, NESTING_LIMIT as nat),
    {
        self.find_free_variables_inner(expr, context, NESTING_LIMIT);
    }
}

/// The free variables of an expression, where `self_name` is defined.
pub fn free_variables_of(context: &Context, expr: ExprId, self_name: Option<NameId>) -> (free: Vec<
    NameId,
>)
    ensures
        free@ == context@.free_names(expr, own_name(self_name)),
{
    let mut vars = FreeVars::new();
    match self_name {
        Some(name) => {
            set_insert(&mut vars.defined_in_fn, name);
        },
        None => {},
    }
    assert(vars@ =~= Found { free: Seq::empty(), defined: own_name(self_name) });
    vars.find_free_variables(expr, context);
    vars.free_vars
}

/// What is defined where a lambda refers to itself by `self_name`.
pub open spec fn own_name(self_name: Option<NameId>) -> Set<NameId> {
    match self_name {
        Some(name) => Set::empty().insert(name),
        None => Set::empty(),
    }
}

/// The environment is a pointer: the bare one, or one to something. What a lambda of such a type
/// captures is put into a cell, and the pointer to it is all that is kept.
pub open spec fn pointer_env(typ: Type, bindings: Map<u32, Type>) -> bool {
    match typ.followed(bindings) {
        Type::Primitive(PrimitiveType::Pointer) => true,
        Type::Application(constructor, _) => constructor.followed(bindings) == Type::Primitive(
            PrimitiveType::Pointer,
        ),
        _ => false,
    }
}

pub fn is_pointer_env(typ: &Type, bindings: &TypeBindings) -> (pointer: bool)
    ensures
        pointer == pointer_env(*typ, bindings@),
{
    match typ.follow(bindings) {
        Type::Primitive(PrimitiveType::Pointer) => true,
        Type::Application(constructor, _) => match constructor.follow(bindings) {
            Type::Primitive(PrimitiveType::Pointer) => true,
            _ => false,
        },
        _ => false,
    }
}

/// A reference of the given kind to a `typ`.
pub open spec fn reference_to(kind: ReferenceKind, lifetime: Type, typ: Type) -> Type {
    Type::Application(
        Box::new(Type::Primitive(PrimitiveType::Reference(kind))),
        Box::new(
            TypeList::Cons(
                Box::new(lifetime),
                Box::new(TypeList::Cons(Box::new(typ), Box::new(TypeList::Nil))),
            ),
        ),
    )
}

fn make_reference(kind: ReferenceKind, lifetime: Type, typ: Type) -> (reference: Type)
    ensures
        reference == reference_to(kind, lifetime, typ),
{
    Type::Application(
        Box::new(Type::Primitive(PrimitiveType::Reference(kind))),
        Box::new(
            TypeList::Cons(
                Box::new(lifetime),
                Box::new(TypeList::Cons(Box::new(typ), Box::new(TypeList::Nil))),
            ),
        ),
    )
}

/// The environment with `slots`.
pub open spec fn env_of(slots: Seq<Type>) -> Type {
    if slots.len() == 0 {
        Type::Primitive(PrimitiveType::NoClosureEnv)
    } else {
        Type::Tuple(Box::new(TypeList::of(slots)))
    }
}

/// The environment with `slots`.
pub fn make_env_type(slots: &Vec<Type>) -> (env: Type)
    ensures
        env == env_of(slots@),
{
    if slots.len() == 0 {
        return Type::Primitive(PrimitiveType::NoClosureEnv);
    }
    Type::Tuple(Box::new(TypeList::from_vec(slots)))
}

impl State {
    /// The captured name is a candidate for a borrow: neither is it mutable nor a reference.
    pub open spec fn may_borrow(self, name: NameId) -> bool {
        !self.mutable_definitions.contains(name) && !self.is_reference_typed(name)
    }

    /// Which of the first `count` of `names` are borrowed: the candidates that are not `Copy`.
    pub open spec fn borrowed_among(self, names: Seq<NameId>, count: int) -> (Seq<NameId>, State)
        decreases count,
    {
        if count <= 0 {
            (Seq::empty(), self)
        } else {
            let (borrowed, state) = self.borrowed_among(names, count - 1);
            let name = names[count - 1];
            if state.may_borrow(name) {
                let typ = state.type_of_name(name);
                (
                    if state.is_copy(typ) {
                        borrowed
                    } else {
                        borrowed.push(name)
                    },
                    state.copy_asked(typ),
                )
            } else {
                (borrowed, state)
            }
        }
    }

    /// Which captures a closure holds by reference. A `move` closure owns what it captures.
    pub open spec fn borrowed_captures(self, names: Seq<NameId>, is_move: bool) -> (
        Seq<NameId>,
        State,
    ) {
        if is_move || !self.elaborates_drops() {
            (Seq::empty(), self)
        } else {
            self.borrowed_among(names, names.len() as int)
        }
    }

    /// How a closure holds the capture `name`: a mutable variable or a borrowed one by reference,
    /// and anything else by value. A `move` closure holds all but the borrowed ones by value.
    pub open spec fn env_slot(self, name: NameId, is_move: bool, borrowed: Seq<NameId>) -> (
        Type,
        State,
    ) {
        let typ = self.type_of_name(name);
        if !is_move && self.mutable_definitions.contains(name) {
            (reference_to(ReferenceKind::Mut, self.fresh_type(), typ), self.with_fresh_type())
        } else if borrowed.contains(name) {
            (reference_to(ReferenceKind::Imm, self.fresh_type(), typ), self.with_fresh_type())
        } else {
            (typ, self)
        }
    }

    /// How a closure holds the first `count` of `names`.
    pub open spec fn env_slots(
        self,
        names: Seq<NameId>,
        is_move: bool,
        borrowed: Seq<NameId>,
        count: int,
    ) -> (Seq<Type>, State)
        decreases count,
    {
        if count <= 0 {
            (Seq::empty(), self)
        } else {
            let (slots, state) = self.env_slots(names, is_move, borrowed, count - 1);
            let (slot, state) = state.env_slot(names[count - 1], is_move, borrowed);
            (slots.push(slot), state)
        }
    }

    /// This state once the environment of the closure `id` was worked out.
    pub open spec fn closure_checked(
        self,
        id: ExprId,
        expected: Type,
        self_name: Option<NameId>,
        is_move: bool,
    ) -> State {
        let names = self.context.free_names(id, own_name(self_name));
        let (borrowed, state) = if pointer_env(expected, self.bindings) {
            (Seq::empty(), self)
        } else {
            let (borrowed, state) = self.borrowed_captures(names, is_move);
            let (slots, state) = state.env_slots(names, is_move, borrowed, names.len() as int);
            (
                borrowed,
                State {
                    requests: state.requests.push(
                        Request::UnifyEnvironment { actual: env_of(slots), expected, expr: id },
                    ),
                    ..state
                },
            )
        };
        if names.len() == 0 {
            state
        } else {
            State {
                context: ContextState {
                    move_closures: if is_move {
                        state.context.move_closures.insert(id)
                    } else {
                        state.context.move_closures
                    },
                    borrowed_captures: state.context.borrowed_captures.insert(id, borrowed),
                    closure_environments: state.context.closure_environments.insert(id, names),
                    ..state.context
                },
                captured_names: state.captured_names.difference(borrowed.to_set()),
                ..state
            }
        }
    }

    /// The lambda at `id` captures `name`.
    pub open spec fn captures(self, id: ExprId, name: NameId) -> bool {
        self.context.free_names(id, Set::empty()).contains(name)
    }

    /// Which of the first `count` of `names` a `move` closure at `location` owns: those that are
    /// neither `Copy` nor mutable. All that are not `Copy` are moved.
    pub open spec fn moved_captures(self, names: Seq<NameId>, location: crate::ids::Location, count: int) -> (
        Seq<NameId>,
        State,
    )
        decreases count,
    {
        if count <= 0 {
            (Seq::empty(), self)
        } else {
            let (owned, state) = self.moved_captures(names, location, count - 1);
            let name = names[count - 1];
            let typ = state.type_of_name(name);
            let asked = state.copy_asked(typ);
            if state.is_copy(typ) {
                (owned, asked)
            } else {
                (
                    if asked.mutable_definitions.contains(name) {
                        owned
                    } else {
                        owned.push(name)
                    },
                    State {
                        moves: asked.moves.with_move(asked.place_of_binding(name), location),
                        ..asked
                    },
                )
            }
        }
    }

    /// This state once a `move` closure took its captures.
    pub open spec fn move_captures_recorded(self, id: ExprId, self_name: Option<NameId>) -> State {
        let names = self.context.free_names(id, own_name(self_name));
        let (owned, state) = self.moved_captures(
            names,
            self.context.expr_location(id),
            names.len() as int,
        );
        State { captured_names: state.captured_names.difference(owned.to_set()), ..state }
    }

    /// The handles among the first `count` of `names` that a closure holds by value.
    pub open spec fn shared_among(self, names: Seq<NameId>, count: int) -> Seq<NameId>
        decreases count,
    {
        if count <= 0 {
            Seq::empty()
        } else {
            let shared = self.shared_among(names, count - 1);
            let name = names[count - 1];
            if self.is_shared(self.type_of_name(name)) && !self.mutable_definitions.contains(name) {
                shared.push(name)
            } else {
                shared
            }
        }
    }

    /// This state once a closure took its own references to the shared handles it captures: the
    /// owner drops its handle again, and the death of a bound closure releases the closure's.
    pub open spec fn shared_captures_recorded(self, id: ExprId, self_name: Option<NameId>) -> State {
        let names = self.context.free_names(id, own_name(self_name));
        let shared = self.shared_among(names, names.len() as int);
        if shared.len() == 0 {
            self
        } else {
            State {
                captured_names: self.captured_names.difference(shared.to_set()),
                shared_closure_captures: match self_name {
                    Some(binding) => self.shared_closure_captures.insert(binding, shared),
                    None => self.shared_closure_captures,
                },
                ..self
            }
        }
    }

    /// A branch of a handle refers to its `resume`.
    pub open spec fn uses_resume(self, resume_name: NameId, branch: ExprId) -> bool {
        match self.context.expr(branch) {
            ExprForm::Lambda { body, .. } => self.context.free_names(body, Set::empty()).contains(
                resume_name,
            ),
            _ => false,
        }
    }
}

impl<'a> TypeChecker<'a> {
    /// Work out the environment of the closure `id`, have it made the expected one, and record
    /// what the closure captures. A borrowed capture stays with its owner, who drops it: the
    /// closure is defined after it, and dies before it.
    pub fn check_for_closure(
        &mut self,
        id: ExprId,
        expected_environment_type: &Type,
        self_name: Option<NameId>,
        is_move: bool,
    )
        ensures
            final(self)@ == old(self)@.closure_checked(
                id,
                *expected_environment_type,
                self_name,
                is_move,
            ),
    {
        let free_vars = free_variables_of(&self.context, id, self_name);
        let mut borrowed: Vec<NameId> = Vec::new();
        if !is_pointer_env(expected_environment_type, &self.bindings) {
            borrowed = self.borrowed_capture_set(&free_vars, is_move);
            let actual = self.make_env_type_with_names(&free_vars, is_move, &borrowed);
            let expected = expected_environment_type.clone();
            self.requests.push(Request::UnifyEnvironment { actual, expected, expr: id });
        }
        if free_vars.len() > 0 {
            if is_move {
                set_insert(&mut self.context.move_closures, id);
            }
            remove_all(&mut self.captured_names, &borrowed);
            put_list(&mut self.context.borrowed_captures, id, borrowed);
            put_list(&mut self.context.closure_environments, id, free_vars);
        }
        assert(self@ =~= old(self)@.closure_checked(
            id,
            *expected_environment_type,
            self_name,
            is_move,
        ));
    }

    /// Which captures a closure holds by reference: those that could dangle. A capture that is
    /// still being inferred counts as `Copy`, and stays by value.
    fn borrowed_capture_set(&mut self, free_vars: &Vec<NameId>, is_move: bool) -> (borrowed: Vec<NameId>)
        ensures
            (borrowed@, final(self)@) == old(self)@.borrowed_captures(free_vars@, is_move),
    {
        let mut borrowed: Vec<NameId> = Vec::new();
        if is_move || !self.drop_elaboration_active() {
            return borrowed;
        }
        let mut i: usize = 0;
        while i < free_vars.len()
            invariant
                i <= free_vars.len(),
                (borrowed@, self@) == old(self)@.borrowed_among(free_vars@, i as int),
            decreases free_vars.len() - i,
        {
            let name = free_vars[i];
            if !set_contains(&self.mutable_definitions, name) && !self.name_is_reference_typed(
                name,
            ) {
                let typ = self.type_of_name(name);
                if !self.type_is_copy(&typ) {
                    borrowed.push(name);
                }
            }
            i += 1;
        }
        borrowed
    }

    fn make_env_type_with_names(
        &mut self,
        free_vars: &Vec<NameId>,
        is_move: bool,
        borrowed: &Vec<NameId>,
    ) -> (env: Type)
        ensures
            ({
                let (slots, state) = old(self)@.env_slots(
                    free_vars@,
                    is_move,
                    borrowed@,
                    free_vars@.len() as int,
                );
                env == env_of(slots) && final(self)@ == state
            }),
    {
        let mut slots: Vec<Type> = Vec::new();
        let mut i: usize = 0;
        while i < free_vars.len()
            invariant
                i <= free_vars.len(),
                (slots@, self@) == old(self)@.env_slots(free_vars@, is_move, borrowed@, i as int),
            decreases free_vars.len() - i,
        {
            let name = free_vars[i];
            let typ = self.type_of_name(name);
            if !is_move && set_contains(&self.mutable_definitions, name) {
                let lifetime = self.next_type_variable();
                slots.push(make_reference(ReferenceKind::Mut, lifetime, typ));
            } else if is_listed(borrowed, name) {
                let lifetime = self.next_type_variable();
                slots.push(make_reference(ReferenceKind::Imm, lifetime, typ));
            } else {
                slots.push(typ);
            }
            i += 1;
        }
        make_env_type(&slots)
    }

    /// Note that the free variables of the lambda at `id` are captured. The scope that owns a
    /// captured name does not drop it, for the closure may outlive the scope.
    pub fn record_captured_names(&mut self, id: ExprId)
        ensures
            final(self)@ == (State {
                captured_names: old(self)@.captured_names.union(
                    old(self)@.context.free_names(id, Set::empty()).to_set(),
                ),
                ..old(self)@
            }),
    {
        let free_vars = free_variables_of(&self.context, id, None);
        insert_all(&mut self.captured_names, &free_vars);
    }

    /// Whether the lambda at `id` captures `name`.
    pub fn lambda_captures_name(&self, id: ExprId, name: NameId) -> (captures: bool)
        ensures
            captures == self@.captures(id, name),
    {
        let free_vars = free_variables_of(&self.context, id, None);
        is_listed(&free_vars, name)
    }

    /// Note what a `move` closure takes. A capture that is not `Copy` is moved, as by a direct
    /// use. The closure owns it, so that its owner neither drops it nor has it in the way of a
    /// drop; but of a mutable variable the closure has a snapshot, and the variable stays.
    pub fn record_move_captures(&mut self, id: ExprId, self_name: Option<NameId>)
        ensures
            final(self)@ == old(self)@.move_captures_recorded(id, self_name),
    {
        let free_vars = free_variables_of(&self.context, id, self_name);
        let location = self.context.expr_location(id);
        let mut owned_captures: Vec<NameId> = Vec::new();
        let mut i: usize = 0;
        while i < free_vars.len()
            invariant
                i <= free_vars.len(),
                (owned_captures@, self@) == old(self)@.moved_captures(
                    free_vars@,
                    location,
                    i as int,
                ),
            decreases free_vars.len() - i,
        {
            let name = free_vars[i];
            let typ = self.type_of_name(name);
            if !self.type_is_copy(&typ) {
                let place = self.binding_place(name);
                self.move_tracker.record_move(place, location);
                if !set_contains(&self.mutable_definitions, name) {
                    owned_captures.push(name);
                }
            }
            i += 1;
        }
        remove_all(&mut self.captured_names, &owned_captures);
    }

    /// Note the shared handles a closure captures by value. The closure takes a reference of its
    /// own where it is made, so the owner drops its handle again. Only a bound closure has a death
    /// at which that reference is released.
    pub fn record_shared_captures(&mut self, id: ExprId, self_name: Option<NameId>)
        ensures
            final(self)@ == old(self)@.shared_captures_recorded(id, self_name),
    {
        let free_vars = free_variables_of(&self.context, id, self_name);
        let mut shared_captures: Vec<NameId> = Vec::new();
        let mut i: usize = 0;
        while i < free_vars.len()
            invariant
                i <= free_vars.len(),
                self@ == old(self)@,
                shared_captures@ == self@.shared_among(free_vars@, i as int),
            decreases free_vars.len() - i,
        {
            let name = free_vars[i];
            let typ = self.type_of_name(name);
            if self.is_shared_user_defined(&typ) && !set_contains(&self.mutable_definitions, name) {
                shared_captures.push(name);
            }
            i += 1;
        }
        if shared_captures.len() == 0 {
            return ;
        }
        remove_all(&mut self.captured_names, &shared_captures);
        match self_name {
            Some(binding) => {
                put_list(&mut self.shared_closure_captures, binding, shared_captures);
            },
            None => {},
        }
    }

    /// Whether a branch of a handle refers to its `resume`.
    pub fn handler_branch_uses_resume(&self, resume_name: NameId, branch: ExprId) -> (uses: bool)
        ensures
            uses == self@.uses_resume(resume_name, branch),
    {
        match self.context.expr(branch) {
            Expr::Lambda { body, .. } => {
                let free_vars = free_variables_of(&self.context, *body, None);
                is_listed(&free_vars, resume_name)
            },
            _ => false,
        }
    }
}

} // verus!

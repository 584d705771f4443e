//! The expressions and patterns of an item, and what passes record about them.

use crate::collections::{map_get, map_insert, map_remove, set_contains, set_insert};
use crate::ids::{ExprId, Location, NameId, Origin, PathId, PatternId};
use crate::types::{FloatKind, IntegerKind, ReferenceKind};
use rustc_hash::{FxHashMap, FxHashSet};
use vstd::prelude::*;

verus! {

/// An integer as it is written.
#[derive(Clone, Copy, Debug, PartialEq, Eq, Structural)]
pub struct Integer {
    pub magnitude: u64,
    pub negative: bool,
}

pub enum Literal {
    Unit,
    Bool(bool),
    Integer(Integer, Option<IntegerKind>),
    /// The bits of the double that was written.
    Float(u64, Option<FloatKind>),
    String(String),
    Char(char),
}

#[derive(Clone, Copy, Debug, PartialEq, Eq, Structural)]
pub struct Definition {
    pub pattern: PatternId,
    pub rhs: ExprId,
    pub mutable: bool,
}

#[derive(Clone, Copy, Debug, PartialEq, Eq, Structural)]
pub struct Argument {
    pub expr: ExprId,
    pub is_implicit: bool,
}

#[derive(Clone, Copy, Debug, PartialEq, Eq, Structural)]
pub struct Parameter {
    pub pattern: PatternId,
    pub is_implicit: bool,
    pub is_mutable: bool,
}

#[derive(Clone, Copy, Debug, PartialEq, Eq, Structural)]
pub struct Assignment {
    pub lhs: ExprId,
    pub rhs: ExprId,
    /// The operator of a compound assignment.
    pub op: Option<ExprId>,
}

/// What is done when an operation is performed.
pub struct HandleCase {
    pub function: PathId,
    pub args: Vec<PatternId>,
    pub resume_name: NameId,
    pub branch: ExprId,
}

/// What a `HandleCase` says.
#[verifier::ext_equal]
pub struct HandleForm {
    pub function: PathId,
    pub args: Seq<PatternId>,
    pub resume_name: NameId,
    pub branch: ExprId,
}

impl View for HandleCase {
    type V = HandleForm;

    open spec fn view(&self) -> HandleForm {
        HandleForm {
            function: self.function,
            args: self.args@,
            resume_name: self.resume_name,
            branch: self.branch,
        }
    }
}

pub enum Expr {
    Error,
    Literal(Literal),
    Variable(PathId),
    Sequence(Vec<ExprId>),
    Definition(Definition),
    MemberAccess { object: ExprId, member: String },
    Call { function: ExprId, arguments: Vec<Argument> },
    Lambda { parameters: Vec<Parameter>, body: ExprId, is_move: bool },
    If { condition: ExprId, then_expr: ExprId, else_expr: Option<ExprId> },
    Match { expression: ExprId, cases: Vec<(PatternId, ExprId)> },
    Handle { expression: ExprId, handler_name: NameId, handlers: Vec<HandleCase> },
    Reference { kind: ReferenceKind, rhs: ExprId },
    TypeAnnotation { lhs: ExprId },
    Constructor { fields: Vec<(NameId, ExprId)> },
    Quoted,
    While { condition: ExprId, body: ExprId },
    For { variable: NameId, start: ExprId, end: ExprId, body: ExprId },
    Break,
    Continue,
    Return { expression: ExprId },
    Assignment(Assignment),
    Extern(String),
    ArrayLiteral(Vec<ExprId>),
    /// An expression that is written in other terms before any pass sees it.
    Sugar,
}

/// What an `Expr` says.
#[verifier::ext_equal]
pub enum ExprForm {
    Error,
    Literal(Literal),
    Variable(PathId),
    Sequence(Seq<ExprId>),
    Definition(Definition),
    MemberAccess { object: ExprId, member: Seq<char> },
    Call { function: ExprId, arguments: Seq<Argument> },
    Lambda { parameters: Seq<Parameter>, body: ExprId, is_move: bool },
    If { condition: ExprId, then_expr: ExprId, else_expr: Option<ExprId> },
    Match { expression: ExprId, cases: Seq<(PatternId, ExprId)> },
    Handle { expression: ExprId, handler_name: NameId, handlers: Seq<HandleForm> },
    Reference { kind: ReferenceKind, rhs: ExprId },
    TypeAnnotation { lhs: ExprId },
    Constructor { fields: Seq<(NameId, ExprId)> },
    Quoted,
    While { condition: ExprId, body: ExprId },
    For { variable: NameId, start: ExprId, end: ExprId, body: ExprId },
    Break,
    Continue,
    Return { expression: ExprId },
    Assignment(Assignment),
    Extern(Seq<char>),
    ArrayLiteral(Seq<ExprId>),
    Sugar,
}

impl View for Expr {
    type V = ExprForm;

    open spec fn view(&self) -> ExprForm {
        match *self {
            Expr::Error => ExprForm::Error,
            Expr::Literal(literal) => ExprForm::Literal(literal),
            Expr::Variable(path) => ExprForm::Variable(path),
            Expr::Sequence(items) => ExprForm::Sequence(items@),
            Expr::Definition(definition) => ExprForm::Definition(definition),
            Expr::MemberAccess { object, member } => ExprForm::MemberAccess {
                object,
                member: member@,
            },
            Expr::Call { function, arguments } => ExprForm::Call {
                function,
                arguments: arguments@,
            },
            Expr::Lambda { parameters, body, is_move } => ExprForm::Lambda {
                parameters: parameters@,
                body,
                is_move,
            },
            Expr::If { condition, then_expr, else_expr } => ExprForm::If {
                condition,
                then_expr,
                else_expr,
            },
            Expr::Match { expression, cases } => ExprForm::Match { expression, cases: cases@ },
            Expr::Handle { expression, handler_name, handlers } => ExprForm::Handle {
                expression,
                handler_name,
                handlers: handlers@.map_values(|case: HandleCase| case@),
            },
            Expr::Reference { kind, rhs } => ExprForm::Reference { kind, rhs },
            Expr::TypeAnnotation { lhs } => ExprForm::TypeAnnotation { lhs },
            Expr::Constructor { fields } => ExprForm::Constructor { fields: fields@ },
            Expr::Quoted => ExprForm::Quoted,
            Expr::While { condition, body } => ExprForm::While { condition, body },
            Expr::For { variable, start, end, body } => ExprForm::For {
                variable,
                start,
                end,
                body,
            },
            Expr::Break => ExprForm::Break,
            Expr::Continue => ExprForm::Continue,
            Expr::Return { expression } => ExprForm::Return { expression },
            Expr::Assignment(assignment) => ExprForm::Assignment(assignment),
            Expr::Extern(name) => ExprForm::Extern(name@),
            Expr::ArrayLiteral(elements) => ExprForm::ArrayLiteral(elements@),
            Expr::Sugar => ExprForm::Sugar,
        }
    }
}

impl ExprForm {
    /// The expressions directly inside, in the order they are evaluated.
    pub open spec fn children(self) -> Seq<ExprId> {
        match self {
            ExprForm::Sequence(items) => items,
            ExprForm::Definition(definition) => seq![definition.rhs],
            ExprForm::MemberAccess { object, .. } => seq![object],
            ExprForm::Call { function, arguments } => seq![function] + arguments.map_values(
                |argument: Argument| argument.expr,
            ),
            ExprForm::Lambda { body, .. } => seq![body],
            ExprForm::If { condition, then_expr, else_expr } => match else_expr {
                Some(else_expr) => seq![condition, then_expr, else_expr],
                None => seq![condition, then_expr],
            },
            ExprForm::Match { expression, cases } => seq![expression] + cases.map_values(
                |case: (PatternId, ExprId)| case.1,
            ),
            ExprForm::Handle { expression, handlers, .. } => seq![expression] + handlers.map_values(
                |handler: HandleForm| handler.branch,
            ),
            ExprForm::Reference { rhs, .. } => seq![rhs],
            ExprForm::TypeAnnotation { lhs } => seq![lhs],
            ExprForm::Constructor { fields } => fields.map_values(
                |field: (NameId, ExprId)| field.1,
            ),
            ExprForm::While { condition, body } => seq![condition, body],
            ExprForm::For { start, end, body, .. } => seq![start, end, body],
            ExprForm::Return { expression } => seq![expression],
            ExprForm::Assignment(assignment) => match assignment.op {
                Some(op) => seq![assignment.lhs, assignment.rhs, op],
                None => seq![assignment.lhs, assignment.rhs],
            },
            ExprForm::ArrayLiteral(elements) => elements,
            ExprForm::Error
            | ExprForm::Literal(_)
            | ExprForm::Variable(_)
            | ExprForm::Quoted
            | ExprForm::Break
            | ExprForm::Continue
            | ExprForm::Extern(_)
            | ExprForm::Sugar => Seq::empty(),
        }
    }
}

impl Expr {
    /// The expressions directly inside, in the order they are evaluated.
    pub fn children(&self) -> (children: Vec<ExprId>)
        ensures
            children@ == self@.children(),
    {
        let children: Vec<ExprId> = match self {
            Expr::Sequence(items) => items.clone(),
            Expr::Definition(definition) => vec![definition.rhs],
            Expr::MemberAccess { object, .. } => vec![*object],
            Expr::Call { function, arguments } => {
                let mut children: Vec<ExprId> = vec![*function];
                let mut i: usize = 0;
                while i < arguments.len()
                    invariant
                        i <= arguments.len(),
                        children@ == seq![*function] + arguments@.take(i as int).map_values(
                            |argument: Argument| argument.expr,
                        ),
                    decreases arguments.len() - i,
                {
                    children.push(arguments[i].expr);
                    assert(arguments@.take(i + 1) == arguments@.take(i as int).push(
                        arguments@[i as int],
                    ));
                    i += 1;
                }
                assert(arguments@.take(i as int) == arguments@);
                children
            },
            Expr::Lambda { body, .. } => vec![*body],
            Expr::If { condition, then_expr, else_expr } => match else_expr {
                Some(else_expr) => vec![*condition, *then_expr, *else_expr],
                None => vec![*condition, *then_expr],
            },
            Expr::Match { expression, cases } => {
                let mut children: Vec<ExprId> = vec![*expression];
                let mut i: usize = 0;
                while i < cases.len()
                    invariant
                        i <= cases.len(),
                        children@ == seq![*expression] + cases@.take(i as int).map_values(
                            |case: (PatternId, ExprId)| case.1,
                        ),
                    decreases cases.len() - i,
                {
                    children.push(cases[i].1);
                    assert(cases@.take(i + 1) == cases@.take(i as int).push(cases@[i as int]));
                    i += 1;
                }
                assert(cases@.take(i as int) == cases@);
                children
            },
            Expr::Handle { expression, handlers, .. } => {
                let mut children: Vec<ExprId> = vec![*expression];
                let ghost forms = handlers@.map_values(|handler: HandleCase| handler@);
                let mut i: usize = 0;
                while i < handlers.len()
                    invariant
                        i <= handlers.len(),
                        forms == handlers@.map_values(|handler: HandleCase| handler@),
                        children@ == seq![*expression] + forms.take(i as int).map_values(
                            |handler: HandleForm| handler.branch,
                        ),
                    decreases handlers.len() - i,
                {
                    children.push(handlers[i].branch);
                    assert(forms.take(i + 1) == forms.take(i as int).push(forms[i as int]));
                    i += 1;
                }
                assert(forms.take(i as int) == forms);
                children
            },
            Expr::Reference { rhs, .. } => vec![*rhs],
            Expr::TypeAnnotation { lhs } => vec![*lhs],
            Expr::Constructor { fields } => {
                let mut children: Vec<ExprId> = Vec::new();
                let mut i: usize = 0;
                while i < fields.len()
                    invariant
                        i <= fields.len(),
                        children@ == fields@.take(i as int).map_values(
                            |field: (NameId, ExprId)| field.1,
                        ),
                    decreases fields.len() - i,
                {
                    children.push(fields[i].1);
                    assert(fields@.take(i + 1) == fields@.take(i as int).push(fields@[i as int]));
                    i += 1;
                }
                assert(fields@.take(i as int) == fields@);
                children
            },
            Expr::While { condition, body } => vec![*condition, *body],
            Expr::For { start, end, body, .. } => vec![*start, *end, *body],
            Expr::Return { expression } => vec![*expression],
            Expr::Assignment(assignment) => match assignment.op {
                Some(op) => vec![assignment.lhs, assignment.rhs, op],
                None => vec![assignment.lhs, assignment.rhs],
            },
            Expr::ArrayLiteral(elements) => elements.clone(),
            Expr::Error => Vec::new(),
            Expr::Literal(_) => Vec::new(),
            Expr::Variable(_) => Vec::new(),
            Expr::Quoted => Vec::new(),
            Expr::Break => Vec::new(),
            Expr::Continue => Vec::new(),
            Expr::Extern(_) => Vec::new(),
            Expr::Sugar => Vec::new(),
        };
        assert(children@ =~= self@.children());
        children
    }
}

pub enum Pattern {
    Error,
    Variable(NameId),
    Literal,
    Constructor(PathId, Vec<PatternId>),
    TypeAnnotation(PatternId),
    MethodName { item_name: NameId },
    Or(Vec<PatternId>),
    Alias(NameId, PatternId),
}

/// What a `Pattern` says.
#[verifier::ext_equal]
pub enum PatternForm {
    Error,
    Variable(NameId),
    Literal,
    Constructor(PathId, Seq<PatternId>),
    TypeAnnotation(PatternId),
    MethodName { item_name: NameId },
    Or(Seq<PatternId>),
    Alias(NameId, PatternId),
}

impl View for Pattern {
    type V = PatternForm;

    open spec fn view(&self) -> PatternForm {
        match *self {
            Pattern::Error => PatternForm::Error,
            Pattern::Variable(name) => PatternForm::Variable(name),
            Pattern::Literal => PatternForm::Literal,
            Pattern::Constructor(path, arguments) => PatternForm::Constructor(path, arguments@),
            Pattern::TypeAnnotation(inner) => PatternForm::TypeAnnotation(inner),
            Pattern::MethodName { item_name } => PatternForm::MethodName { item_name },
            Pattern::Or(alternatives) => PatternForm::Or(alternatives@),
            Pattern::Alias(name, inner) => PatternForm::Alias(name, inner),
        }
    }
}

/// What a map from ids to lists says.
pub open spec fn lists(map: Map<u32, Vec<u32>>) -> Map<u32, Seq<u32>> {
    map.map_values(|list: Vec<u32>| list@)
}

/// The expressions, patterns, paths and names of an item, each under its id, and what passes
/// recorded about them.
pub struct Context {
    pub exprs: Vec<Expr>,
    pub expr_locations: Vec<Location>,
    pub patterns: Vec<Pattern>,
    pub pattern_locations: Vec<Location>,
    /// How each path is written.
    pub paths: Vec<String>,
    pub path_locations: Vec<Location>,
    /// How each name is written.
    pub names: Vec<String>,
    pub name_locations: Vec<Location>,
    pub path_origins: FxHashMap<PathId, Origin>,
    /// The drops that run once the value of an expression is there.
    pub post_expr_drops: FxHashMap<ExprId, Vec<ExprId>>,
    /// The drops that run before an expression leaves its scope, or overwrites a value.
    pub pre_exit_drops: FxHashMap<ExprId, Vec<ExprId>>,
    /// The drops of the edge an `if` without `else` takes where its condition fails.
    pub implicit_else_drops: FxHashMap<ExprId, Vec<ExprId>>,
    /// What each closure captures, in the order of the names.
    pub closure_environments: FxHashMap<ExprId, Vec<NameId>>,
    /// What each closure captures by reference, in the order of the names.
    pub borrowed_captures: FxHashMap<ExprId, Vec<NameId>>,
    pub move_closures: FxHashSet<ExprId>,
    /// The places whose value is retained where it leaves the function.
    pub escape_retains: FxHashSet<ExprId>,
    /// The closures whose environment is released.
    pub closure_env_releases: FxHashSet<ExprId>,
    /// The places that stand for a slot of a closure's environment.
    pub closure_env_slots: FxHashMap<ExprId, u32>,
    /// The index of the member each member access reads.
    pub member_access_indices: FxHashMap<ExprId, u32>,
}

/// What a `Context` holds.
#[verifier::ext_equal]
pub struct ContextState {
    pub exprs: Seq<ExprForm>,
    pub expr_locations: Seq<Location>,
    pub patterns: Seq<PatternForm>,
    pub pattern_locations: Seq<Location>,
    pub paths: Seq<Seq<char>>,
    pub path_locations: Seq<Location>,
    pub names: Seq<Seq<char>>,
    pub name_locations: Seq<Location>,
    pub path_origins: Map<PathId, Origin>,
    pub post_expr_drops: Map<ExprId, Seq<ExprId>>,
    pub pre_exit_drops: Map<ExprId, Seq<ExprId>>,
    pub implicit_else_drops: Map<ExprId, Seq<ExprId>>,
    pub closure_environments: Map<ExprId, Seq<NameId>>,
    pub borrowed_captures: Map<ExprId, Seq<NameId>>,
    pub move_closures: Set<ExprId>,
    pub escape_retains: Set<ExprId>,
    pub closure_env_releases: Set<ExprId>,
    pub closure_env_slots: Map<ExprId, u32>,
    pub member_access_indices: Map<ExprId, u32>,
}

impl View for Context {
    type V = ContextState;

    open spec fn view(&self) -> ContextState {
        ContextState {
            exprs: self.exprs@.map_values(|expr: Expr| expr@),
            expr_locations: self.expr_locations@,
            patterns: self.patterns@.map_values(|pattern: Pattern| pattern@),
            pattern_locations: self.pattern_locations@,
            paths: self.paths@.map_values(|path: String| path@),
            path_locations: self.path_locations@,
            names: self.names@.map_values(|name: String| name@),
            name_locations: self.name_locations@,
            path_origins: self.path_origins@,
            post_expr_drops: lists(self.post_expr_drops@),
            pre_exit_drops: lists(self.pre_exit_drops@),
            implicit_else_drops: lists(self.implicit_else_drops@),
            closure_environments: lists(self.closure_environments@),
            borrowed_captures: lists(self.borrowed_captures@),
            move_closures: self.move_closures@,
            escape_retains: self.escape_retains@,
            closure_env_releases: self.closure_env_releases@,
            closure_env_slots: self.closure_env_slots@,
            member_access_indices: self.member_access_indices@,
        }
    }
}

impl ContextState {
    /// The context of an item that holds nothing.
    pub open spec fn nothing() -> ContextState {
        ContextState {
            exprs: Seq::empty(),
            expr_locations: Seq::empty(),
            patterns: Seq::empty(),
            pattern_locations: Seq::empty(),
            paths: Seq::empty(),
            path_locations: Seq::empty(),
            names: Seq::empty(),
            name_locations: Seq::empty(),
            path_origins: Map::empty(),
            post_expr_drops: Map::empty(),
            pre_exit_drops: Map::empty(),
            implicit_else_drops: Map::empty(),
            closure_environments: Map::empty(),
            borrowed_captures: Map::empty(),
            move_closures: Set::empty(),
            escape_retains: Set::empty(),
            closure_env_releases: Set::empty(),
            closure_env_slots: Map::empty(),
            member_access_indices: Map::empty(),
        }
    }
}

impl Context {
    /// The context of an item that holds nothing.
    pub fn new() -> (context: Context)
        ensures
            context@ == ContextState::nothing(),
    {
        let context = Context {
            exprs: Vec::new(),
            expr_locations: Vec::new(),
            patterns: Vec::new(),
            pattern_locations: Vec::new(),
            paths: Vec::new(),
            path_locations: Vec::new(),
            names: Vec::new(),
            name_locations: Vec::new(),
            path_origins: FxHashMap::default(),
            post_expr_drops: FxHashMap::default(),
            pre_exit_drops: FxHashMap::default(),
            implicit_else_drops: FxHashMap::default(),
            closure_environments: FxHashMap::default(),
            borrowed_captures: FxHashMap::default(),
            move_closures: FxHashSet::default(),
            escape_retains: FxHashSet::default(),
            closure_env_releases: FxHashSet::default(),
            closure_env_slots: FxHashMap::default(),
            member_access_indices: FxHashMap::default(),
        };
        assert(context@ =~= ContextState::nothing());
        context
    }
}

/// The location of what has none.
pub open spec fn nowhere() -> Location {
    Location { file: 0, start: 0, end: 0 }
}

impl ContextState {
    /// The expression under `id`. An id that nothing is under reads as an error.
    pub open spec fn expr(self, id: ExprId) -> ExprForm {
        if id < self.exprs.len() {
            self.exprs[id as int]
        } else {
            ExprForm::Error
        }
    }

    pub open spec fn expr_location(self, id: ExprId) -> Location {
        if id < self.expr_locations.len() {
            self.expr_locations[id as int]
        } else {
            nowhere()
        }
    }

    pub open spec fn pattern(self, id: PatternId) -> PatternForm {
        if id < self.patterns.len() {
            self.patterns[id as int]
        } else {
            PatternForm::Error
        }
    }

    pub open spec fn pattern_location(self, id: PatternId) -> Location {
        if id < self.pattern_locations.len() {
            self.pattern_locations[id as int]
        } else {
            nowhere()
        }
    }

    pub open spec fn name(self, id: NameId) -> Seq<char> {
        if id < self.names.len() {
            self.names[id as int]
        } else {
            Seq::empty()
        }
    }

    pub open spec fn name_location(self, id: NameId) -> Option<Location> {
        if id < self.name_locations.len() {
            Some(self.name_locations[id as int])
        } else {
            None
        }
    }

    pub open spec fn path_origin(self, path: PathId) -> Option<Origin> {
        if self.path_origins.contains_key(path) {
            Some(self.path_origins[path])
        } else {
            None
        }
    }

    /// The local a path names.
    pub open spec fn local(self, path: PathId) -> Option<NameId> {
        match self.path_origin(path) {
            Some(Origin::Local(name)) => Some(name),
            _ => None,
        }
    }

    /// This context with one more expression, under the next id.
    pub open spec fn with_expr(self, expr: ExprForm, location: Location) -> ContextState {
        ContextState {
            exprs: self.exprs.push(expr),
            expr_locations: self.expr_locations.push(location),
            ..self
        }
    }

    pub open spec fn next_expr(self) -> ExprId {
        self.exprs.len() as u32
    }

    pub open spec fn with_pattern(self, pattern: PatternForm, location: Location) -> ContextState {
        ContextState {
            patterns: self.patterns.push(pattern),
            pattern_locations: self.pattern_locations.push(location),
            ..self
        }
    }

    pub open spec fn next_pattern(self) -> PatternId {
        self.patterns.len() as u32
    }

    pub open spec fn with_path(
        self,
        text: Seq<char>,
        origin: Origin,
        location: Location,
    ) -> ContextState {
        ContextState {
            paths: self.paths.push(text),
            path_locations: self.path_locations.push(location),
            path_origins: self.path_origins.insert(self.next_path(), origin),
            ..self
        }
    }

    pub open spec fn next_path(self) -> PathId {
        self.paths.len() as u32
    }

    pub open spec fn with_name(self, text: Seq<char>, location: Location) -> ContextState {
        ContextState {
            names: self.names.push(text),
            name_locations: self.name_locations.push(location),
            ..self
        }
    }

    pub open spec fn next_name(self) -> NameId {
        self.names.len() as u32
    }

    /// The drops a table holds for `expr`.
    pub open spec fn drops_in(table: Map<ExprId, Seq<ExprId>>, expr: ExprId) -> Seq<ExprId> {
        if table.contains_key(expr) {
            table[expr]
        } else {
            Seq::empty()
        }
    }

    /// This context with `drops` behind those that run after `expr`.
    pub open spec fn with_post_expr_drops(self, expr: ExprId, drops: Seq<ExprId>) -> ContextState {
        ContextState {
            post_expr_drops: self.post_expr_drops.insert(
                expr,
                ContextState::drops_in(self.post_expr_drops, expr) + drops,
            ),
            ..self
        }
    }

    /// This context with `drops` behind those that run before `expr` exits.
    pub open spec fn with_pre_exit_drops(self, expr: ExprId, drops: Seq<ExprId>) -> ContextState {
        ContextState {
            pre_exit_drops: self.pre_exit_drops.insert(
                expr,
                ContextState::drops_in(self.pre_exit_drops, expr) + drops,
            ),
            ..self
        }
    }

    /// This context with `expr` standing for the environment of a closure that is released.
    pub open spec fn with_closure_env_release(self, expr: ExprId) -> ContextState {
        ContextState { closure_env_releases: self.closure_env_releases.insert(expr), ..self }
    }

    /// This context with `expr` standing for a slot of a closure's environment.
    pub open spec fn with_closure_env_slot(self, expr: ExprId, slot: u32) -> ContextState {
        ContextState { closure_env_slots: self.closure_env_slots.insert(expr, slot), ..self }
    }

    /// This context with the value of `expr` retained where it leaves the function.
    pub open spec fn with_escape_retain(self, expr: ExprId) -> ContextState {
        ContextState { escape_retains: self.escape_retains.insert(expr), ..self }
    }

    /// This context with `expr` under `id`, in the place of what was there.
    pub open spec fn with_replaced(self, id: ExprId, expr: ExprForm) -> ContextState {
        if id < self.exprs.len() {
            ContextState { exprs: self.exprs.update(id as int, expr), ..self }
        } else {
            self
        }
    }

    /// This context with all that is recorded of `from` recorded of `to` as well.
    pub open spec fn with_metadata_copied(self, from: ExprId, to: ExprId) -> ContextState {
        ContextState {
            post_expr_drops: entry_copied(self.post_expr_drops, from, to),
            pre_exit_drops: entry_copied(self.pre_exit_drops, from, to),
            implicit_else_drops: entry_copied(self.implicit_else_drops, from, to),
            closure_environments: entry_copied(self.closure_environments, from, to),
            borrowed_captures: entry_copied(self.borrowed_captures, from, to),
            move_closures: member_copied(self.move_closures, from, to),
            escape_retains: member_copied(self.escape_retains, from, to),
            closure_env_releases: member_copied(self.closure_env_releases, from, to),
            closure_env_slots: entry_copied(self.closure_env_slots, from, to),
            member_access_indices: entry_copied(self.member_access_indices, from, to),
            ..self
        }
    }

    /// This context with no drops around `expr`.
    pub open spec fn with_drops_cleared(self, expr: ExprId) -> ContextState {
        ContextState {
            post_expr_drops: self.post_expr_drops.remove(expr),
            pre_exit_drops: self.pre_exit_drops.remove(expr),
            implicit_else_drops: self.implicit_else_drops.remove(expr),
            ..self
        }
    }
}

/// `map` with what it holds for `from` also under `to`.
pub open spec fn entry_copied<V>(map: Map<u32, V>, from: u32, to: u32) -> Map<u32, V> {
    if map.contains_key(from) {
        map.insert(to, map[from])
    } else {
        map
    }
}

/// `set` with `to`, if `from` is in it.
pub open spec fn member_copied(set: Set<u32>, from: u32, to: u32) -> Set<u32> {
    if set.contains(from) {
        set.insert(to)
    } else {
        set
    }
}

fn copy_list(map: &mut FxHashMap<u32, Vec<u32>>, from: u32, to: u32)
    ensures
        lists(final(map)@) == entry_copied(lists(old(map)@), from, to),
{
    let list = match map_get(map, from) {
        Some(list) => copy_ids(list),
        None => {
            return ;
        },
    };
    put_list(map, to, list);
}

fn copy_number(map: &mut FxHashMap<u32, u32>, from: u32, to: u32)
    ensures
        final(map)@ == entry_copied(old(map)@, from, to),
{
    let number: u32 = match map_get(map, from) {
        Some(number) => *number,
        None => {
            return ;
        },
    };
    map_insert(map, to, number);
}

fn copy_member(set: &mut FxHashSet<u32>, from: u32, to: u32)
    ensures
        final(set)@ == member_copied(old(set)@, from, to),
{
    if set_contains(set, from) {
        set_insert(set, to);
    }
}

fn remove_list(map: &mut FxHashMap<u32, Vec<u32>>, key: u32)
    ensures
        lists(final(map)@) == lists(old(map)@).remove(key),
{
    map_remove(map, key);
    assert(lists(map@) =~= lists(old(map)@).remove(key));
}

/// Copy of a list of ids.
pub fn copy_ids(ids: &Vec<u32>) -> (copy: Vec<u32>)
    ensures
        copy@ == ids@,
{
    ids.clone()
}

/// The list a map holds for `key`.
pub fn list_at(map: &FxHashMap<u32, Vec<u32>>, key: u32) -> (list: Vec<u32>)
    ensures
        list@ == ContextState::drops_in(lists(map@), key),
{
    match map_get(map, key) {
        Some(list) => copy_ids(list),
        None => Vec::new(),
    }
}

/// Bind `key` to `list`.
pub fn put_list(map: &mut FxHashMap<u32, Vec<u32>>, key: u32, list: Vec<u32>)
    ensures
        lists(final(map)@) == lists(old(map)@).insert(key, list@),
{
    map_insert(map, key, list);
    assert(lists(map@) =~= lists(old(map)@).insert(key, list@));
}

impl Context {
    pub fn expr(&self, id: ExprId) -> (expr: &Expr)
        ensures
            expr@ == self@.expr(id),
    {
        if (id as usize) < self.exprs.len() {
            &self.exprs[id as usize]
        } else {
            &Expr::Error
        }
    }

    pub fn expr_location(&self, id: ExprId) -> (location: Location)
        ensures
            location == self@.expr_location(id),
    {
        if (id as usize) < self.expr_locations.len() {
            self.expr_locations[id as usize]
        } else {
            Location { file: 0, start: 0, end: 0 }
        }
    }

    pub fn pattern(&self, id: PatternId) -> (pattern: &Pattern)
        ensures
            pattern@ == self@.pattern(id),
    {
        if (id as usize) < self.patterns.len() {
            &self.patterns[id as usize]
        } else {
            &Pattern::Error
        }
    }

    pub fn pattern_location(&self, id: PatternId) -> (location: Location)
        ensures
            location == self@.pattern_location(id),
    {
        if (id as usize) < self.pattern_locations.len() {
            self.pattern_locations[id as usize]
        } else {
            Location { file: 0, start: 0, end: 0 }
        }
    }

    pub fn name(&self, id: NameId) -> (name: String)
        ensures
            name@ == self@.name(id),
    {
        if (id as usize) < self.names.len() {
            self.names[id as usize].clone()
        } else {
            String::new()
        }
    }

    pub fn path_origin(&self, path: PathId) -> (origin: Option<Origin>)
        ensures
            origin == self@.path_origin(path),
    {
        match map_get(&self.path_origins, path) {
            Some(origin) => Some(*origin),
            None => None,
        }
    }

    /// The local a path names.
    pub fn local(&self, path: PathId) -> (name: Option<NameId>)
        ensures
            name == self@.local(path),
    {
        match self.path_origin(path) {
            Some(Origin::Local(name)) => Some(name),
            _ => None,
        }
    }

    pub fn push_expr(&mut self, expr: Expr, location: Location) -> (id: ExprId)
        ensures
            id == old(self)@.next_expr(),
            final(self)@ == old(self)@.with_expr(expr@, location),
    {
        let id: u32 = self.exprs.len() as u32;
        self.exprs.push(expr);
        self.expr_locations.push(location);
        assert(self@ =~= old(self)@.with_expr(expr@, location));
        id
    }

    pub fn push_pattern(&mut self, pattern: Pattern, location: Location) -> (id: PatternId)
        ensures
            id == old(self)@.next_pattern(),
            final(self)@ == old(self)@.with_pattern(pattern@, location),
    {
        let id: u32 = self.patterns.len() as u32;
        self.patterns.push(pattern);
        self.pattern_locations.push(location);
        assert(self@ =~= old(self)@.with_pattern(pattern@, location));
        id
    }

    pub fn push_path(&mut self, text: String, origin: Origin, location: Location) -> (id: PathId)
        ensures
            id == old(self)@.next_path(),
            final(self)@ == old(self)@.with_path(text@, origin, location),
    {
        let id: u32 = self.paths.len() as u32;
        self.paths.push(text);
        self.path_locations.push(location);
        map_insert(&mut self.path_origins, id, origin);
        assert(self@ =~= old(self)@.with_path(text@, origin, location));
        id
    }

    pub fn push_name(&mut self, text: String, location: Location) -> (id: NameId)
        ensures
            id == old(self)@.next_name(),
            final(self)@ == old(self)@.with_name(text@, location),
    {
        let id: u32 = self.names.len() as u32;
        self.names.push(text);
        self.name_locations.push(location);
        assert(self@ =~= old(self)@.with_name(text@, location));
        id
    }

    /// Run `drops` after `expr`, behind those that already run there.
    pub fn push_post_expr_drops(&mut self, expr: ExprId, drops: Vec<ExprId>)
        ensures
            final(self)@ == old(self)@.with_post_expr_drops(expr, drops@),
    {
        let ghost added = drops@;
        let mut drops = drops;
        let mut all = list_at(&self.post_expr_drops, expr);
        all.append(&mut drops);
        put_list(&mut self.post_expr_drops, expr, all);
        assert(self@ =~= old(self)@.with_post_expr_drops(expr, added));
    }

    /// Run `drops` before `expr` exits, behind those that already run there.
    pub fn push_pre_exit_drops(&mut self, expr: ExprId, drops: Vec<ExprId>)
        ensures
            final(self)@ == old(self)@.with_pre_exit_drops(expr, drops@),
    {
        let ghost added = drops@;
        let mut drops = drops;
        let mut all = list_at(&self.pre_exit_drops, expr);
        all.append(&mut drops);
        put_list(&mut self.pre_exit_drops, expr, all);
        assert(self@ =~= old(self)@.with_pre_exit_drops(expr, added));
    }

    /// Where a name is declared.
    pub fn name_location(&self, id: NameId) -> (location: Option<Location>)
        ensures
            location == self@.name_location(id),
    {
        if (id as usize) < self.name_locations.len() {
            Some(self.name_locations[id as usize])
        } else {
            None
        }
    }

    /// Let `expr` stand for the environment of a closure, which is released there.
    pub fn mark_closure_env_release(&mut self, expr: ExprId)
        ensures
            final(self)@ == old(self)@.with_closure_env_release(expr),
    {
        set_insert(&mut self.closure_env_releases, expr);
    }

    /// Let `expr` stand for a slot of a closure's environment.
    pub fn mark_closure_env_slot(&mut self, expr: ExprId, slot: u32)
        ensures
            final(self)@ == old(self)@.with_closure_env_slot(expr, slot),
    {
        map_insert(&mut self.closure_env_slots, expr, slot);
    }

    /// Retain the value of `expr` where it leaves the function.
    pub fn mark_escape_retain(&mut self, expr: ExprId)
        ensures
            final(self)@ == old(self)@.with_escape_retain(expr),
    {
        set_insert(&mut self.escape_retains, expr);
    }

    /// Put `expr` under `id`, and take what was there.
    pub fn replace_expr(&mut self, id: ExprId, expr: Expr) -> (replaced: Expr)
        ensures
            replaced@ == old(self)@.expr(id),
            final(self)@ == old(self)@.with_replaced(id, expr@),
    {
        if (id as usize) < self.exprs.len() {
            let ghost put = expr@;
            let mut expr = expr;
            std::mem::swap(&mut expr, &mut self.exprs[id as usize]);
            assert(self@ =~= old(self)@.with_replaced(id, put));
            expr
        } else {
            Expr::Error
        }
    }

    /// Record of `to` all that is recorded of `from`.
    pub fn copy_expr_metadata(&mut self, from: ExprId, to: ExprId)
        ensures
            final(self)@ == old(self)@.with_metadata_copied(from, to),
    {
        copy_list(&mut self.post_expr_drops, from, to);
        copy_list(&mut self.pre_exit_drops, from, to);
        copy_list(&mut self.implicit_else_drops, from, to);
        copy_list(&mut self.closure_environments, from, to);
        copy_list(&mut self.borrowed_captures, from, to);
        copy_member(&mut self.move_closures, from, to);
        copy_member(&mut self.escape_retains, from, to);
        copy_member(&mut self.closure_env_releases, from, to);
        copy_number(&mut self.closure_env_slots, from, to);
        copy_number(&mut self.member_access_indices, from, to);
    }

    /// Run no drops around `expr`.
    pub fn clear_expr_drops(&mut self, expr: ExprId)
        ensures
            final(self)@ == old(self)@.with_drops_cleared(expr),
    {
        remove_list(&mut self.post_expr_drops, expr);
        remove_list(&mut self.pre_exit_drops, expr);
        remove_list(&mut self.implicit_else_drops, expr);
    }
}

} // verus!

//! The state of the checks of one item.

use crate::collections::{is_listed, map_get, map_insert, PlaceKey, Table};
#[allow(unused_imports)]
use crate::collections::put;
use crate::cst::{lists, Context, Definition, Expr, Pattern};
#[allow(unused_imports)]
use crate::cst::{ContextState, ExprForm, PatternForm};
use crate::database::Database;
use crate::ids::{
    ExprId, Location, NameId, Origin, PathId, PatternId, TopLevelId, TopLevelName, TypeVariableId,
    NESTING_LIMIT, PRELUDE,
};
use crate::type_inference::moves::{MovePath, MoveTracker};
#[allow(unused_imports)]
use crate::type_inference::moves::{Moves, Place};
use crate::types::{PrimitiveType, Type, TypeBindings};
use rustc_hash::{FxHashMap, FxHashSet};
use vstd::prelude::*;

verus! {

/// The names of the prelude the checks ask for.
#[derive(Clone, Copy, Debug, PartialEq, Eq, Structural)]
pub struct PreludeNames {
    pub copy_type: TopLevelName,
    pub drop_type: TopLevelName,
    pub drop_method: TopLevelName,
}

impl PreludeNames {
    /// The names, if the prelude declares them all.
    pub open spec fn of(database: Database) -> Option<PreludeNames> {
        match (
            database.exported_type(PRELUDE, "Copy"@),
            database.exported_type(PRELUDE, "Drop"@),
            database.exported_definition(PRELUDE, "drop"@),
        ) {
            (Some(copy_type), Some(drop_type), Some(drop_method)) => Some(
                PreludeNames { copy_type, drop_type, drop_method },
            ),
            _ => None,
        }
    }

    /// Look the names up in the prelude.
    pub fn find(database: &Database) -> (names: Option<PreludeNames>)
        ensures
            names == PreludeNames::of(*database),
    {
        match (
            database.find_exported_type(PRELUDE, "Copy"),
            database.find_exported_type(PRELUDE, "Drop"),
            database.find_exported_definition(PRELUDE, "drop"),
        ) {
            (Some(copy_type), Some(drop_type), Some(drop_method)) => Some(
                PreludeNames { copy_type, drop_type, drop_method },
            ),
            _ => None,
        }
    }
}

/// What the checks are told and never change.
pub struct Facts {
    pub database: Database,
    pub prelude: PreludeNames,
    /// The pairs of types that unify, each with the bindings that make them equal.
    pub unifications: Table<(Type, Type), Vec<(TypeVariableId, Type)>>,
    /// The types of top-level names.
    pub top_level_types: Table<TopLevelName, Type>,
    /// The types that make a closure own the slot of its environment they are the type of.
    pub owned_slots: Table<Type, bool>,
}

/// What the checks report.
pub enum Diagnostic {
    UseOfMovedValue { name: String, location: Location, moved_in: Location },
    MoveInRepeatedContext { name: String, context: RepeatedContext, location: Location },
    ReferenceEscapesScope { location: Location },
    MissingDropConstraint { typ: Type, location: Location },
    DropImplForSharedType { location: Location },
}

/// What may run more than once.
#[derive(Clone, Copy, Debug, PartialEq, Eq, Structural)]
pub enum RepeatedContext {
    HandlerBranch,
    ForLoop,
    WhileLoop,
}

/// What a `Diagnostic` says.
#[verifier::ext_equal]
pub enum Report {
    UseOfMovedValue { name: Seq<char>, location: Location, moved_in: Location },
    MoveInRepeatedContext { name: Seq<char>, context: RepeatedContext, location: Location },
    ReferenceEscapesScope { location: Location },
    MissingDropConstraint { typ: Type, location: Location },
    DropImplForSharedType { location: Location },
}

impl View for Diagnostic {
    type V = Report;

    open spec fn view(&self) -> Report {
        match *self {
            Diagnostic::UseOfMovedValue { name, location, moved_in } => Report::UseOfMovedValue {
                name: name@,
                location,
                moved_in,
            },
            Diagnostic::MoveInRepeatedContext {
                name,
                context,
                location,
            } => Report::MoveInRepeatedContext { name: name@, context, location },
            Diagnostic::ReferenceEscapesScope { location } => Report::ReferenceEscapesScope {
                location,
            },
            Diagnostic::MissingDropConstraint { typ, location } => Report::MissingDropConstraint {
                typ,
                location,
            },
            Diagnostic::DropImplForSharedType { location } => Report::DropImplForSharedType {
                location,
            },
        }
    }
}

/// What the checks ask of inference, in the order they ask it.
#[derive(Debug)]
pub enum Request {
    /// Infer `expr` against `typ`, with moves neither checked nor recorded: the value it uses is
    /// dead already.
    CheckQuietly { expr: ExprId, typ: Type },
    /// Make the environment of the closure `expr` the expected one.
    UnifyEnvironment { actual: Type, expected: Type, expr: ExprId },
}

/// The kind of scope a `DropScope` tracks.
#[derive(Clone, Copy, Debug, PartialEq, Eq, Structural)]
pub enum DropScopeKind {
    /// A block, which exits behind its last statement.
    Block,
    /// A function body, which owns the parameters. `return` unwinds to here.
    Function,
    /// A loop body. `break` and `continue` unwind to here.
    LoopBody,
}

/// The owned locals a scope declares, in the order it declares them.
pub struct DropScope {
    pub kind: DropScopeKind,
    pub names: Vec<NameId>,
}

/// What a `DropScope` holds.
#[verifier::ext_equal]
pub struct ScopeState {
    pub kind: DropScopeKind,
    pub names: Seq<NameId>,
}

impl View for DropScope {
    type V = ScopeState;

    open spec fn view(&self) -> ScopeState {
        ScopeState { kind: self.kind, names: self.names@ }
    }
}

/// For some functions of some items, a flag for each explicit parameter.
pub type Masks = Table<(TopLevelId, NameId), Vec<bool>>;

pub open spec fn masks(table: Seq<((TopLevelId, NameId), Vec<bool>)>) -> Seq<
    ((TopLevelId, NameId), Seq<bool>),
> {
    table.map_values(|entry: ((TopLevelId, NameId), Vec<bool>)| (entry.0, entry.1@))
}

/// Setting flags sets what is known of them.
proof fn masks_put(
    table: Seq<((TopLevelId, NameId), Vec<bool>)>,
    key: (TopLevelId, NameId),
    mask: Vec<bool>,
)
    ensures
        masks(put(table, key, mask)) == put(masks(table), key, mask@),
    decreases table.len(),
{
    if table.len() == 0 {
        assert(masks(put(table, key, mask)) =~= put(masks(table), key, mask@));
    } else if table[0].0 == key {
        assert(masks(put(table, key, mask)) =~= put(masks(table), key, mask@));
    } else {
        masks_put(table.drop_first(), key, mask);
        assert(masks(table).drop_first() =~= masks(table.drop_first()));
        assert(masks(put(table, key, mask)) =~= put(masks(table), key, mask@));
    }
}

/// Set the flags of a function.
pub fn put_mask(table: &mut Masks, item: TopLevelId, name: NameId, mask: Vec<bool>)
    ensures
        masks(final(table)@) == put(masks(old(table)@), (item, name), mask@),
{
    proof {
        masks_put(table@, (item, name), mask);
    }
    table.put((item, name), mask);
}

pub struct TypeChecker<'a> {
    pub facts: &'a Facts,
    pub context: Context,
    pub current_item: Option<TopLevelId>,
    pub bindings: TypeBindings,
    pub name_types: FxHashMap<NameId, Type>,
    pub expr_types: FxHashMap<ExprId, Type>,
    pub path_types: FxHashMap<PathId, Type>,
    pub next_variable: TypeVariableId,
    /// The type variables of number literals, which become a number type in the end.
    pub integer_literal_vars: FxHashSet<TypeVariableId>,
    pub float_literal_vars: FxHashSet<TypeVariableId>,
    /// The type variables of the signature of the current item.
    pub signature_type_vars: FxHashSet<TypeVariableId>,
    pub implicits_in_scope: Vec<NameId>,
    /// Which types a search for `Copy` was made for in which file, and what it found.
    pub copy_search_cache: Table<(u32, Type), bool>,
    pub move_tracker: MoveTracker,
    /// The bindings that are a part of another place.
    pub binding_places: FxHashMap<NameId, MovePath>,
    pub mutable_definitions: FxHashSet<NameId>,
    /// The names some closure captured, which may outlive the scope that owns them.
    pub captured_names: FxHashSet<NameId>,
    /// The bindings that alias another one and own nothing.
    pub borrowed_bindings: FxHashSet<NameId>,
    /// The parameters the caller owns.
    pub borrowed_local_params: FxHashSet<NameId>,
    pub effect_continuation_names: FxHashSet<NameId>,
    /// The shared captures of each closure binding, which its death releases.
    pub shared_closure_captures: FxHashMap<NameId, Vec<NameId>>,
    pub drop_scopes: Vec<DropScope>,
    /// The owned locals of each enclosing function, the innermost last.
    pub function_local_names: Vec<Vec<NameId>>,
    pub synthesizing_drops: bool,
    pub suppress_move_record: bool,
    pub suppress_missing_drop_diagnostic: bool,
    pub in_handler_scoped_lambda: bool,
    pub drop_expansion_depth: u32,
    pub call_argument_depth: u32,
    pub diagnosed_missing_drops: FxHashSet<PlaceKey>,
    pub pending_autoref_temp_drops: Vec<ExprId>,
    /// Which explicit parameters of each function borrow.
    pub borrowed_param_masks: Masks,
    /// Which explicit parameters of each function the returned references may point into.
    pub return_origin_summaries: Masks,
    pub diagnostics: Vec<Diagnostic>,
    pub requests: Vec<Request>,
}

/// What a `TypeChecker` holds.
#[verifier::ext_equal]
pub struct State {
    pub facts: Facts,
    pub context: ContextState,
    pub current_item: Option<TopLevelId>,
    pub bindings: Map<TypeVariableId, Type>,
    pub name_types: Map<NameId, Type>,
    pub expr_types: Map<ExprId, Type>,
    pub path_types: Map<PathId, Type>,
    pub next_variable: TypeVariableId,
    pub integer_literal_vars: Set<TypeVariableId>,
    pub float_literal_vars: Set<TypeVariableId>,
    pub signature_type_vars: Set<TypeVariableId>,
    pub implicits_in_scope: Seq<NameId>,
    pub copy_search_cache: Seq<((u32, Type), bool)>,
    pub moves: Moves,
    pub binding_places: Map<NameId, Place>,
    pub mutable_definitions: Set<NameId>,
    pub captured_names: Set<NameId>,
    pub borrowed_bindings: Set<NameId>,
    pub borrowed_local_params: Set<NameId>,
    pub effect_continuation_names: Set<NameId>,
    pub shared_closure_captures: Map<NameId, Seq<NameId>>,
    pub drop_scopes: Seq<ScopeState>,
    pub function_local_names: Seq<Seq<NameId>>,
    pub synthesizing_drops: bool,
    pub suppress_move_record: bool,
    pub suppress_missing_drop_diagnostic: bool,
    pub in_handler_scoped_lambda: bool,
    pub drop_expansion_depth: u32,
    pub call_argument_depth: u32,
    pub diagnosed_missing_drops: Set<Place>,
    pub pending_autoref_temp_drops: Seq<ExprId>,
    pub borrowed_param_masks: Seq<((TopLevelId, NameId), Seq<bool>)>,
    pub return_origin_summaries: Seq<((TopLevelId, NameId), Seq<bool>)>,
    pub diagnostics: Seq<Report>,
    pub requests: Seq<Request>,
}

impl<'a> View for TypeChecker<'a> {
    type V = State;

    open spec fn view(&self) -> State {
        State {
            facts: *self.facts,
            context: self.context@,
            current_item: self.current_item,
            bindings: self.bindings@,
            name_types: self.name_types@,
            expr_types: self.expr_types@,
            path_types: self.path_types@,
            next_variable: self.next_variable,
            integer_literal_vars: self.integer_literal_vars@,
            float_literal_vars: self.float_literal_vars@,
            signature_type_vars: self.signature_type_vars@,
            implicits_in_scope: self.implicits_in_scope@,
            copy_search_cache: self.copy_search_cache@,
            moves: self.move_tracker@,
            binding_places: self.binding_places@.map_values(|path: MovePath| path@),
            mutable_definitions: self.mutable_definitions@,
            captured_names: self.captured_names@,
            borrowed_bindings: self.borrowed_bindings@,
            borrowed_local_params: self.borrowed_local_params@,
            effect_continuation_names: self.effect_continuation_names@,
            shared_closure_captures: lists(self.shared_closure_captures@),
            drop_scopes: self.drop_scopes@.map_values(|scope: DropScope| scope@),
            function_local_names: self.function_local_names@.map_values(
                |names: Vec<NameId>| names@,
            ),
            synthesizing_drops: self.synthesizing_drops,
            suppress_move_record: self.suppress_move_record,
            suppress_missing_drop_diagnostic: self.suppress_missing_drop_diagnostic,
            in_handler_scoped_lambda: self.in_handler_scoped_lambda,
            drop_expansion_depth: self.drop_expansion_depth,
            call_argument_depth: self.call_argument_depth,
            diagnosed_missing_drops: self.diagnosed_missing_drops.deep_view(),
            pending_autoref_temp_drops: self.pending_autoref_temp_drops@,
            borrowed_param_masks: masks(self.borrowed_param_masks@),
            return_origin_summaries: masks(self.return_origin_summaries@),
            diagnostics: self.diagnostics@.map_values(|d: Diagnostic| d@),
            requests: self.requests@,
        }
    }
}

impl State {
    /// Nothing was checked yet.
    pub open spec fn nothing(facts: Facts, context: ContextState) -> State {
        State {
            facts,
            context,
            current_item: None,
            bindings: Map::empty(),
            name_types: Map::empty(),
            expr_types: Map::empty(),
            path_types: Map::empty(),
            next_variable: 0,
            integer_literal_vars: Set::empty(),
            float_literal_vars: Set::empty(),
            signature_type_vars: Set::empty(),
            implicits_in_scope: Seq::empty(),
            copy_search_cache: Seq::empty(),
            moves: Moves { moved: Map::empty(), errored: Set::empty() },
            binding_places: Map::empty(),
            mutable_definitions: Set::empty(),
            captured_names: Set::empty(),
            borrowed_bindings: Set::empty(),
            borrowed_local_params: Set::empty(),
            effect_continuation_names: Set::empty(),
            shared_closure_captures: Map::empty(),
            drop_scopes: Seq::empty(),
            function_local_names: Seq::empty(),
            synthesizing_drops: false,
            suppress_move_record: false,
            suppress_missing_drop_diagnostic: false,
            in_handler_scoped_lambda: false,
            drop_expansion_depth: 0,
            call_argument_depth: 0,
            diagnosed_missing_drops: Set::empty(),
            pending_autoref_temp_drops: Seq::empty(),
            borrowed_param_masks: Seq::empty(),
            return_origin_summaries: Seq::empty(),
            diagnostics: Seq::empty(),
            requests: Seq::empty(),
        }
    }
}

impl<'a> TypeChecker<'a> {
    /// The checks of an item that nothing was checked of yet.
    pub fn new(facts: &'a Facts, context: Context) -> (checker: TypeChecker<'a>)
        ensures
            checker@ == State::nothing(*facts, context@),
    {
        let checker = TypeChecker {
            facts,
            context,
            current_item: None,
            bindings: FxHashMap::default(),
            name_types: FxHashMap::default(),
            expr_types: FxHashMap::default(),
            path_types: FxHashMap::default(),
            next_variable: 0,
            integer_literal_vars: FxHashSet::default(),
            float_literal_vars: FxHashSet::default(),
            signature_type_vars: FxHashSet::default(),
            implicits_in_scope: Vec::new(),
            copy_search_cache: Table::new(),
            move_tracker: MoveTracker::default(),
            binding_places: FxHashMap::default(),
            mutable_definitions: FxHashSet::default(),
            captured_names: FxHashSet::default(),
            borrowed_bindings: FxHashSet::default(),
            borrowed_local_params: FxHashSet::default(),
            effect_continuation_names: FxHashSet::default(),
            shared_closure_captures: FxHashMap::default(),
            drop_scopes: Vec::new(),
            function_local_names: Vec::new(),
            synthesizing_drops: false,
            suppress_move_record: false,
            suppress_missing_drop_diagnostic: false,
            in_handler_scoped_lambda: false,
            drop_expansion_depth: 0,
            call_argument_depth: 0,
            diagnosed_missing_drops: FxHashSet::default(),
            pending_autoref_temp_drops: Vec::new(),
            borrowed_param_masks: Table::new(),
            return_origin_summaries: Table::new(),
            diagnostics: Vec::new(),
            requests: Vec::new(),
        };
        assert(checker@ =~= State::nothing(*facts, context@));
        checker
    }
}

/// The number behind `id`, which starts over behind the last one.
pub open spec fn successor(id: u32) -> u32 {
    if id == 0xffff_ffff {
        0
    } else {
        (id + 1) as u32
    }
}

impl State {
    pub open spec fn follow(self, typ: Type) -> Type {
        typ.followed(self.bindings)
    }

    /// The type of a name. One without a type is an error that was reported before.
    pub open spec fn type_of_name(self, name: NameId) -> Type {
        if self.name_types.contains_key(name) {
            self.name_types[name]
        } else {
            Type::error()
        }
    }

    pub open spec fn type_of_expr(self, expr: ExprId) -> Option<Type> {
        if self.expr_types.contains_key(expr) {
            Some(self.expr_types[expr])
        } else {
            None
        }
    }

    /// The type of the name is a reference or a raw pointer.
    pub open spec fn is_reference_typed(self, name: NameId) -> bool {
        self.name_types.contains_key(name) && {
            let typ = self.name_types[name];
            typ.referent(self.bindings) is Some || typ.pointee(self.bindings) is Some
        }
    }

    /// An owned local of the innermost function.
    pub open spec fn is_own_local(self, name: NameId) -> bool {
        self.function_local_names.len() > 0 && self.function_local_names.last().contains(name)
    }

    /// An owned local of some enclosing function.
    pub open spec fn is_enclosing_local(self, name: NameId) -> bool {
        exists|i: int|
            0 <= i < self.function_local_names.len() && (
            #[trigger] self.function_local_names[i]).contains(name)
    }

    /// The one variable a pattern binds, through annotations.
    pub open spec fn single_variable_at(self, pattern: PatternId, depth: nat) -> Option<NameId>
        decreases depth,
    {
        if depth == 0 {
            None
        } else {
            match self.context.pattern(pattern) {
                PatternForm::Variable(name) => Some(name),
                PatternForm::TypeAnnotation(inner) => self.single_variable_at(
                    inner,
                    (depth - 1) as nat,
                ),
                _ => None,
            }
        }
    }

    pub open spec fn single_variable(self, pattern: PatternId) -> Option<NameId> {
        self.single_variable_at(pattern, NESTING_LIMIT as nat)
    }

    /// The name a top-level definition binds, which may be that of a method.
    pub open spec fn binding_name_at(self, pattern: PatternId, depth: nat) -> Option<NameId>
        decreases depth,
    {
        if depth == 0 {
            None
        } else {
            match self.context.pattern(pattern) {
                PatternForm::Variable(name) => Some(name),
                PatternForm::MethodName { item_name } => Some(item_name),
                PatternForm::TypeAnnotation(inner) => self.binding_name_at(
                    inner,
                    (depth - 1) as nat,
                ),
                _ => None,
            }
        }
    }

    pub open spec fn diverges(self, typ: Type) -> bool {
        self.follow(typ) == Type::Primitive(PrimitiveType::Never)
    }

    /// Whether the owned locals of scopes are tracked: values are dropped automatically, and
    /// neither is a drop being made nor are moves left unrecorded.
    pub open spec fn elaborates_drops(self) -> bool {
        self.facts.database.auto_drop && !self.synthesizing_drops && !self.suppress_move_record
    }

    pub open spec fn next_expr(self) -> ExprId {
        self.context.next_expr()
    }

    /// This state with one more expression.
    pub open spec fn with_expr(self, expr: ExprForm, typ: Type, location: Location) -> State {
        State {
            context: self.context.with_expr(expr, location),
            expr_types: self.expr_types.insert(self.next_expr(), typ),
            ..self
        }
    }

    /// The next type variable.
    pub open spec fn fresh_type(self) -> Type {
        Type::Variable(self.next_variable)
    }

    pub open spec fn with_fresh_type(self) -> State {
        State { next_variable: successor(self.next_variable), ..self }
    }

    pub open spec fn next_path(self) -> PathId {
        self.context.next_path()
    }

    /// This state with one more path.
    pub open spec fn with_path(
        self,
        text: Seq<char>,
        typ: Type,
        origin: Origin,
        location: Location,
    ) -> State {
        State {
            context: self.context.with_path(text, origin, location),
            path_types: self.path_types.insert(self.next_path(), typ),
            ..self
        }
    }

    pub open spec fn next_pattern(self) -> PatternId {
        self.context.next_pattern()
    }

    pub open spec fn with_pattern(self, pattern: PatternForm, location: Location) -> State {
        State { context: self.context.with_pattern(pattern, location), ..self }
    }

    pub open spec fn next_name(self) -> NameId {
        self.context.next_name()
    }

    /// This state with a new variable of type `typ`, and a path to it.
    pub open spec fn with_variable(self, text: Seq<char>, typ: Type, location: Location) -> State {
        let name = self.next_name();
        let named = State {
            context: self.context.with_name(text, location),
            name_types: self.name_types.insert(name, typ),
            ..self
        };
        named.with_path(text, typ, Origin::Local(name), location)
    }

    /// This state with the expression `name = rhs`.
    pub open spec fn with_binding(self, name: NameId, rhs: ExprId) -> State {
        let location = self.context.expr_location(rhs);
        let pattern = self.next_pattern();
        self.with_pattern(PatternForm::Variable(name), location).with_expr(
            ExprForm::Definition(Definition { pattern, rhs, mutable: false }),
            Type::unit(),
            location,
        )
    }

    /// This state with inference asked to check `expr` with moves left alone.
    pub open spec fn with_quiet_check(self, expr: ExprId, typ: Type) -> State {
        State { requests: self.requests.push(Request::CheckQuietly { expr, typ }), ..self }
    }

    pub open spec fn with_report(self, report: Report) -> State {
        State { diagnostics: self.diagnostics.push(report), ..self }
    }
}

impl<'a> TypeChecker<'a> {
    pub fn follow_type<'b>(&'b self, typ: &'b Type) -> (followed: &'b Type)
        ensures
            *followed == self@.follow(*typ),
    {
        typ.follow(&self.bindings)
    }

    pub fn type_of_name(&self, name: NameId) -> (typ: Type)
        ensures
            typ == self@.type_of_name(name),
    {
        match map_get(&self.name_types, name) {
            Some(typ) => typ.clone(),
            None => Type::Primitive(PrimitiveType::Error),
        }
    }

    pub fn type_of_expr(&self, expr: ExprId) -> (typ: Option<Type>)
        ensures
            typ == self@.type_of_expr(expr),
    {
        match map_get(&self.expr_types, expr) {
            Some(typ) => Some(typ.clone()),
            None => None,
        }
    }

    pub fn name_is_reference_typed(&self, name: NameId) -> (reference: bool)
        ensures
            reference == self@.is_reference_typed(name),
    {
        match map_get(&self.name_types, name) {
            Some(typ) => typ.reference_element(&self.bindings).is_some() || typ.pointer_element(
                &self.bindings,
            ).is_some(),
            None => false,
        }
    }

    /// Whether `name` is an owned local of the innermost function. Names of outer functions are
    /// captured, and are not dropped where this function returns.
    pub fn name_is_local_to_current_function(&self, name: NameId) -> (local: bool)
        ensures
            local == self@.is_own_local(name),
    {
        let count: usize = self.function_local_names.len();
        count > 0 && is_listed(&self.function_local_names[count - 1], name)
    }

    /// Whether `name` is an owned local of some enclosing function.
    pub fn name_is_local_to_any_enclosing_function(&self, name: NameId) -> (local: bool)
        ensures
            local == self@.is_enclosing_local(name),
    {
        let mut i: usize = 0;
        while i < self.function_local_names.len()
            invariant
                i <= self.function_local_names.len(),
                forall|j: int|
                    0 <= j < i ==> !(#[trigger] self@.function_local_names[j]).contains(name),
            decreases self.function_local_names.len() - i,
        {
            assert(self@.function_local_names[i as int] == self.function_local_names@[i as int]@);
            if is_listed(&self.function_local_names[i], name) {
                return true;
            }
            i += 1;
        }
        false
    }

    fn single_variable_pattern_at(&self, pattern: PatternId, depth: u64) -> (name: Option<NameId>)
        ensures
            name == self@.single_variable_at(pattern, depth as nat),
        decreases depth,
    {
        if depth == 0 {
            return None;
        }
        match self.context.pattern(pattern) {
            Pattern::Variable(name) => Some(*name),
            Pattern::TypeAnnotation(inner) => self.single_variable_pattern_at(*inner, depth - 1),
            _ => None,
        }
    }

    /// The one variable a pattern binds, through annotations, if it is that simple.
    pub fn single_variable_pattern(&self, pattern: PatternId) -> (name: Option<NameId>)
        ensures
            name == self@.single_variable(pattern),
    {
        self.single_variable_pattern_at(pattern, NESTING_LIMIT)
    }

    fn definition_binding_name_at(&self, pattern: PatternId, depth: u64) -> (name: Option<NameId>)
        ensures
            name == self@.binding_name_at(pattern, depth as nat),
        decreases depth,
    {
        if depth == 0 {
            return None;
        }
        match self.context.pattern(pattern) {
            Pattern::Variable(name) => Some(*name),
            Pattern::MethodName { item_name } => Some(*item_name),
            Pattern::TypeAnnotation(inner) => self.definition_binding_name_at(*inner, depth - 1),
            _ => None,
        }
    }

    /// The name a top-level definition binds, which may be that of a method.
    pub fn definition_binding_name(&self, pattern: PatternId) -> (name: Option<NameId>)
        ensures
            name == self@.binding_name_at(pattern, NESTING_LIMIT as nat),
    {
        self.definition_binding_name_at(pattern, NESTING_LIMIT)
    }

    pub fn diverges(&self, typ: &Type) -> (diverges: bool)
        ensures
            diverges == self@.diverges(*typ),
    {
        match self.follow_type(typ) {
            Type::Primitive(PrimitiveType::Never) => true,
            _ => false,
        }
    }

    /// Whether the owned locals of scopes are tracked here.
    pub fn drop_elaboration_active(&self) -> (active: bool)
        ensures
            active == self@.elaborates_drops(),
    {
        self.facts.database.auto_drop && !self.synthesizing_drops && !self.suppress_move_record
    }

    pub fn push_expr(&mut self, expr: Expr, typ: Type, location: Location) -> (id: ExprId)
        ensures
            id == old(self)@.next_expr(),
            final(self)@ == old(self)@.with_expr(expr@, typ, location),
    {
        let id = self.context.push_expr(expr, location);
        map_insert(&mut self.expr_types, id, typ);
        id
    }

    pub fn next_type_variable(&mut self) -> (typ: Type)
        ensures
            typ == old(self)@.fresh_type(),
            final(self)@ == old(self)@.with_fresh_type(),
    {
        let id = self.next_variable;
        self.next_variable = if id == 0xffff_ffff {
            0
        } else {
            id + 1
        };
        Type::Variable(id)
    }

    pub fn push_path(&mut self, text: String, typ: Type, origin: Origin, location: Location) -> (id:
        PathId)
        ensures
            id == old(self)@.next_path(),
            final(self)@ == old(self)@.with_path(text@, typ, origin, location),
    {
        let id = self.context.push_path(text, origin, location);
        map_insert(&mut self.path_types, id, typ);
        id
    }

    pub fn push_pattern(&mut self, pattern: Pattern, location: Location) -> (id: PatternId)
        ensures
            id == old(self)@.next_pattern(),
            final(self)@ == old(self)@.with_pattern(pattern@, location),
    {
        self.context.push_pattern(pattern, location)
    }

    /// Declare a new variable of type `typ`, and make a path to it.
    pub fn fresh_variable(&mut self, text: &str, typ: &Type, location: Location) -> (name: NameId)
        ensures
            name == old(self)@.next_name(),
            final(self)@ == old(self)@.with_variable(text@, *typ, location),
    {
        let name = self.context.push_name(text.to_owned(), location);
        map_insert(&mut self.name_types, name, typ.clone());
        self.push_path(text.to_owned(), typ.clone(), Origin::Local(name), location);
        name
    }

    /// Make the expression `name = rhs`.
    pub fn let_binding(&mut self, name: NameId, rhs: ExprId) -> (id: ExprId)
        ensures
            id == old(self)@.next_expr(),
            final(self)@ == old(self)@.with_binding(name, rhs),
    {
        let location = self.context.expr_location(rhs);
        let pattern = self.push_pattern(Pattern::Variable(name), location);
        self.push_expr(
            Expr::Definition(Definition { pattern, rhs, mutable: false }),
            Type::Primitive(PrimitiveType::Unit),
            location,
        )
    }

    /// Ask inference to check `expr`, whose value is dead here: the use must neither check moves
    /// nor record them, and must not be elaborated itself.
    pub fn check_quietly(&mut self, expr: ExprId, typ: &Type)
        ensures
            final(self)@ == old(self)@.with_quiet_check(expr, *typ),
    {
        self.requests.push(Request::CheckQuietly { expr, typ: typ.clone() });
    }

    pub fn report(&mut self, diagnostic: Diagnostic)
        ensures
            final(self)@ == old(self)@.with_report(diagnostic@),
    {
        self.diagnostics.push(diagnostic);
        assert(self@.diagnostics =~= old(self)@.diagnostics.push(diagnostic@));
    }
}

} // verus!

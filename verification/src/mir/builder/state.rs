//! What lowering an item works on.

use crate::collections::Table;
#[allow(unused_imports)]
use crate::collections::{lookup, put};
use crate::cst::Context;
use crate::database::Database;
use crate::ids::{
    BlockId, DefinitionId, ExprId, NameId, Origin, PathId, PatternId, TopLevelId, TopLevelName,
    ENTRY_BLOCK, RELEASE_FUNCTION,
};
use crate::mir::builder::ids::SharedIds;
#[allow(unused_imports)]
use crate::mir::builder::ids::IdState;
use crate::mir::{Definition, Extern, FloatConstant, IntConstant, PrimitiveType, Type, Types, Value};
#[allow(unused_imports)]
use crate::mir::{BlockState, DefinitionState, ExternState, Operation, Pair, Terminator};
use crate::types::{FloatKind, Generic, Generics, IntegerKind, TypeBindings};
use rustc_hash::{FxHashMap, FxHashSet};
use vstd::prelude::*;

/// A type of the source language.
pub use crate::types::Type as TCType;

verus! {

/// What a case of a match matches.
#[derive(Clone, Copy, Debug, PartialEq, Eq, Structural)]
pub enum Constructor {
    False,
    True,
    Unit,
    Int(u64),
    /// A variant, by its place among the variants.
    Variant(u32),
    Range(u64, u64),
}

/// The tests of a match, and what each outcome runs.
pub enum DecisionTree {
    Success(ExprId),
    Failure,
    Guard { condition: ExprId, success: ExprId, otherwise: Box<DecisionTree> },
    Switch(PathId, Box<Cases>, Option<Box<DecisionTree>>),
}

pub enum Cases {
    Nil,
    Cons(Box<Case>, Box<Cases>),
}

pub struct Case {
    pub constructor: Constructor,
    /// The variables the payloads are bound to.
    pub arguments: Vec<PathId>,
    pub body: DecisionTree,
}

impl Cases {
    pub open spec fn items(self) -> Seq<Case>
        decreases self,
    {
        match self {
            Cases::Nil => Seq::empty(),
            Cases::Cons(case, rest) => seq![*case] + rest.items(),
        }
    }
}

/// The effects of a row, and whether the row is open.
pub struct Row {
    pub effects: Vec<TCType>,
    pub is_open: bool,
}

/// What inference found out about an item, and what other items are asked for.
pub struct Answers {
    pub database: Database,
    pub context: Context,
    pub bindings: TypeBindings,
    pub expr_types: FxHashMap<ExprId, TCType>,
    pub path_types: FxHashMap<PathId, TCType>,
    pub pattern_types: FxHashMap<PatternId, TCType>,
    pub name_types: FxHashMap<NameId, TCType>,
    /// The types of the names the item defines, over the generics they quantify.
    pub generalized: FxHashMap<NameId, TCType>,
    pub name_origins: FxHashMap<NameId, Origin>,
    /// The types each path to a generic definition is used at.
    pub instantiations: FxHashMap<PathId, Vec<TCType>>,
    /// The definition of the variable each match is on, and the tests of the match.
    pub decision_trees: FxHashMap<ExprId, (ExprId, DecisionTree)>,
    /// The place of each field of each constructor expression among the declared fields.
    pub field_orders: Table<(ExprId, NameId), u32>,
    /// The right hand sides whose binding takes a handle of its own.
    pub retain_bindings: FxHashSet<ExprId>,
    /// The places that are read by copying.
    pub copy_places: FxHashSet<ExprId>,
    /// The calls of operations of the target, each with the number of its operation.
    pub intrinsics: FxHashMap<ExprId, u32>,
    /// Which parameters of each definition borrow.
    pub borrowed_params: Table<TopLevelName, Vec<bool>>,
    /// The types of definitions of other items, over the generics they quantify. No type variable
    /// is left in them to follow.
    pub callee_types: Table<TopLevelName, TCType>,
    /// The layout of each type, with given generics in scope.
    pub layouts: Table<(Generics, TCType), Type>,
    /// The layout of each function type as the target calls it: without evidence.
    pub c_layouts: Table<(Generics, TCType), Type>,
    /// The layout of the evidence of each effect row.
    pub evidence_layouts: Table<(Generics, TCType), Type>,
    /// The layout of the capability of each effect.
    pub capability_layouts: Table<(Generics, TCType), Type>,
    /// The layout of what a handle of each shared type points at.
    pub shared_layouts: Table<(Generics, TCType), Type>,
    /// The layout of what a handle of each shared type that can be written to points at.
    pub shared_mut_layouts: Table<(Generics, TCType), Type>,
    /// The effects of each effect row.
    pub rows: Table<TCType, Row>,
    /// The layout of each generic type at given layouts.
    pub instances: Table<(TCType, Types), Type>,
}

impl Answers {
    /// Nothing was found out about an item yet.
    pub fn new(database: Database, context: Context) -> (answers: Answers)
        ensures
            answers.database == database,
            answers.context == context,
            answers.bindings@.dom() == Set::<u32>::empty(),
            answers.expr_types@.dom() == Set::<u32>::empty(),
            answers.path_types@.dom() == Set::<u32>::empty(),
            answers.pattern_types@.dom() == Set::<u32>::empty(),
            answers.name_types@.dom() == Set::<u32>::empty(),
            answers.generalized@.dom() == Set::<u32>::empty(),
            answers.name_origins@.dom() == Set::<u32>::empty(),
            answers.instantiations@.dom() == Set::<u32>::empty(),
            answers.decision_trees@.dom() == Set::<u32>::empty(),
            answers.field_orders@.len() == 0,
            answers.retain_bindings@ == Set::<u32>::empty(),
            answers.copy_places@ == Set::<u32>::empty(),
            answers.intrinsics@.dom() == Set::<u32>::empty(),
            answers.borrowed_params@.len() == 0,
            answers.callee_types@.len() == 0,
            answers.layouts@.len() == 0,
            answers.c_layouts@.len() == 0,
            answers.evidence_layouts@.len() == 0,
            answers.capability_layouts@.len() == 0,
            answers.shared_layouts@.len() == 0,
            answers.shared_mut_layouts@.len() == 0,
            answers.rows@.len() == 0,
            answers.instances@.len() == 0,
    {
        Answers {
            database,
            context,
            bindings: FxHashMap::default(),
            expr_types: FxHashMap::default(),
            path_types: FxHashMap::default(),
            pattern_types: FxHashMap::default(),
            name_types: FxHashMap::default(),
            generalized: FxHashMap::default(),
            name_origins: FxHashMap::default(),
            instantiations: FxHashMap::default(),
            decision_trees: FxHashMap::default(),
            field_orders: Table::new(),
            retain_bindings: FxHashSet::default(),
            copy_places: FxHashSet::default(),
            intrinsics: FxHashMap::default(),
            borrowed_params: Table::new(),
            callee_types: Table::new(),
            layouts: Table::new(),
            c_layouts: Table::new(),
            evidence_layouts: Table::new(),
            capability_layouts: Table::new(),
            shared_layouts: Table::new(),
            shared_mut_layouts: Table::new(),
            rows: Table::new(),
            instances: Table::new(),
        }
    }
}

/// Lowers an item.
pub struct Builder<'a> {
    pub answers: &'a Answers,
    pub top_level_id: TopLevelId,
    /// The generics in scope. A lowered generic is its place among them.
    pub generics: Vec<Generic>,
    pub current_function: Option<Definition>,
    pub current_block: BlockId,
    pub global_variables: Table<Origin, Value>,
    pub local_variables: FxHashMap<NameId, Value>,
    /// The locals whose value is a pointer to a slot of the stack.
    pub mutable_locals: FxHashSet<NameId>,
    /// Where `continue` and `break` go in each enclosing loop, the innermost last.
    pub loop_targets: Vec<(BlockId, BlockId)>,
    pub finished_functions: FxHashMap<DefinitionId, Definition>,
    pub ids: SharedIds,
    /// What is referred to and defined elsewhere.
    pub external: FxHashMap<DefinitionId, Extern>,
    /// The position of each operation that is performed in the body of its ability.
    pub effect_op_indices: FxHashMap<DefinitionId, u32>,
    /// The effects of the current function, each with its capability.
    pub effects: Vec<(TCType, Value)>,
    /// The effects of enclosing `handle`s, each with its capability.
    pub handle_capabilities: Table<ExprId, (TCType, Value)>,
    /// The evidence for the open end of the effects of the current function.
    pub capability_bundle: Option<Value>,
    /// Whether the item held what cannot be lowered.
    pub failed: bool,
}

/// What a `Builder` holds.
#[verifier::ext_equal]
pub struct Lowering {
    pub answers: Answers,
    pub top_level_id: TopLevelId,
    pub generics: Seq<Generic>,
    pub function: Option<DefinitionState>,
    pub block: BlockId,
    pub globals: Seq<(Origin, Value)>,
    pub locals: Map<NameId, Value>,
    pub mutable_locals: Set<NameId>,
    pub loop_targets: Seq<(BlockId, BlockId)>,
    pub finished: Map<DefinitionId, DefinitionState>,
    pub ids: IdState,
    pub external: Map<DefinitionId, ExternState>,
    pub op_indices: Map<DefinitionId, u32>,
    pub effects: Seq<(TCType, Value)>,
    pub handles: Seq<(ExprId, (TCType, Value))>,
    pub bundle: Option<Value>,
    pub failed: bool,
}

impl<'a> View for Builder<'a> {
    type V = Lowering;

    open spec fn view(&self) -> Lowering {
        Lowering {
            answers: *self.answers,
            top_level_id: self.top_level_id,
            generics: self.generics@,
            function: match self.current_function {
                Some(function) => Some(function@),
                None => None,
            },
            block: self.current_block,
            globals: self.global_variables@,
            locals: self.local_variables@,
            mutable_locals: self.mutable_locals@,
            loop_targets: self.loop_targets@,
            finished: self.finished_functions@.map_values(|d: Definition| d@),
            ids: self.ids@,
            external: self.external@.map_values(|e: Extern| e@),
            op_indices: self.effect_op_indices@,
            effects: self.effects@,
            handles: self.handle_capabilities@,
            bundle: self.capability_bundle,
            failed: self.failed,
        }
    }
}

/// The definition of a value before anything of it is lowered: its first block is empty.
pub open spec fn empty_definition(
    name: Seq<char>,
    id: DefinitionId,
    generic_count: u32,
    typ: Type,
) -> DefinitionState {
    DefinitionState {
        name,
        id,
        generic_count,
        typ,
        instructions: Seq::empty(),
        instruction_result_types: Seq::empty(),
        blocks: seq![empty_block(Seq::empty())],
        borrow_pairs: Seq::empty(),
    }
}

pub open spec fn empty_block(parameter_types: Seq<Type>) -> BlockState {
    BlockState { parameter_types, instructions: Seq::empty(), terminator: None }
}

/// The layout of a constant.
pub open spec fn constant_type(constant: IntConstant) -> Type {
    let kind = match constant {
        IntConstant::I8(_) => IntegerKind::I8,
        IntConstant::I16(_) => IntegerKind::I16,
        IntConstant::I32(_) => IntegerKind::I32,
        IntConstant::I64(_) => IntegerKind::I64,
        IntConstant::Isz(_) => IntegerKind::Isz,
        IntConstant::U8(_) => IntegerKind::U8,
        IntConstant::U16(_) => IntegerKind::U16,
        IntConstant::U32(_) => IntegerKind::U32,
        IntConstant::U64(_) => IntegerKind::U64,
        IntConstant::Usz(_) => IntegerKind::Usz,
    };
    Type::Primitive(PrimitiveType::Int(kind))
}

impl Lowering {
    /// This state once something was met that cannot be lowered.
    pub open spec fn fails(self) -> Lowering {
        Lowering { failed: true, ..self }
    }

    /// The current block, if there is one.
    pub open spec fn has_block(self) -> bool {
        match self.function {
            Some(function) => self.block < function.blocks.len(),
            None => false,
        }
    }

    pub open spec fn current(self) -> BlockState {
        self.function.unwrap().blocks[self.block as int]
    }

    /// The current block ends already.
    pub open spec fn is_terminated(self) -> bool {
        self.current().terminator is Some
    }

    /// This state with `block` as the current block.
    pub open spec fn with_current(self, block: BlockState) -> Lowering {
        let function = self.function.unwrap();
        Lowering {
            function: Some(
                DefinitionState {
                    blocks: function.blocks.update(self.block as int, block),
                    ..function
                },
            ),
            ..self
        }
    }

    /// What an instruction gives at the end of the current block. Nothing is added behind the end
    /// of a block.
    #[verifier::opaque]
    pub open spec fn pushed(self, operation: Operation, typ: Type) -> (Value, Lowering) {
        if !self.has_block() {
            (Value::Error, self.fails())
        } else if self.is_terminated() {
            (Value::Unit, self)
        } else {
            let function = self.function.unwrap();
            let id = function.instructions.len() as u32;
            let block = self.current();
            let added = DefinitionState {
                instructions: function.instructions.push(operation),
                instruction_result_types: function.instruction_result_types.push(typ),
                blocks: function.blocks.update(
                    self.block as int,
                    BlockState { instructions: block.instructions.push(id), ..block },
                ),
                ..function
            };
            (Value::InstructionResult(id), Lowering { function: Some(added), ..self })
        }
    }

    /// This state with one more block.
    #[verifier::opaque]
    pub open spec fn with_block(self, parameter_types: Seq<Type>) -> (BlockId, Lowering) {
        match self.function {
            None => (ENTRY_BLOCK, self.fails()),
            Some(function) => (
                function.blocks.len() as u32,
                Lowering {
                    function: Some(
                        DefinitionState {
                            blocks: function.blocks.push(empty_block(parameter_types)),
                            ..function
                        },
                    ),
                    ..self
                },
            ),
        }
    }

    /// This state in `block`.
    pub open spec fn switched_to(self, block: BlockId) -> Lowering {
        Lowering { block, ..self }
    }

    /// This state with one more parameter of the current block.
    #[verifier::opaque]
    pub open spec fn with_parameter(self, typ: Type) -> Lowering {
        if !self.has_block() {
            self.fails()
        } else {
            let block = self.current();
            self.with_current(
                BlockState { parameter_types: block.parameter_types.push(typ), ..block },
            )
        }
    }

    /// One more parameter of the current block, and its value.
    #[verifier::opaque]
    pub open spec fn with_capability_parameter(self, typ: Type) -> (Value, Lowering) {
        if !self.has_block() {
            (Value::Error, self.fails())
        } else {
            let index = self.current().parameter_types.len() as u32;
            (Value::Parameter(self.block, index), self.with_parameter(typ))
        }
    }

    /// This state with the current block ended. A block that ended already stays as it is.
    #[verifier::opaque]
    pub open spec fn terminated(self, terminator: Terminator) -> Lowering {
        if !self.has_block() {
            self.fails()
        } else if self.is_terminated() {
            self
        } else {
            self.with_current(BlockState { terminator: Some(terminator), ..self.current() })
        }
    }

    /// The layout of a definition.
    pub open spec fn definition_type(self, id: DefinitionId) -> Type {
        if self.function matches Some(function) && function.id == id {
            self.function.unwrap().typ
        } else if self.finished.contains_key(id) {
            self.finished[id].typ
        } else if self.external.contains_key(id) {
            self.external[id].typ
        } else {
            Type::error()
        }
    }

    /// The layout of a value.
    #[verifier::opaque]
    pub open spec fn value_type(self, value: Value) -> Type {
        match value {
            Value::Error => Type::error(),
            Value::Unit => Type::unit(),
            Value::Bool(_) => Type::boolean(),
            Value::Char(_) => Type::Primitive(PrimitiveType::Char),
            Value::Integer(constant) => constant_type(constant),
            Value::Float(FloatConstant::F32(_)) => Type::Primitive(
                PrimitiveType::Float(FloatKind::F32),
            ),
            Value::Float(FloatConstant::F64(_)) => Type::Primitive(
                PrimitiveType::Float(FloatKind::F64),
            ),
            Value::InstructionResult(id) => match self.function {
                Some(function) => if id < function.instruction_result_types.len() {
                    function.instruction_result_types[id as int]
                } else {
                    Type::error()
                },
                None => Type::error(),
            },
            Value::Parameter(block, index) => match self.function {
                Some(function) => if block < function.blocks.len() && index
                    < function.blocks[block as int].parameter_types.len() {
                    function.blocks[block as int].parameter_types[index as int]
                } else {
                    Type::error()
                },
                None => Type::error(),
            },
            Value::Definition(id) => self.definition_type(id),
        }
    }

    /// The instruction that gives a value.
    pub open spec fn operation_of(self, value: Value) -> Option<Operation> {
        match (value, self.function) {
            (Value::InstructionResult(id), Some(function)) => if id < function.instructions.len() {
                Some(function.instructions[id as int])
            } else {
                None
            },
            _ => None,
        }
    }

    /// This state with a retain and the release that balances it noted.
    #[verifier::opaque]
    pub open spec fn with_borrow_pair(self, pair: Pair) -> Lowering {
        match self.function {
            Some(function) => Lowering {
                function: Some(
                    DefinitionState { borrow_pairs: function.borrow_pairs.push(pair), ..function },
                ),
                ..self
            },
            None => self.fails(),
        }
    }

    /// This state with the instantiation that gives a value replaced.
    #[verifier::opaque]
    pub open spec fn with_instantiation(
        self,
        value: Value,
        id: DefinitionId,
        types: Seq<Type>,
        typ: Type,
    ) -> Lowering {
        match (value, self.function) {
            (Value::InstructionResult(at), Some(function)) => if at < function.instructions.len()
                && at < function.instruction_result_types.len() {
                Lowering {
                    function: Some(
                        DefinitionState {
                            instructions: function.instructions.update(
                                at as int,
                                Operation::Instantiate(id, types),
                            ),
                            instruction_result_types: function.instruction_result_types.update(
                                at as int,
                                typ,
                            ),
                            ..function
                        },
                    ),
                    ..self
                }
            } else {
                self
            },
            _ => self,
        }
    }

    pub open spec fn with_local(self, name: NameId, value: Value) -> Lowering {
        Lowering { locals: self.locals.insert(name, value), ..self }
    }

    pub open spec fn with_mutable_local(self, name: NameId) -> Lowering {
        Lowering { mutable_locals: self.mutable_locals.insert(name), ..self }
    }

    /// This state with a variable bound.
    #[verifier::opaque]
    pub open spec fn with_variable(self, origin: Origin, value: Value) -> Lowering {
        match origin {
            Origin::Local(name) => self.with_local(name, value),
            other => Lowering { globals: put(self.globals, other, value), ..self },
        }
    }

    pub open spec fn with_op_index(self, operation: DefinitionId, index: u32) -> Lowering {
        Lowering { op_indices: self.op_indices.insert(operation, index), ..self }
    }

    /// The id of a name, which is a new one if it has none yet.
    #[verifier::opaque]
    pub open spec fn id_of(self, name: TopLevelName) -> (DefinitionId, Lowering) {
        let (id, ids) = self.ids.id_of(name);
        (id, Lowering { ids, ..self })
    }

    pub open spec fn with_id(self, name: TopLevelName, id: DefinitionId) -> Lowering {
        Lowering { ids: self.ids.with_id(name, id), ..self }
    }

    /// How a definition is written. A release function is no name of its item.
    pub open spec fn name_of(self, name: TopLevelName) -> Seq<char> {
        if name.local_name_id == RELEASE_FUNCTION {
            "release"@
        } else {
            match lookup(self.answers.database.names@, name) {
                Some(text) => text@,
                None => Seq::empty(),
            }
        }
    }

    /// A reference to a definition. What is neither finished nor the current definition is noted
    /// as defined elsewhere.
    #[verifier::opaque]
    pub open spec fn definition_value(self, id: DefinitionId, name: Seq<char>, typ: Type) -> (
        Value,
        Lowering,
    ) {
        let is_current = self.function matches Some(function) && function.id == id;
        (
            Value::Definition(id),
            if self.finished.contains_key(id) || is_current {
                self
            } else {
                Lowering {
                    external: self.external.insert(id, ExternState { name, typ }),
                    ..self
                }
            },
        )
    }

    pub open spec fn generic_count(self) -> u32 {
        self.generics.len() as u32
    }

    /// This state in a new definition. One with a name has the id of that name, and is no longer
    /// one that is defined elsewhere.
    #[verifier::opaque]
    pub open spec fn definition_started(
        self,
        name: Seq<char>,
        name_id: Option<NameId>,
        generic_count: u32,
        typ: Type,
    ) -> Lowering {
        match name_id {
            Some(name_id) => {
                let (id, ids) = self.ids.id_of(
                    TopLevelName { top_level_item: self.top_level_id, local_name_id: name_id },
                );
                Lowering {
                    ids,
                    external: self.external.remove(id),
                    function: Some(empty_definition(name, id, generic_count, typ)),
                    block: ENTRY_BLOCK,
                    ..self
                }
            },
            None => Lowering {
                ids: self.ids.advanced(),
                function: Some(empty_definition(name, self.ids.next, generic_count, typ)),
                block: ENTRY_BLOCK,
                ..self
            },
        }
    }

    /// This state with the current definition finished, back in the definition and the block of
    /// `outer`.
    #[verifier::opaque]
    pub open spec fn definition_finished(self, outer: Lowering) -> (DefinitionId, Lowering) {
        match self.function {
            Some(function) => (
                function.id,
                Lowering {
                    finished: self.finished.insert(function.id, function),
                    function: outer.function,
                    block: outer.block,
                    ..self
                },
            ),
            None => (
                0,
                Lowering { function: outer.function, block: outer.block, ..self.fails() },
            ),
        }
    }

    /// This state without locals and capabilities.
    pub open spec fn unscoped(self) -> Lowering {
        Lowering {
            locals: Map::empty(),
            mutable_locals: Set::empty(),
            effects: Seq::empty(),
            handles: Seq::empty(),
            bundle: None,
            ..self
        }
    }

    /// This state with the locals and capabilities of `outer`.
    pub open spec fn scoped_as(self, outer: Lowering) -> Lowering {
        Lowering {
            locals: outer.locals,
            mutable_locals: outer.mutable_locals,
            effects: outer.effects,
            handles: outer.handles,
            bundle: outer.bundle,
            ..self
        }
    }

    /// This state with the generics that `typ` quantifies in scope.
    pub open spec fn with_generics_of(self, typ: TCType) -> Lowering {
        Lowering {
            generics: match typ {
                TCType::Forall(generics, _) => generics.items(),
                _ => Seq::empty(),
            },
            ..self
        }
    }

    pub open spec fn follow(self, typ: TCType) -> TCType {
        typ.followed(self.answers.bindings@)
    }

    /// The type of an expression. One without a type is an error that was reported before.
    pub open spec fn expr_type(self, expr: ExprId) -> TCType {
        if self.answers.expr_types@.contains_key(expr) {
            self.answers.expr_types@[expr]
        } else {
            TCType::error()
        }
    }

    pub open spec fn path_type(self, path: PathId) -> TCType {
        if self.answers.path_types@.contains_key(path) {
            self.answers.path_types@[path]
        } else {
            TCType::error()
        }
    }

    pub open spec fn pattern_type(self, pattern: PatternId) -> TCType {
        if self.answers.pattern_types@.contains_key(pattern) {
            self.answers.pattern_types@[pattern]
        } else {
            TCType::error()
        }
    }

    pub open spec fn name_type(self, name: NameId) -> TCType {
        if self.answers.name_types@.contains_key(name) {
            self.answers.name_types@[name]
        } else {
            TCType::error()
        }
    }

    /// The type of a name of the item, over the generics it quantifies.
    pub open spec fn generalized(self, name: NameId) -> TCType {
        if self.answers.generalized@.contains_key(name) {
            self.answers.generalized@[name]
        } else {
            TCType::error()
        }
    }

    pub open spec fn answer(
        self,
        table: Seq<((Generics, TCType), Type)>,
        typ: TCType,
    ) -> Option<Type> {
        lookup(table, (Generics::of(self.generics), typ))
    }

    /// The layout of a type.
    pub open spec fn layout(self, typ: TCType) -> Type {
        match self.answer(self.answers.layouts@, typ) {
            Some(layout) => layout,
            None => Type::error(),
        }
    }

    /// The layout of a function type without evidence.
    pub open spec fn c_layout(self, typ: TCType) -> Type {
        match self.answer(self.answers.c_layouts@, typ) {
            Some(layout) => layout,
            None => Type::error(),
        }
    }

    pub open spec fn evidence_layout(self, effects: TCType) -> Type {
        match self.answer(self.answers.evidence_layouts@, effects) {
            Some(layout) => layout,
            None => Type::error(),
        }
    }

    pub open spec fn capability_layout(self, effect: TCType) -> Type {
        match self.answer(self.answers.capability_layouts@, effect) {
            Some(layout) => layout,
            None => Type::error(),
        }
    }

    /// The layout of what a handle of a shared type points at.
    pub open spec fn shared_layout(self, typ: TCType) -> Option<Type> {
        self.answer(self.answers.shared_layouts@, typ)
    }

    pub open spec fn shared_mut_layout(self, typ: TCType) -> Option<Type> {
        self.answer(self.answers.shared_mut_layouts@, typ)
    }

    /// The effects of a row, and whether it is open.
    pub open spec fn row(self, effects: TCType) -> (Seq<TCType>, bool) {
        match lookup(self.answers.rows@, effects) {
            Some(row) => (row.effects@, row.is_open),
            None => (Seq::empty(), false),
        }
    }
}

} // verus!

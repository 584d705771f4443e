//! The steps lowering is made of.

use crate::collections::{map_get, map_insert, map_remove, set_insert, Table};
use crate::ids::{
    BlockId, DefinitionId, ExprId, NameId, Origin, PathId, PatternId, TopLevelName, ENTRY_BLOCK,
    RELEASE_FUNCTION,
};
use crate::mir::builder::state::{Builder, TCType};
#[allow(unused_imports)]
use crate::mir::builder::state::{constant_type, empty_block, empty_definition, Lowering};
use crate::mir::{
    Block, BorrowPair, Definition, Extern, FloatConstant, Instruction, IntConstant, PrimitiveType,
    TerminatorInstruction, Type, Value,
};
#[allow(unused_imports)]
use crate::mir::{BlockState, Terminator};
use crate::types::{FloatKind, Generics, IntegerKind};
use rustc_hash::{FxHashMap, FxHashSet};
use vstd::prelude::*;

verus! {

/// The layout of a constant.
fn layout_of_constant(constant: IntConstant) -> (typ: Type)
    ensures
        typ == constant_type(constant),
{
    let kind = match constant {
        IntConstant::I8(_) => IntegerKind::I8,
        IntConstant::I16(_) => IntegerKind::I16,
        IntConstant::I32(_) => IntegerKind::I32,
        IntConstant::I64(_) => IntegerKind::I64,
        IntConstant::Isz(_) => IntegerKind::Isz,
        IntConstant::U8(_) => IntegerKind::U8,
        IntConstant::U16(_) => IntegerKind::U16,
        IntConstant::U32(_) => IntegerKind::U32,
        IntConstant::U64(_) => IntegerKind::U64,
        IntConstant::Usz(_) => IntegerKind::Usz,
    };
    Type::Primitive(PrimitiveType::Int(kind))
}

fn new_block(parameter_types: Vec<Type>) -> (block: Block)
    ensures
        block@ == empty_block(parameter_types@),
{
    let block = Block { parameter_types, instructions: Vec::new(), terminator: None };
    assert(block@ =~= empty_block(parameter_types@));
    block
}

impl Definition {
    pub fn new(name: String, id: DefinitionId, generic_count: u32, typ: Type) -> (definition:
        Definition)
        ensures
            definition@ == empty_definition(name@, id, generic_count, typ),
    {
        let mut blocks: Vec<Block> = Vec::new();
        blocks.push(new_block(Vec::new()));
        let definition = Definition {
            name,
            id,
            generic_count,
            typ,
            instructions: Vec::new(),
            instruction_result_types: Vec::new(),
            blocks,
            borrow_pairs: Vec::new(),
        };
        assert(definition@.blocks =~= seq![empty_block(Seq::empty())]);
        assert(definition@ =~= empty_definition(name@, id, generic_count, typ));
        definition
    }
}

/// The locals and capabilities of a definition, while another one is lowered.
pub struct SavedScope {
    pub local_variables: FxHashMap<NameId, Value>,
    pub mutable_locals: FxHashSet<NameId>,
    pub own_row: Vec<(TCType, Value)>,
    pub handle_capabilities: Table<ExprId, (TCType, Value)>,
    pub capability_bundle: Option<Value>,
}

impl SavedScope {
    /// These are the locals and capabilities of `state`.
    pub open spec fn is_of(self, state: Lowering) -> bool {
        &&& self.local_variables@ == state.locals
        &&& self.mutable_locals@ == state.mutable_locals
        &&& self.own_row@ == state.effects
        &&& self.handle_capabilities@ == state.handles
        &&& self.capability_bundle == state.bundle
    }
}

/// The definition and the block that are left while another definition is lowered.
pub struct Outer {
    pub function: Option<Definition>,
    pub block: BlockId,
}

impl Outer {
    /// These are the definition and the block of `state`.
    pub open spec fn is_of(self, state: Lowering) -> bool {
        &&& self.block == state.block
        &&& match self.function {
            Some(function) => state.function == Some(function@),
            None => state.function is None,
        }
    }
}

impl<'a> Builder<'a> {
    /// Note that the item holds what cannot be lowered.
    pub fn fail(&mut self)
        ensures
            final(self)@ == old(self)@.fails(),
    {
        self.failed = true;
    }

    fn has_block(&self) -> (found: bool)
        ensures
            found == self@.has_block(),
    {
        match &self.current_function {
            Some(function) => (self.current_block as usize) < function.blocks.len(),
            None => false,
        }
    }

    /// Add an instruction to the end of the current block. Behind the end of a block nothing is
    /// added: it would not run.
    pub fn push_instruction(&mut self, instruction: Instruction, result_type: Type) -> (value: Value)
        ensures
            (value, final(self)@) == old(self)@.pushed(instruction@, result_type),
    {
        proof {
            reveal(Lowering::pushed);
        }
        if !self.has_block() {
            self.fail();
            return Value::Error;
        }
        let block: usize = self.current_block as usize;
        match &mut self.current_function {
            Some(function) => {
                if function.blocks[block].terminator.is_some() {
                    return Value::Unit;
                }
                let id: u32 = function.instructions.len() as u32;
                let ghost before = function@;
                function.instructions.push(instruction);
                function.instruction_result_types.push(result_type);
                function.blocks[block].instructions.push(id);
                assert(function@.instructions =~= before.instructions.push(instruction@));
                assert(function@.blocks =~= before.blocks.update(
                    block as int,
                    BlockState {
                        instructions: before.blocks[block as int].instructions.push(id),
                        ..before.blocks[block as int]
                    },
                ));
                Value::InstructionResult(id)
            },
            None => Value::Error,
        }
    }

    pub fn push_block(&mut self, parameter_types: Vec<Type>) -> (block: BlockId)
        ensures
            (block, final(self)@) == old(self)@.with_block(parameter_types@),
    {
        proof {
            reveal(Lowering::with_block);
        }
        match &mut self.current_function {
            Some(function) => {
                let id: u32 = function.blocks.len() as u32;
                let ghost before = function@;
                function.blocks.push(new_block(parameter_types));
                assert(function@.blocks =~= before.blocks.push(empty_block(parameter_types@)));
                id
            },
            None => {
                self.failed = true;
                ENTRY_BLOCK
            },
        }
    }

    pub fn push_block_no_params(&mut self) -> (block: BlockId)
        ensures
            (block, final(self)@) == old(self)@.with_block(Seq::empty()),
    {
        self.push_block(Vec::new())
    }

    pub fn switch_to_block(&mut self, block: BlockId)
        ensures
            final(self)@ == old(self)@.switched_to(block),
    {
        self.current_block = block;
    }

    pub fn push_parameter(&mut self, parameter_type: Type)
        ensures
            final(self)@ == old(self)@.with_parameter(parameter_type),
    {
        proof {
            reveal(Lowering::with_parameter);
        }
        if !self.has_block() {
            self.fail();
            return ;
        }
        let block: usize = self.current_block as usize;
        match &mut self.current_function {
            Some(function) => {
                let ghost before = function@;
                function.blocks[block].parameter_types.push(parameter_type);
                assert(function@.blocks =~= before.blocks.update(
                    block as int,
                    BlockState {
                        parameter_types: before.blocks[block as int].parameter_types.push(
                            parameter_type,
                        ),
                        ..before.blocks[block as int]
                    },
                ));
            },
            None => {},
        }
    }

    /// Add a parameter to the current block, and refer to it.
    pub fn push_capability_parameter(&mut self, parameter_type: Type) -> (value: Value)
        ensures
            (value, final(self)@) == old(self)@.with_capability_parameter(parameter_type),
    {
        proof {
            reveal(Lowering::with_capability_parameter);
        }
        if !self.has_block() {
            self.fail();
            return Value::Error;
        }
        let index: u32 = match &self.current_function {
            Some(function) => function.blocks[self.current_block as usize].parameter_types.len()
                as u32,
            None => 0,
        };
        let block = self.current_block;
        self.push_parameter(parameter_type);
        Value::Parameter(block, index)
    }

    /// End the current block. A block that ended already stays as it is.
    pub fn terminate_block(&mut self, terminator: TerminatorInstruction)
        ensures
            final(self)@ == old(self)@.terminated(terminator@),
    {
        proof {
            reveal(Lowering::terminated);
        }
        if !self.has_block() {
            self.fail();
            return ;
        }
        let block: usize = self.current_block as usize;
        match &mut self.current_function {
            Some(function) => {
                if function.blocks[block].terminator.is_none() {
                    let ghost before = function@;
                    function.blocks[block].terminator = Some(terminator);
                    assert(function@.blocks =~= before.blocks.update(
                        block as int,
                        BlockState {
                            terminator: Some(terminator@),
                            ..before.blocks[block as int]
                        },
                    ));
                }
            },
            None => {},
        }
    }

    pub fn terminate_with_jump(&mut self, target: BlockId, argument: Option<Value>)
        ensures
            final(self)@ == old(self)@.terminated(Terminator::Jmp(target, argument)),
    {
        self.terminate_block(TerminatorInstruction::Jmp(target, argument));
    }

    /// The layout of a value.
    pub fn type_of_value(&self, value: &Value) -> (typ: Type)
        ensures
            typ == self@.value_type(*value),
    {
        proof {
            reveal(Lowering::value_type);
        }
        match value {
            Value::Error => Type::Primitive(PrimitiveType::Error),
            Value::Unit => Type::Primitive(PrimitiveType::Unit),
            Value::Bool(_) => Type::Primitive(PrimitiveType::Bool),
            Value::Char(_) => Type::Primitive(PrimitiveType::Char),
            Value::Integer(constant) => layout_of_constant(*constant),
            Value::Float(constant) => match constant {
                FloatConstant::F32(_) => Type::Primitive(PrimitiveType::Float(FloatKind::F32)),
                FloatConstant::F64(_) => Type::Primitive(PrimitiveType::Float(FloatKind::F64)),
            },
            Value::InstructionResult(id) => match &self.current_function {
                Some(function) => {
                    if (*id as usize) < function.instruction_result_types.len() {
                        function.instruction_result_types[*id as usize].clone()
                    } else {
                        Type::Primitive(PrimitiveType::Error)
                    }
                },
                None => Type::Primitive(PrimitiveType::Error),
            },
            Value::Parameter(block, index) => match &self.current_function {
                Some(function) => {
                    if (*block as usize) < function.blocks.len() && (*index as usize)
                        < function.blocks[*block as usize].parameter_types.len() {
                        function.blocks[*block as usize].parameter_types[*index as usize].clone()
                    } else {
                        Type::Primitive(PrimitiveType::Error)
                    }
                },
                None => Type::Primitive(PrimitiveType::Error),
            },
            Value::Definition(id) => self.type_of_definition(*id),
        }
    }

    fn type_of_definition(&self, id: DefinitionId) -> (typ: Type)
        ensures
            typ == self@.definition_type(id),
    {
        match &self.current_function {
            Some(function) => {
                if function.id == id {
                    return function.typ.clone();
                }
            },
            None => {},
        }
        match map_get(&self.finished_functions, id) {
            Some(definition) => {
                assert(self@.finished[id] == definition@);
                return definition.typ.clone();
            },
            None => {},
        }
        match map_get(&self.external, id) {
            Some(declared) => {
                assert(self@.external[id] == declared@);
                declared.typ.clone()
            },
            None => Type::Primitive(PrimitiveType::Error),
        }
    }

    /// The instruction that gives a value.
    pub fn instruction_of(&self, value: &Value) -> (instruction: Option<&Instruction>)
        ensures
            match instruction {
                Some(instruction) => self@.operation_of(*value) == Some(instruction@),
                None => self@.operation_of(*value) is None,
            },
    {
        match (value, &self.current_function) {
            (Value::InstructionResult(id), Some(function)) => {
                if (*id as usize) < function.instructions.len() {
                    Some(&function.instructions[*id as usize])
                } else {
                    None
                }
            },
            _ => None,
        }
    }

    pub fn push_borrow_pair(&mut self, pair: BorrowPair)
        ensures
            final(self)@ == old(self)@.with_borrow_pair(pair@),
    {
        proof {
            reveal(Lowering::with_borrow_pair);
        }
        match &mut self.current_function {
            Some(function) => {
                let ghost before = function@;
                function.borrow_pairs.push(pair);
                assert(function@.borrow_pairs =~= before.borrow_pairs.push(pair@));
            },
            None => {
                self.failed = true;
            },
        }
    }

    /// Replace the instantiation that gives a value.
    pub fn replace_instantiation(
        &mut self,
        value: Value,
        id: DefinitionId,
        types: Vec<Type>,
        typ: Type,
    )
        ensures
            final(self)@ == old(self)@.with_instantiation(value, id, types@, typ),
    {
        proof {
            reveal(Lowering::with_instantiation);
        }
        let at: usize = match value {
            Value::InstructionResult(at) => at as usize,
            _ => {
                return ;
            },
        };
        match &mut self.current_function {
            Some(function) => {
                if at < function.instructions.len() && at
                    < function.instruction_result_types.len() {
                    let ghost before = function@;
                    let instruction = Instruction::Instantiate(id, types);
                    let ghost operation = instruction@;
                    function.instructions.set(at, instruction);
                    function.instruction_result_types.set(at, typ);
                    assert(function@.instructions =~= before.instructions.update(
                        at as int,
                        operation,
                    ));
                }
            },
            None => {},
        }
    }

    pub fn set_local(&mut self, name: NameId, value: Value)
        ensures
            final(self)@ == old(self)@.with_local(name, value),
    {
        map_insert(&mut self.local_variables, name, value);
    }

    pub fn set_mutable_local(&mut self, name: NameId)
        ensures
            final(self)@ == old(self)@.with_mutable_local(name),
    {
        set_insert(&mut self.mutable_locals, name);
    }

    /// Bind a variable.
    pub fn define_variable(&mut self, origin: Origin, value: Value)
        ensures
            final(self)@ == old(self)@.with_variable(origin, value),
    {
        proof {
            reveal(Lowering::with_variable);
        }
        match origin {
            Origin::Local(name) => {
                self.set_local(name, value);
            },
            other => {
                self.global_variables.put(other, value);
            },
        }
    }

    pub fn set_op_index(&mut self, operation: DefinitionId, index: u32)
        ensures
            final(self)@ == old(self)@.with_op_index(operation, index),
    {
        map_insert(&mut self.effect_op_indices, operation, index);
    }

    /// The id of a name. One that has none gets the next one.
    pub fn get_definition_id(&mut self, name: &TopLevelName) -> (id: DefinitionId)
        ensures
            (id, final(self)@) == old(self)@.id_of(*name),
    {
        proof {
            reveal(Lowering::id_of);
        }
        self.ids.get_definition_id(name)
    }

    pub fn set_definition_id(&mut self, name: &TopLevelName, id: DefinitionId)
        ensures
            final(self)@ == old(self)@.with_id(*name, id),
    {
        self.ids.insert(name, id);
    }

    /// How a definition is written.
    pub fn get_definition_name(&self, name: &TopLevelName) -> (text: String)
        ensures
            text@ == self@.name_of(*name),
    {
        if name.local_name_id == RELEASE_FUNCTION {
            return "release".to_owned();
        }
        match self.answers.database.names.get(name) {
            Some(text) => text.clone(),
            None => String::new(),
        }
    }

    /// Refer to a definition, which may be one that is lowered elsewhere.
    pub fn make_definition_value(&mut self, id: DefinitionId, name: String, typ: Type) -> (value: Value)
        ensures
            (value, final(self)@) == old(self)@.definition_value(id, name@, typ),
    {
        proof {
            reveal(Lowering::definition_value);
        }
        self.reference_definition(id, name, typ);
        Value::Definition(id)
    }

    fn reference_definition(&mut self, id: DefinitionId, name: String, typ: Type)
        ensures
            final(self)@ == old(self)@.definition_value(id, name@, typ).1,
    {
        proof {
            reveal(Lowering::definition_value);
        }
        let is_current = match &self.current_function {
            Some(function) => function.id == id,
            None => false,
        };
        if map_get(&self.finished_functions, id).is_none() && !is_current {
            let declared = Extern { name, typ };
            let ghost added = declared@;
            map_insert(&mut self.external, id, declared);
            assert(self@.external =~= old(self)@.external.insert(id, added));
        }
    }

    pub fn generic_count(&self) -> (count: u32)
        ensures
            count == self@.generic_count(),
    {
        self.generics.len() as u32
    }

    /// Start another definition. It has to be finished with `end_global`.
    pub fn start_global(
        &mut self,
        name: String,
        name_id: Option<NameId>,
        generic_count: u32,
        typ: Type,
    ) -> (outer: Outer)
        ensures
            outer.is_of(old(self)@),
            final(self)@ == old(self)@.definition_started(name@, name_id, generic_count, typ),
    {
        proof {
            reveal(Lowering::definition_started);
        }
        let id = match name_id {
            Some(name_id) => {
                let id = self.ids.get_definition_id(&TopLevelName::new(self.top_level_id, name_id));
                map_remove(&mut self.external, id);
                assert(self@.external =~= old(self)@.external.remove(id));
                id
            },
            None => self.ids.next_definition_id(),
        };
        let mut function = Some(Definition::new(name, id, generic_count, typ));
        std::mem::swap(&mut function, &mut self.current_function);
        let block = self.current_block;
        self.current_block = ENTRY_BLOCK;
        Outer { function, block }
    }

    /// Finish the current definition, and go on with the one that was left for it.
    pub fn end_global(&mut self, outer: Outer, Ghost(before): Ghost<Lowering>) -> (id: DefinitionId)
        requires
            outer.is_of(before),
        ensures
            (id, final(self)@) == old(self)@.definition_finished(before),
    {
        proof {
            reveal(Lowering::definition_finished);
        }
        let mut function = outer.function;
        std::mem::swap(&mut function, &mut self.current_function);
        self.current_block = outer.block;
        match function {
            Some(function) => {
                let id = function.id;
                let ghost finished = function@;
                map_insert(&mut self.finished_functions, id, function);
                assert(self@.finished =~= old(self)@.finished.insert(id, finished));
                id
            },
            None => {
                self.failed = true;
                0
            },
        }
    }

    /// Take the locals and capabilities, to lower something that has none of them.
    pub fn take_scope(&mut self) -> (saved: SavedScope)
        ensures
            saved.is_of(old(self)@),
            final(self)@ == old(self)@.unscoped(),
    {
        let mut local_variables: FxHashMap<NameId, Value> = FxHashMap::default();
        let mut mutable_locals: FxHashSet<NameId> = FxHashSet::default();
        let mut own_row: Vec<(TCType, Value)> = Vec::new();
        let mut handle_capabilities: Table<ExprId, (TCType, Value)> = Table::new();
        std::mem::swap(&mut local_variables, &mut self.local_variables);
        std::mem::swap(&mut mutable_locals, &mut self.mutable_locals);
        std::mem::swap(&mut own_row, &mut self.effects);
        std::mem::swap(&mut handle_capabilities, &mut self.handle_capabilities);
        let capability_bundle = self.capability_bundle;
        self.capability_bundle = None;
        SavedScope {
            local_variables,
            mutable_locals,
            own_row,
            handle_capabilities,
            capability_bundle,
        }
    }

    /// Put locals and capabilities back.
    pub fn restore_scope(&mut self, saved: SavedScope, Ghost(before): Ghost<Lowering>)
        requires
            saved.is_of(before),
        ensures
            final(self)@ == old(self)@.scoped_as(before),
    {
        self.local_variables = saved.local_variables;
        self.mutable_locals = saved.mutable_locals;
        self.effects = saved.own_row;
        self.handle_capabilities = saved.handle_capabilities;
        self.capability_bundle = saved.capability_bundle;
    }

    /// Let the generics that `typ` quantifies be in scope.
    pub fn set_generics_in_scope(&mut self, typ: &TCType)
        ensures
            final(self)@ == old(self)@.with_generics_of(*typ),
    {
        self.generics = match typ {
            TCType::Forall(generics, _) => generics.to_vec(),
            _ => Vec::new(),
        };
    }

    pub fn follow<'b>(&'b self, typ: &'b TCType) -> (followed: &'b TCType)
        ensures
            *followed == self@.follow(*typ),
    {
        typ.follow(&self.answers.bindings)
    }

    pub fn type_of_expr(&self, expr: ExprId) -> (typ: TCType)
        ensures
            typ == self@.expr_type(expr),
    {
        match map_get(&self.answers.expr_types, expr) {
            Some(typ) => typ.clone(),
            None => TCType::Primitive(crate::types::PrimitiveType::Error),
        }
    }

    pub fn type_of_path(&self, path: PathId) -> (typ: TCType)
        ensures
            typ == self@.path_type(path),
    {
        match map_get(&self.answers.path_types, path) {
            Some(typ) => typ.clone(),
            None => TCType::Primitive(crate::types::PrimitiveType::Error),
        }
    }

    pub fn type_of_pattern(&self, pattern: PatternId) -> (typ: TCType)
        ensures
            typ == self@.pattern_type(pattern),
    {
        match map_get(&self.answers.pattern_types, pattern) {
            Some(typ) => typ.clone(),
            None => TCType::Primitive(crate::types::PrimitiveType::Error),
        }
    }

    pub fn type_of_name(&self, name: NameId) -> (typ: TCType)
        ensures
            typ == self@.name_type(name),
    {
        match map_get(&self.answers.name_types, name) {
            Some(typ) => typ.clone(),
            None => TCType::Primitive(crate::types::PrimitiveType::Error),
        }
    }

    pub fn get_generalized(&self, name: NameId) -> (typ: TCType)
        ensures
            typ == self@.generalized(name),
    {
        match map_get(&self.answers.generalized, name) {
            Some(typ) => typ.clone(),
            None => TCType::Primitive(crate::types::PrimitiveType::Error),
        }
    }

    fn answer<'b>(&self, table: &'b Table<(Generics, TCType), Type>, typ: &TCType) -> (layout: Option<
        &'b Type,
    >)
        ensures
            match layout {
                Some(layout) => self@.answer(table@, *typ) == Some(*layout),
                None => self@.answer(table@, *typ) is None,
            },
    {
        let key = (Generics::from_vec(&self.generics), typ.clone());
        table.get(&key)
    }

    /// The layout of a type.
    pub fn convert_type(&self, typ: &TCType) -> (layout: Type)
        ensures
            layout == self@.layout(*typ),
    {
        match self.answer(&self.answers.layouts, typ) {
            Some(layout) => layout.clone(),
            None => Type::Primitive(PrimitiveType::Error),
        }
    }

    /// The layout of a function type without evidence.
    pub fn convert_c_function_type(&self, typ: &TCType) -> (layout: Type)
        ensures
            layout == self@.c_layout(*typ),
    {
        match self.answer(&self.answers.c_layouts, typ) {
            Some(layout) => layout.clone(),
            None => Type::Primitive(PrimitiveType::Error),
        }
    }

    /// The layout of the evidence of an effect row.
    pub fn evidence_type(&self, effects: &TCType) -> (layout: Type)
        ensures
            layout == self@.evidence_layout(*effects),
    {
        match self.answer(&self.answers.evidence_layouts, effects) {
            Some(layout) => layout.clone(),
            None => Type::Primitive(PrimitiveType::Error),
        }
    }

    /// The layout of the capability of an effect.
    pub fn effect_capability_tuple_type_of(&self, effect: &TCType) -> (layout: Type)
        ensures
            layout == self@.capability_layout(*effect),
    {
        match self.answer(&self.answers.capability_layouts, effect) {
            Some(layout) => layout.clone(),
            None => Type::Primitive(PrimitiveType::Error),
        }
    }

    /// The layout of what a handle of a shared type points at.
    pub fn shared_inner_layout_of(&self, typ: &TCType) -> (layout: Option<Type>)
        ensures
            layout == self@.shared_layout(*typ),
    {
        match self.answer(&self.answers.shared_layouts, typ) {
            Some(layout) => Some(layout.clone()),
            None => None,
        }
    }

    /// The layout of what a handle of a shared type that can be written to points at.
    pub fn shared_mut_inner_layout_of(&self, typ: &TCType) -> (layout: Option<Type>)
        ensures
            layout == self@.shared_mut_layout(*typ),
    {
        match self.answer(&self.answers.shared_mut_layouts, typ) {
            Some(layout) => Some(layout.clone()),
            None => None,
        }
    }

    /// The effects of a row, and whether it is open.
    pub fn split_row(&self, effects: &TCType) -> (row: (Vec<TCType>, bool))
        ensures
            (row.0@, row.1) == self@.row(*effects),
    {
        match self.answers.rows.get(effects) {
            Some(row) => (copy_tc_types(&row.effects), row.is_open),
            None => (Vec::new(), false),
        }
    }

    pub fn expr_layout(&self, expr: ExprId) -> (layout: Type)
        ensures
            layout == self@.layout(self@.expr_type(expr)),
    {
        let typ = self.type_of_expr(expr);
        self.convert_type(&typ)
    }

    pub fn convert_path_type(&self, path: PathId) -> (layout: Type)
        ensures
            layout == self@.layout(self@.path_type(path)),
    {
        let typ = self.type_of_path(path);
        self.convert_type(&typ)
    }

    pub fn convert_pattern_type(&self, pattern: PatternId) -> (layout: Type)
        ensures
            layout == self@.layout(self@.pattern_type(pattern)),
    {
        let typ = self.type_of_pattern(pattern);
        self.convert_type(&typ)
    }
}

/// Copy of a list of types.
pub fn copy_tc_types(types: &Vec<TCType>) -> (copy: Vec<TCType>)
    ensures
        copy@ == types@,
{
    let mut copy: Vec<TCType> = Vec::new();
    let mut i: usize = 0;
    while i < types.len()
        invariant
            i <= types.len(),
            copy@ == types@.take(i as int),
        decreases types.len() - i,
    {
        copy.push(types[i].clone());
        assert(copy@ =~= types@.take(i + 1));
        i += 1;
    }
    assert(types@.take(i as int) =~= types@);
    copy
}

} // verus!

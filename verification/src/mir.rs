//! The lowered program: definitions made of blocks of instructions.

use crate::collections::Key;
use crate::ids::{BlockId, DefinitionId, InstructionId};
use crate::types::{FloatKind, IntegerKind};
use rustc_hash::FxHashMap;
use vstd::prelude::*;

pub mod builder;
pub mod elide_borrow_pairs;
pub mod layouts;
pub mod purity_laws;

verus! {

#[derive(Clone, Copy, Debug, PartialEq, Eq, Structural)]
pub enum PrimitiveType {
    Error,
    Unit,
    Bool,
    Pointer,
    Char,
    NoClosureEnv,
    Int(IntegerKind),
    Float(FloatKind),
}

/// The layout of a lowered value.
#[derive(Debug, Eq)]
pub enum Type {
    Primitive(PrimitiveType),
    Tuple(Box<Types>),
    Function(Box<FunctionType>),
    Union(Box<Types>),
    Generic(u32),
    Array { length: Box<Type>, element: Box<Type> },
    U32(u32),
}

#[derive(Debug, Eq)]
pub enum Types {
    Nil,
    Cons(Box<Type>, Box<Types>),
}

#[derive(Debug, Eq)]
pub struct FunctionType {
    pub parameters: Types,
    pub environment: Type,
    pub return_type: Type,
}

impl PartialEq for Types {
    fn eq(&self, other: &Self) -> (equal: bool)
        decreases self,
    {
        match (self, other) {
            (Types::Nil, Types::Nil) => true,
            (Types::Cons(a, rest), Types::Cons(b, other_rest)) => **a == **b && **rest
                == **other_rest,
            _ => false,
        }
    }
}

impl vstd::std_specs::cmp::PartialEqSpecImpl for Types {
    open spec fn obeys_eq_spec() -> bool {
        true
    }

    open spec fn eq_spec(&self, other: &Self) -> bool {
        *self == *other
    }
}

impl PartialEq for FunctionType {
    fn eq(&self, other: &Self) -> (equal: bool)
        decreases self,
    {
        self.parameters == other.parameters && self.environment == other.environment
            && self.return_type == other.return_type
    }
}

impl vstd::std_specs::cmp::PartialEqSpecImpl for FunctionType {
    open spec fn obeys_eq_spec() -> bool {
        true
    }

    open spec fn eq_spec(&self, other: &Self) -> bool {
        *self == *other
    }
}

impl PartialEq for Type {
    fn eq(&self, other: &Self) -> (equal: bool)
        decreases self,
    {
        match (self, other) {
            (Type::Primitive(a), Type::Primitive(b)) => *a == *b,
            (Type::Tuple(a), Type::Tuple(b)) => **a == **b,
            (Type::Function(a), Type::Function(b)) => **a == **b,
            (Type::Union(a), Type::Union(b)) => **a == **b,
            (Type::Generic(a), Type::Generic(b)) => *a == *b,
            (
                Type::Array { length: a, element: c },
                Type::Array { length: b, element: d },
            ) => **a == **b && **c == **d,
            (Type::U32(a), Type::U32(b)) => *a == *b,
            _ => false,
        }
    }
}

impl vstd::std_specs::cmp::PartialEqSpecImpl for Type {
    open spec fn obeys_eq_spec() -> bool {
        true
    }

    open spec fn eq_spec(&self, other: &Self) -> bool {
        *self == *other
    }
}

impl Key for Types {
    fn same(&self, other: &Self) -> (equal: bool) {
        *self == *other
    }
}

impl Key for Type {
    fn same(&self, other: &Self) -> (equal: bool) {
        *self == *other
    }
}

impl Clone for Types {
    fn clone(&self) -> (copy: Self)
        ensures
            copy == *self,
        decreases self,
    {
        match self {
            Types::Nil => Types::Nil,
            Types::Cons(typ, rest) => Types::Cons(
                Box::new((**typ).clone()),
                Box::new((**rest).clone()),
            ),
        }
    }
}

impl Clone for FunctionType {
    fn clone(&self) -> (copy: Self)
        ensures
            copy == *self,
        decreases self,
    {
        FunctionType {
            parameters: self.parameters.clone(),
            environment: self.environment.clone(),
            return_type: self.return_type.clone(),
        }
    }
}

impl Clone for Type {
    fn clone(&self) -> (copy: Self)
        ensures
            copy == *self,
        decreases self,
    {
        match self {
            Type::Primitive(primitive) => Type::Primitive(*primitive),
            Type::Tuple(fields) => Type::Tuple(Box::new((**fields).clone())),
            Type::Function(function) => Type::Function(Box::new((**function).clone())),
            Type::Union(variants) => Type::Union(Box::new((**variants).clone())),
            Type::Generic(generic) => Type::Generic(*generic),
            Type::Array { length, element } => Type::Array {
                length: Box::new((**length).clone()),
                element: Box::new((**element).clone()),
            },
            Type::U32(value) => Type::U32(*value),
        }
    }
}

#[derive(Clone, Copy, Debug, PartialEq, Eq, Structural)]
pub enum IntConstant {
    I8(i8),
    I16(i16),
    I32(i32),
    I64(i64),
    Isz(isize),
    U8(u8),
    U16(u16),
    U32(u32),
    U64(u64),
    Usz(usize),
}

/// A float, by the bits of the double that was written.
#[derive(Clone, Copy, Debug, PartialEq, Eq, Structural)]
pub enum FloatConstant {
    F32(u64),
    F64(u64),
}

/// What an instruction can refer to.
#[derive(Clone, Copy, Debug, PartialEq, Eq, Structural)]
pub enum Value {
    Error,
    Unit,
    Bool(bool),
    Char(char),
    Integer(IntConstant),
    Float(FloatConstant),
    /// What an instruction of the same definition gave.
    InstructionResult(InstructionId),
    /// A parameter of a block of the same definition.
    Parameter(BlockId, u32),
    Definition(DefinitionId),
}

/// What a `handle` does when an operation is performed.
#[derive(Clone, Copy, Debug, PartialEq, Eq, Structural)]
pub struct HandlerCase {
    pub effect_op: DefinitionId,
    pub handler: Value,
}

pub enum Instruction {
    Call { function: Value, arguments: Vec<Value> },
    CallClosure { closure: Value, arguments: Vec<Value> },
    PackClosure { function: Value, environment: Value },
    IndexTuple { tuple: Value, index: u32 },
    MakeTuple(Vec<Value>),
    MakeArray(Vec<Value>),
    MakeBytes(Vec<u8>),
    GetFieldPtr { struct_ptr: Value, struct_type: Type, index: u32 },
    StackAlloc(Value),
    Store { pointer: Value, value: Value },
    Deref(Value),
    Transmute(Value),
    Id(Value),
    /// A generic definition at given types.
    Instantiate(DefinitionId, Vec<Type>),
    Extern(String),
    AddInt(Value, Value),
    EqInt(Value, Value),
    LessSigned(Value, Value),
    LessUnsigned(Value, Value),
    AllocShared(Value),
    FreeShared(Value),
    RcRetain(Value),
    /// Whether the count reached zero.
    RcDecrement(Value),
    RetainClosureEnv(Value),
    ReleaseClosureEnv(Value),
    Handle { body: Value, cases: Vec<HandlerCase> },
    /// The capability the enclosing `handle` provides.
    Capability,
    /// An operation of the target, by its number.
    Intrinsic { operation: u32, arguments: Vec<Value> },
}

/// What an `Instruction` says.
#[verifier::ext_equal]
pub enum Operation {
    Call { function: Value, arguments: Seq<Value> },
    CallClosure { closure: Value, arguments: Seq<Value> },
    PackClosure { function: Value, environment: Value },
    IndexTuple { tuple: Value, index: u32 },
    MakeTuple(Seq<Value>),
    MakeArray(Seq<Value>),
    MakeBytes(Seq<u8>),
    GetFieldPtr { struct_ptr: Value, struct_type: Type, index: u32 },
    StackAlloc(Value),
    Store { pointer: Value, value: Value },
    Deref(Value),
    Transmute(Value),
    Id(Value),
    Instantiate(DefinitionId, Seq<Type>),
    Extern(Seq<char>),
    AddInt(Value, Value),
    EqInt(Value, Value),
    LessSigned(Value, Value),
    LessUnsigned(Value, Value),
    AllocShared(Value),
    FreeShared(Value),
    RcRetain(Value),
    RcDecrement(Value),
    RetainClosureEnv(Value),
    ReleaseClosureEnv(Value),
    Handle { body: Value, cases: Seq<HandlerCase> },
    Capability,
    Intrinsic { operation: u32, arguments: Seq<Value> },
}

impl View for Instruction {
    type V = Operation;

    open spec fn view(&self) -> Operation {
        match *self {
            Instruction::Call { function, arguments } => Operation::Call {
                function,
                arguments: arguments@,
            },
            Instruction::CallClosure { closure, arguments } => Operation::CallClosure {
                closure,
                arguments: arguments@,
            },
            Instruction::PackClosure { function, environment } => Operation::PackClosure {
                function,
                environment,
            },
            Instruction::IndexTuple { tuple, index } => Operation::IndexTuple { tuple, index },
            Instruction::MakeTuple(values) => Operation::MakeTuple(values@),
            Instruction::MakeArray(values) => Operation::MakeArray(values@),
            Instruction::MakeBytes(bytes) => Operation::MakeBytes(bytes@),
            Instruction::GetFieldPtr {
                struct_ptr,
                struct_type,
                index,
            } => Operation::GetFieldPtr { struct_ptr, struct_type, index },
            Instruction::StackAlloc(value) => Operation::StackAlloc(value),
            Instruction::Store { pointer, value } => Operation::Store { pointer, value },
            Instruction::Deref(value) => Operation::Deref(value),
            Instruction::Transmute(value) => Operation::Transmute(value),
            Instruction::Id(value) => Operation::Id(value),
            Instruction::Instantiate(id, types) => Operation::Instantiate(id, types@),
            Instruction::Extern(name) => Operation::Extern(name@),
            Instruction::AddInt(a, b) => Operation::AddInt(a, b),
            Instruction::EqInt(a, b) => Operation::EqInt(a, b),
            Instruction::LessSigned(a, b) => Operation::LessSigned(a, b),
            Instruction::LessUnsigned(a, b) => Operation::LessUnsigned(a, b),
            Instruction::AllocShared(value) => Operation::AllocShared(value),
            Instruction::FreeShared(value) => Operation::FreeShared(value),
            Instruction::RcRetain(value) => Operation::RcRetain(value),
            Instruction::RcDecrement(value) => Operation::RcDecrement(value),
            Instruction::RetainClosureEnv(value) => Operation::RetainClosureEnv(value),
            Instruction::ReleaseClosureEnv(value) => Operation::ReleaseClosureEnv(value),
            Instruction::Handle { body, cases } => Operation::Handle { body, cases: cases@ },
            Instruction::Capability => Operation::Capability,
            Instruction::Intrinsic { operation, arguments } => Operation::Intrinsic {
                operation,
                arguments: arguments@,
            },
        }
    }
}

/// How a block ends.
pub enum TerminatorInstruction {
    Jmp(BlockId, Option<Value>),
    If { cond: Value, then: BlockId, else_: BlockId, end: BlockId },
    Switch {
        int_value: Value,
        cases: Vec<(u32, (BlockId, Option<Value>))>,
        otherwise: (BlockId, Option<Value>),
        end: BlockId,
    },
    Unreachable,
    Return(Value),
    /// The value of a global.
    Result(Value),
}

/// What a `TerminatorInstruction` says.
#[verifier::ext_equal]
pub enum Terminator {
    Jmp(BlockId, Option<Value>),
    If { cond: Value, then: BlockId, else_: BlockId, end: BlockId },
    Switch {
        int_value: Value,
        cases: Seq<(u32, (BlockId, Option<Value>))>,
        otherwise: (BlockId, Option<Value>),
        end: BlockId,
    },
    Unreachable,
    Return(Value),
    Result(Value),
}

impl View for TerminatorInstruction {
    type V = Terminator;

    open spec fn view(&self) -> Terminator {
        match *self {
            TerminatorInstruction::Jmp(block, argument) => Terminator::Jmp(block, argument),
            TerminatorInstruction::If { cond, then, else_, end } => Terminator::If {
                cond,
                then,
                else_,
                end,
            },
            TerminatorInstruction::Switch { int_value, cases, otherwise, end } => Terminator::Switch {
                int_value,
                cases: cases@,
                otherwise,
                end,
            },
            TerminatorInstruction::Unreachable => Terminator::Unreachable,
            TerminatorInstruction::Return(value) => Terminator::Return(value),
            TerminatorInstruction::Result(value) => Terminator::Result(value),
        }
    }
}

pub struct Block {
    pub parameter_types: Vec<Type>,
    pub instructions: Vec<InstructionId>,
    pub terminator: Option<TerminatorInstruction>,
}

/// What a `Block` holds.
#[verifier::ext_equal]
pub struct BlockState {
    pub parameter_types: Seq<Type>,
    pub instructions: Seq<InstructionId>,
    pub terminator: Option<Terminator>,
}

impl View for Block {
    type V = BlockState;

    open spec fn view(&self) -> BlockState {
        BlockState {
            parameter_types: self.parameter_types@,
            instructions: self.instructions@,
            terminator: match self.terminator {
                Some(terminator) => Some(terminator@),
                None => None,
            },
        }
    }
}

/// A retain and the release behind a call that balances it. Both can go if the call's implicit
/// arguments turn out to be pure.
pub struct BorrowPair {
    pub retain: InstructionId,
    pub release_call: InstructionId,
    pub call: InstructionId,
    /// The positions of the implicit arguments of the call.
    pub implicit_args: Vec<u32>,
}

/// What a `BorrowPair` records.
#[verifier::ext_equal]
pub struct Pair {
    pub retain: InstructionId,
    pub release_call: InstructionId,
    pub call: InstructionId,
    pub implicit_args: Seq<u32>,
}

impl View for BorrowPair {
    type V = Pair;

    open spec fn view(&self) -> Pair {
        Pair {
            retain: self.retain,
            release_call: self.release_call,
            call: self.call,
            implicit_args: self.implicit_args@,
        }
    }
}

pub struct Definition {
    pub name: String,
    pub id: DefinitionId,
    pub generic_count: u32,
    pub typ: Type,
    /// Every instruction, under its id.
    pub instructions: Vec<Instruction>,
    /// The type of what each instruction gives.
    pub instruction_result_types: Vec<Type>,
    /// Every block, under its id.
    pub blocks: Vec<Block>,
    pub borrow_pairs: Vec<BorrowPair>,
}

/// What a `Definition` holds.
#[verifier::ext_equal]
pub struct DefinitionState {
    pub name: Seq<char>,
    pub id: DefinitionId,
    pub generic_count: u32,
    pub typ: Type,
    pub instructions: Seq<Operation>,
    pub instruction_result_types: Seq<Type>,
    pub blocks: Seq<BlockState>,
    pub borrow_pairs: Seq<Pair>,
}

impl View for Definition {
    type V = DefinitionState;

    open spec fn view(&self) -> DefinitionState {
        DefinitionState {
            name: self.name@,
            id: self.id,
            generic_count: self.generic_count,
            typ: self.typ,
            instructions: self.instructions@.map_values(|i: Instruction| i@),
            instruction_result_types: self.instruction_result_types@,
            blocks: self.blocks@.map_values(|b: Block| b@),
            borrow_pairs: self.borrow_pairs@.map_values(|p: BorrowPair| p@),
        }
    }
}

/// A definition that is lowered elsewhere.
pub struct Extern {
    pub name: String,
    pub typ: Type,
}

/// What an `Extern` says.
#[verifier::ext_equal]
pub struct ExternState {
    pub name: Seq<char>,
    pub typ: Type,
}

impl View for Extern {
    type V = ExternState;

    open spec fn view(&self) -> ExternState {
        ExternState { name: self.name@, typ: self.typ }
    }
}

pub struct Mir {
    pub definitions: FxHashMap<DefinitionId, Definition>,
    pub externals: FxHashMap<DefinitionId, Extern>,
    /// The position of each operation in the body of its ability.
    pub preserved_op_indices: FxHashMap<DefinitionId, u32>,
}

/// What a `Mir` holds.
#[verifier::ext_equal]
pub struct Program {
    pub definitions: Map<DefinitionId, DefinitionState>,
    pub externals: Map<DefinitionId, ExternState>,
    pub preserved_op_indices: Map<DefinitionId, u32>,
}

impl View for Mir {
    type V = Program;

    open spec fn view(&self) -> Program {
        Program {
            definitions: self.definitions@.map_values(|d: Definition| d@),
            externals: self.externals@.map_values(|e: Extern| e@),
            preserved_op_indices: self.preserved_op_indices@,
        }
    }
}

impl Operation {
    /// The values an instruction refers to.
    pub open spec fn values(self) -> Seq<Value> {
        match self {
            Operation::Call { function, arguments } => seq![function] + arguments,
            Operation::CallClosure { closure, arguments } => seq![closure] + arguments,
            Operation::PackClosure { function, environment } => seq![function, environment],
            Operation::IndexTuple { tuple, .. } => seq![tuple],
            Operation::MakeTuple(values) => values,
            Operation::MakeArray(values) => values,
            Operation::GetFieldPtr { struct_ptr, .. } => seq![struct_ptr],
            Operation::StackAlloc(value) => seq![value],
            Operation::Store { pointer, value } => seq![pointer, value],
            Operation::Deref(value) => seq![value],
            Operation::Transmute(value) => seq![value],
            Operation::Id(value) => seq![value],
            Operation::AddInt(a, b) => seq![a, b],
            Operation::EqInt(a, b) => seq![a, b],
            Operation::LessSigned(a, b) => seq![a, b],
            Operation::LessUnsigned(a, b) => seq![a, b],
            Operation::AllocShared(value) => seq![value],
            Operation::FreeShared(value) => seq![value],
            Operation::RcRetain(value) => seq![value],
            Operation::RcDecrement(value) => seq![value],
            Operation::RetainClosureEnv(value) => seq![value],
            Operation::ReleaseClosureEnv(value) => seq![value],
            Operation::Handle { body, cases } => seq![body] + cases.map_values(
                |case: HandlerCase| case.handler,
            ),
            Operation::Intrinsic { arguments, .. } => arguments,
            Operation::MakeBytes(_)
            | Operation::Instantiate(_, _)
            | Operation::Extern(_)
            | Operation::Capability => Seq::empty(),
        }
    }
}

/// `values`, as a sequence that starts with `first`.
fn with_first(first: Value, values: &Vec<Value>) -> (all: Vec<Value>)
    ensures
        all@ == seq![first] + values@,
{
    let mut all: Vec<Value> = Vec::new();
    all.push(first);
    let mut i: usize = 0;
    while i < values.len()
        invariant
            i <= values.len(),
            all@ == seq![first] + values@.take(i as int),
        decreases values.len() - i,
    {
        all.push(values[i]);
        assert(values@.take(i + 1) == values@.take(i as int).push(values@[i as int]));
        i += 1;
    }
    assert(values@.take(i as int) == values@);
    all
}

impl Instruction {
    /// The values this instruction refers to.
    pub fn values(&self) -> (values: Vec<Value>)
        ensures
            values@ == self@.values(),
    {
        let values: Vec<Value> = match self {
            Instruction::Call { function, arguments } => with_first(*function, arguments),
            Instruction::CallClosure { closure, arguments } => with_first(*closure, arguments),
            Instruction::PackClosure { function, environment } => vec![*function, *environment],
            Instruction::IndexTuple { tuple, .. } => vec![*tuple],
            Instruction::MakeTuple(values) => values.clone(),
            Instruction::MakeArray(values) => values.clone(),
            Instruction::GetFieldPtr { struct_ptr, .. } => vec![*struct_ptr],
            Instruction::StackAlloc(value) => vec![*value],
            Instruction::Store { pointer, value } => vec![*pointer, *value],
            Instruction::Deref(value) => vec![*value],
            Instruction::Transmute(value) => vec![*value],
            Instruction::Id(value) => vec![*value],
            Instruction::AddInt(a, b) => vec![*a, *b],
            Instruction::EqInt(a, b) => vec![*a, *b],
            Instruction::LessSigned(a, b) => vec![*a, *b],
            Instruction::LessUnsigned(a, b) => vec![*a, *b],
            Instruction::AllocShared(value) => vec![*value],
            Instruction::FreeShared(value) => vec![*value],
            Instruction::RcRetain(value) => vec![*value],
            Instruction::RcDecrement(value) => vec![*value],
            Instruction::RetainClosureEnv(value) => vec![*value],
            Instruction::ReleaseClosureEnv(value) => vec![*value],
            Instruction::Handle { body, cases } => {
                let mut all: Vec<Value> = vec![*body];
                let mut i: usize = 0;
                while i < cases.len()
                    invariant
                        i <= cases.len(),
                        all.len() == i + 1,
                        all@[0] == *body,
                        forall|j: int| 0 <= j < i ==> all@[j + 1] == (#[trigger] cases@[j]).handler,
                    decreases cases.len() - i,
                {
                    all.push(cases[i].handler);
                    i += 1;
                }
                assert forall|k: int| 0 <= k < all.len() implies all@[k] == (seq![*body]
                    + cases@.map_values(|case: HandlerCase| case.handler))[k] by {
                    if k > 0 {
                        assert(all@[(k - 1) + 1] == cases@[k - 1].handler);
                    }
                }
                all
            },
            Instruction::Intrinsic { arguments, .. } => arguments.clone(),
            Instruction::MakeBytes(_) => Vec::new(),
            Instruction::Instantiate(_, _) => Vec::new(),
            Instruction::Extern(_) => Vec::new(),
            Instruction::Capability => Vec::new(),
        };
        assert(values@ =~= self@.values());
        values
    }
}

impl Terminator {
    /// The values of the edges of a switch.
    pub open spec fn case_values(cases: Seq<(u32, (BlockId, Option<Value>))>) -> Seq<Value>
        decreases cases.len(),
    {
        if cases.len() == 0 {
            Seq::empty()
        } else {
            let before = Terminator::case_values(cases.drop_last());
            match cases.last().1.1 {
                Some(value) => before.push(value),
                None => before,
            }
        }
    }

    /// The values the end of a block refers to.
    pub open spec fn values(self) -> Seq<Value> {
        match self {
            Terminator::Jmp(_, Some(value)) => seq![value],
            Terminator::Jmp(_, None) => Seq::empty(),
            Terminator::If { cond, .. } => seq![cond],
            Terminator::Switch { int_value, cases, otherwise, .. } => {
                let values = seq![int_value] + Terminator::case_values(cases);
                match otherwise.1 {
                    Some(value) => values.push(value),
                    None => values,
                }
            },
            Terminator::Unreachable => Seq::empty(),
            Terminator::Return(value) => seq![value],
            Terminator::Result(value) => seq![value],
        }
    }
}

impl TerminatorInstruction {
    /// The values this end of a block refers to.
    pub fn values(&self) -> (values: Vec<Value>)
        ensures
            values@ == self@.values(),
    {
        let values: Vec<Value> = match self {
            TerminatorInstruction::Jmp(_, argument) => match argument {
                Some(value) => vec![*value],
                None => Vec::new(),
            },
            TerminatorInstruction::If { cond, .. } => vec![*cond],
            TerminatorInstruction::Switch { int_value, cases, otherwise, .. } => {
                let mut all: Vec<Value> = vec![*int_value];
                let mut i: usize = 0;
                while i < cases.len()
                    invariant
                        i <= cases.len(),
                        all@ == seq![*int_value] + Terminator::case_values(cases@.take(i as int)),
                    decreases cases.len() - i,
                {
                    let argument = cases[i].1.1;
                    assert(cases@.take(i + 1).drop_last() == cases@.take(i as int));
                    match argument {
                        Some(value) => {
                            all.push(value);
                        },
                        None => {},
                    }
                    i += 1;
                }
                assert(cases@.take(i as int) == cases@);
                match otherwise.1 {
                    Some(value) => {
                        all.push(value);
                    },
                    None => {},
                }
                all
            },
            TerminatorInstruction::Unreachable => Vec::new(),
            TerminatorInstruction::Return(value) => vec![*value],
            TerminatorInstruction::Result(value) => vec![*value],
        };
        assert(values@ =~= self@.values());
        values
    }
}

} // verus!

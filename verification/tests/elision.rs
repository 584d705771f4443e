use ante_passes::mir::elide_borrow_pairs::{classify_arg, resolve_definition, ArgClass};
use ante_passes::mir::{Block, BorrowPair, Definition, Instruction, Mir, PrimitiveType, TerminatorInstruction, Type, Value};
use rustc_hash::FxHashMap;

fn unit() -> Type {
    Type::Primitive(PrimitiveType::Unit)
}

fn definition(id: u32, parameters: usize, instructions: Vec<Instruction>, pairs: Vec<BorrowPair>) -> Definition {
    let mut definition = Definition::new(format!("f{id}"), id, 0, unit());
    let count = instructions.len() as u32;
    definition.instruction_result_types = instructions.iter().map(|_| unit()).collect();
    definition.instructions = instructions;
    definition.blocks = vec![Block {
        parameter_types: (0..parameters).map(|_| unit()).collect(),
        instructions: (0..count).collect(),
        terminator: Some(TerminatorInstruction::Return(Value::Unit)),
    }];
    definition.borrow_pairs = pairs;
    definition
}

fn program(definitions: Vec<Definition>) -> Mir {
    let mut map = FxHashMap::default();
    for definition in definitions {
        map.insert(definition.id, definition);
    }
    Mir { definitions: map, externals: FxHashMap::default(), preserved_op_indices: FxHashMap::default() }
}

/// Retain, call of `function` with a handle and a capability, release.
fn paired_call(function: u32, capability: Value) -> (Vec<Instruction>, Vec<BorrowPair>) {
    let handle = Value::Parameter(0, 0);
    let instructions = vec![
        Instruction::RcRetain(handle),
        Instruction::Call { function: Value::Definition(function), arguments: vec![handle, capability] },
        Instruction::Call { function: Value::Definition(90), arguments: vec![handle] },
    ];
    let pairs = vec![BorrowPair { retain: 0, release_call: 2, call: 1, implicit_args: vec![1] }];
    (instructions, pairs)
}

fn instructions_of(mir: &Mir, id: u32) -> Vec<u32> {
    mir.definitions[&id].blocks[0].instructions.clone()
}

#[test]
fn a_pair_around_a_call_with_a_static_impl_goes() {
    let (instructions, pairs) = paired_call(2, Value::Definition(50));
    let mir = program(vec![definition(1, 1, instructions, pairs), definition(2, 2, vec![], vec![])]);
    let mir = mir.elide_pure_borrow_pairs();
    assert_eq!(instructions_of(&mir, 1), vec![1]);
    assert!(mir.definitions[&1].borrow_pairs.is_empty());
    assert_eq!(mir.definitions[&1].instructions.len(), 3);
}

#[test]
fn a_pair_around_a_call_with_an_unknown_capability_stays() {
    let (instructions, pairs) = paired_call(2, Value::Unit);
    let mir = program(vec![definition(1, 1, instructions, pairs), definition(2, 2, vec![], vec![])]);
    assert_eq!(instructions_of(&mir.elide_pure_borrow_pairs(), 1), vec![0, 1, 2]);
}

#[test]
fn a_parameter_is_pure_if_it_is_at_every_call() {
    // f1 passes its second parameter on, and f3 calls f1 with a static impl.
    let (instructions, pairs) = paired_call(2, Value::Parameter(0, 1));
    let caller = vec![Instruction::Call {
        function: Value::Definition(1),
        arguments: vec![Value::Unit, Value::Definition(50)],
    }];
    let mir = program(vec![
        definition(1, 2, instructions, pairs),
        definition(2, 2, vec![], vec![]),
        definition(3, 0, caller, vec![]),
    ]);
    assert_eq!(instructions_of(&mir.elide_pure_borrow_pairs(), 1), vec![1]);
}

#[test]
fn impurity_reaches_through_calls() {
    // f4 calls f3 with an unknown capability, which f3 passes to f1.
    let (instructions, pairs) = paired_call(2, Value::Parameter(0, 1));
    let middle = vec![Instruction::Call {
        function: Value::Definition(1),
        arguments: vec![Value::Unit, Value::Parameter(0, 0)],
    }];
    let outer = vec![Instruction::Call { function: Value::Definition(3), arguments: vec![Value::Unit] }];
    let mir = program(vec![
        definition(1, 2, instructions, pairs),
        definition(2, 2, vec![], vec![]),
        definition(3, 1, middle, vec![]),
        definition(4, 0, outer, vec![]),
    ]);
    assert_eq!(instructions_of(&mir.elide_pure_borrow_pairs(), 1), vec![0, 1, 2]);
}

#[test]
fn a_function_that_escapes_has_unknown_callers() {
    let (instructions, pairs) = paired_call(2, Value::Parameter(0, 1));
    let escape = vec![
        Instruction::Id(Value::Definition(1)),
        Instruction::MakeTuple(vec![Value::InstructionResult(0)]),
    ];
    let mir = program(vec![
        definition(1, 2, instructions, pairs),
        definition(2, 2, vec![], vec![]),
        definition(3, 0, escape, vec![]),
    ]);
    assert_eq!(instructions_of(&mir.elide_pure_borrow_pairs(), 1), vec![0, 1, 2]);
}

#[test]
fn eliding_again_changes_nothing() {
    let (instructions, pairs) = paired_call(2, Value::Definition(50));
    let mir = program(vec![definition(1, 1, instructions, pairs), definition(2, 2, vec![], vec![])]);
    let once = mir.elide_pure_borrow_pairs();
    let first = instructions_of(&once, 1);
    let twice = once.elide_pure_borrow_pairs();
    assert_eq!(instructions_of(&twice, 1), first);
}

#[test]
fn a_stale_pair_is_left_alone() {
    let (instructions, pairs) = paired_call(2, Value::Definition(50));
    let mut stale = definition(1, 1, instructions, pairs);
    stale.blocks[0].instructions = vec![0, 1];
    let mir = program(vec![stale, definition(2, 2, vec![], vec![])]);
    assert_eq!(instructions_of(&mir.elide_pure_borrow_pairs(), 1), vec![0, 1]);
}

#[test]
fn definitions_are_found_through_chains() {
    let instructions = vec![
        Instruction::Id(Value::Definition(7)),
        Instruction::Id(Value::InstructionResult(0)),
        Instruction::StackAlloc(Value::Unit),
        Instruction::Id(Value::InstructionResult(2)),
    ];
    let chain = definition(1, 1, instructions, vec![]);
    assert_eq!(resolve_definition(&chain, &Value::InstructionResult(1)), Some(7));
    assert_eq!(resolve_definition(&chain, &Value::Definition(9)), Some(9));
    assert_eq!(resolve_definition(&chain, &Value::InstructionResult(3)), None);
    assert_eq!(resolve_definition(&chain, &Value::InstructionResult(99)), None);
    assert!(matches!(classify_arg(&chain, &Value::InstructionResult(1)), ArgClass::Pure));
    assert!(matches!(classify_arg(&chain, &Value::Parameter(0, 4)), ArgClass::Param(4)));
    assert!(matches!(classify_arg(&chain, &Value::Parameter(1, 4)), ArgClass::Impure));
    assert!(matches!(classify_arg(&chain, &Value::Unit), ArgClass::Impure));
}

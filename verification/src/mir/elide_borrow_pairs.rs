//! Removes the borrow pairs that monomorphization made superfluous.
//!
//! A call site emits a retain, and a release behind the call, around an argument in a borrowing
//! position whenever the implicit arguments of the call are not known to be pure. Once the whole
//! program is at hand the implicit arguments are concrete, and a recorded pair can go if all of
//! them are pure:
//!
//! - one that resolves to a definition is pure, since a static impl cannot suspend the callee;
//! - a parameter of the enclosing definition is as pure as what every call site passes for it;
//! - anything else is impure, and so is every parameter of a definition whose value is used other
//!   than by calling it, since it has call sites nobody knows.

use crate::collections::{
    map_get, map_insert, map_keys, map_remove, set_contains, set_insert,
};
use crate::ids::{DefinitionId, InstructionId, ENTRY_BLOCK};
use crate::mir::{
    BlockState, BorrowPair, Definition, DefinitionState, Instruction, Mir, Operation, Pair,
    Program, Value,
};
use rustc_hash::{FxHashMap, FxHashSet};
use vstd::prelude::*;

verus! {

/// A parameter of a definition.
pub type Fact = (DefinitionId, u32);

/// How an argument of a call bears on the purity of the parameter it is passed for.
#[derive(Clone, Copy, Debug, PartialEq, Eq, Structural)]
pub enum ArgClass {
    Pure,
    /// As pure as this parameter of the enclosing definition.
    Param(u32),
    Impure,
}

impl DefinitionState {
    /// The definition `value` refers to through at most `steps` results of `Id` instructions.
    pub open spec fn resolved(self, value: Value, steps: nat) -> Option<DefinitionId>
        decreases steps,
    {
        match value {
            Value::Definition(id) => Some(id),
            Value::InstructionResult(id) => if steps > 0 && id < self.instructions.len() {
                match self.instructions[id as int] {
                    Operation::Id(inner) => self.resolved(inner, (steps - 1) as nat),
                    _ => None,
                }
            } else {
                None
            },
            _ => None,
        }
    }

    /// The definition `value` refers to, if it is one.
    pub open spec fn target(self, value: Value) -> Option<DefinitionId> {
        self.resolved(value, self.instructions.len())
    }

    pub open spec fn class_of(self, argument: Value) -> ArgClass {
        if self.target(argument) is Some {
            ArgClass::Pure
        } else {
            match argument {
                Value::Parameter(block, index) => if block == ENTRY_BLOCK {
                    ArgClass::Param(index)
                } else {
                    ArgClass::Impure
                },
                _ => ArgClass::Impure,
            }
        }
    }

    /// `value` is used by instruction `id` other than as its callee. What an `Id` refers to is not
    /// used by it, but by the uses of its result.
    pub open spec fn instruction_uses(self, id: int, value: Value) -> bool {
        &&& 0 <= id < self.instructions.len()
        &&& match self.instructions[id] {
            Operation::Call { arguments, .. } => arguments.contains(value),
            Operation::Id(_) => false,
            other => other.values().contains(value),
        }
    }

    /// `value` is used by the end of block `id`.
    pub open spec fn terminator_uses(self, id: int, value: Value) -> bool {
        &&& 0 <= id < self.blocks.len()
        &&& match self.blocks[id].terminator {
            Some(terminator) => terminator.values().contains(value),
            None => false,
        }
    }

    /// `value` is used other than as a callee.
    pub open spec fn uses(self, value: Value) -> bool {
        ||| exists|id: int| #[trigger] self.instruction_uses(id, value)
        ||| exists|id: int| #[trigger] self.terminator_uses(id, value)
    }

    /// The result of instruction `id` is an `Id` of `value`.
    pub open spec fn is_id_of(self, id: int, value: Value) -> bool {
        0 <= id < self.instructions.len() && self.instructions[id] == Operation::Id(value)
    }

    /// `value` is used other than as a callee, by itself or through at most `steps` `Id`s.
    pub open spec fn escapes_in(self, value: Value, steps: nat) -> bool
        decreases steps,
    {
        ||| self.uses(value)
        ||| steps > 0 && exists|id: u32| #[trigger]
            self.is_id_of(id as int, value) && self.escapes_in(
                Value::InstructionResult(id),
                (steps - 1) as nat,
            )
    }

    /// `value` is used other than as a callee, by itself or through `Id`s.
    pub open spec fn escapes(self, value: Value) -> bool {
        exists|steps: nat| #[trigger] self.escapes_in(value, steps)
    }

    pub open spec fn parameter_count(self) -> nat {
        if self.blocks.len() > ENTRY_BLOCK {
            self.blocks[ENTRY_BLOCK as int].parameter_types.len()
        } else {
            0
        }
    }

    /// Instruction `call` passes `argument` for `fact`.
    pub open spec fn passes(self, call: int, position: int, argument: Value, fact: Fact) -> bool {
        &&& 0 <= call < self.instructions.len()
        &&& match self.instructions[call] {
            Operation::Call { function, arguments } => {
                &&& 0 <= position < arguments.len()
                &&& arguments[position] == argument
                &&& self.target(function) == Some(fact.0)
                &&& position as u32 == fact.1
            },
            _ => false,
        }
    }
}

impl Program {
    /// The value of the definition `id` is used other than by calling it.
    pub open spec fn escaping(self, id: DefinitionId) -> bool {
        exists|key: DefinitionId|
            self.definitions.contains_key(key) && (#[trigger] self.definitions[key]).escapes(
                Value::Definition(id),
            )
    }

    /// `fact` is a parameter of the definition under `key`, whose value escapes.
    pub open spec fn parameter_escapes(self, key: DefinitionId, fact: Fact) -> bool {
        &&& self.definitions.contains_key(key)
        &&& self.definitions[key].id == fact.0
        &&& self.escaping(fact.0)
        &&& fact.1 < self.definitions[key].parameter_count()
    }

    /// The definition under `key` passes an impure argument for `fact`.
    pub open spec fn passes_impure(
        self,
        key: DefinitionId,
        call: int,
        position: int,
        argument: Value,
        fact: Fact,
    ) -> bool {
        &&& self.definitions.contains_key(key)
        &&& self.definitions[key].passes(call, position, argument, fact)
        &&& self.definitions[key].class_of(argument) is Impure
    }

    /// The definition under `key` passes its own parameter `from` for `fact`.
    pub open spec fn passes_parameter(
        self,
        key: DefinitionId,
        call: int,
        position: int,
        argument: Value,
        from: Fact,
        fact: Fact,
    ) -> bool {
        &&& self.definitions.contains_key(key)
        &&& self.definitions[key].passes(call, position, argument, fact)
        &&& self.definitions[key].class_of(argument) == ArgClass::Param(from.1)
        &&& self.definitions[key].id == from.0
    }

    /// `fact` is impure on its own account.
    pub open spec fn impure_at_once(self, fact: Fact) -> bool {
        ||| exists|key: DefinitionId| #[trigger] self.parameter_escapes(key, fact)
        ||| exists|key: DefinitionId, call: int, position: int, argument: Value| #[trigger]
            self.passes_impure(key, call, position, argument, fact)
    }

    /// `fact` is passed the parameter `from`.
    pub open spec fn flows(self, from: Fact, fact: Fact) -> bool {
        exists|key: DefinitionId, call: int, position: int, argument: Value| #[trigger]
            self.passes_parameter(key, call, position, argument, from, fact)
    }

    /// `fact` is impure, by at most `steps` parameters passed on.
    pub open spec fn impure_in(self, fact: Fact, steps: nat) -> bool
        decreases steps,
    {
        ||| self.impure_at_once(fact)
        ||| steps > 0 && exists|from: Fact| #[trigger]
            self.flows(from, fact) && self.impure_in(from, (steps - 1) as nat)
    }

    /// Something impure may be passed for the parameter `fact`.
    pub open spec fn impure(self, fact: Fact) -> bool {
        exists|steps: nat| #[trigger] self.impure_in(fact, steps)
    }
}

impl DefinitionState {
    pub open spec fn block_has(self, block: int, id: InstructionId) -> bool {
        0 <= block < self.blocks.len() && self.blocks[block].instructions.contains(id)
    }

    /// Instruction `id` is in a block.
    pub open spec fn is_live(self, id: InstructionId) -> bool {
        exists|block: int| #[trigger] self.block_has(block, id)
    }

    pub open spec fn is_pure(self, program: Program, argument: Value) -> bool {
        match self.class_of(argument) {
            ArgClass::Pure => true,
            ArgClass::Param(index) => !program.impure((self.id, index)),
            ArgClass::Impure => false,
        }
    }

    /// The retain and the release of `pair` can go: its instructions are still there, and every
    /// implicit argument of its call is pure.
    pub open spec fn can_elide(self, program: Program, pair: Pair) -> bool {
        &&& self.is_live(pair.retain)
        &&& self.is_live(pair.release_call)
        &&& self.is_live(pair.call)
        &&& pair.call < self.instructions.len()
        &&& match self.instructions[pair.call as int] {
            Operation::Call { arguments, .. } => forall|i: int|
                0 <= i < pair.implicit_args.len() ==> (#[trigger] pair.implicit_args[i])
                    < arguments.len() && self.is_pure(
                    program,
                    arguments[pair.implicit_args[i] as int],
                ),
            _ => false,
        }
    }

    /// Instruction `id` is a half of the pair at `index`, and the pair can go.
    pub open spec fn goes_with(self, program: Program, index: int, id: InstructionId) -> bool {
        &&& 0 <= index < self.borrow_pairs.len()
        &&& self.can_elide(program, self.borrow_pairs[index])
        &&& id == self.borrow_pairs[index].retain || id == self.borrow_pairs[index].release_call
    }

    /// Instruction `id` is a half of a pair that can go.
    pub open spec fn goes(self, program: Program, id: InstructionId) -> bool {
        exists|index: int| #[trigger] self.goes_with(program, index, id)
    }

    /// This definition without the pairs that can go.
    pub open spec fn elided(self, program: Program) -> DefinitionState {
        DefinitionState {
            blocks: self.blocks.map_values(
                |block: BlockState|
                    BlockState {
                        instructions: block.instructions.filter(
                            |id: InstructionId| !self.goes(program, id),
                        ),
                        ..block
                    },
            ),
            borrow_pairs: Seq::empty(),
            ..self
        }
    }
}

impl Program {
    /// This program without the pairs that can go.
    pub open spec fn elided(self) -> Program {
        Program {
            definitions: self.definitions.map_values(
                |definition: DefinitionState| definition.elided(self),
            ),
            ..self
        }
    }
}

/// The definition `value` refers to through `Id` instructions of `def`, if it is one.
pub fn resolve_definition(def: &Definition, value: &Value) -> (target: Option<DefinitionId>)
    ensures
        target == def@.target(*value),
{
    let mut current: Value = *value;
    let mut steps: usize = def.instructions.len();
    loop
        invariant
            def@.resolved(current, steps as nat) == def@.target(*value),
        decreases steps,
    {
        match current {
            Value::Definition(id) => {
                return Some(id);
            },
            Value::InstructionResult(id) => {
                if steps == 0 || id as usize >= def.instructions.len() {
                    return None;
                }
                match &def.instructions[id as usize] {
                    Instruction::Id(inner) => {
                        current = *inner;
                        steps -= 1;
                    },
                    _ => {
                        return None;
                    },
                }
            },
            _ => {
                return None;
            },
        }
    }
}

/// How `value`, an argument of a call in `def`, bears on the purity of the parameter it is passed
/// for.
pub fn classify_arg(def: &Definition, value: &Value) -> (class: ArgClass)
    ensures
        class == def@.class_of(*value),
{
    if resolve_definition(def, value).is_some() {
        return ArgClass::Pure;
    }
    match value {
        Value::Parameter(block, index) => {
            if *block == ENTRY_BLOCK {
                ArgClass::Param(*index)
            } else {
                ArgClass::Impure
            }
        },
        _ => ArgClass::Impure,
    }
}

/// Note that `values` are used other than as callees.
fn mark(
    values: &Vec<Value>,
    escaping: &mut FxHashSet<DefinitionId>,
    escaped: &mut FxHashSet<InstructionId>,
)
    ensures
        forall|id: DefinitionId| #[trigger]
            final(escaping)@.contains(id) <==> old(escaping)@.contains(id) || values@.contains(
                Value::Definition(id),
            ),
        forall|id: InstructionId| #[trigger]
            final(escaped)@.contains(id) <==> old(escaped)@.contains(id) || values@.contains(
                Value::InstructionResult(id),
            ),
{
    let mut i: usize = 0;
    while i < values.len()
        invariant
            i <= values.len(),
            forall|id: DefinitionId| #[trigger]
                escaping@.contains(id) <==> old(escaping)@.contains(id) || values@.take(
                    i as int,
                ).contains(Value::Definition(id)),
            forall|id: InstructionId| #[trigger]
                escaped@.contains(id) <==> old(escaped)@.contains(id) || values@.take(
                    i as int,
                ).contains(Value::InstructionResult(id)),
        decreases values.len() - i,
    {
        broadcast use vstd::seq_lib::group_seq_properties;

        assert(values@.take(i + 1) == values@.take(i as int).push(values@[i as int]));
        match values[i] {
            Value::Definition(id) => {
                set_insert(escaping, id);
            },
            Value::InstructionResult(id) => {
                set_insert(escaped, id);
            },
            _ => {},
        }
        i += 1;
    }
    assert(values@.take(i as int) == values@);
}

impl DefinitionState {
    /// `value` is used by one of the first `count` instructions other than as a callee.
    spec fn used_before(self, count: int, value: Value) -> bool {
        exists|id: int| id < count && #[trigger] self.instruction_uses(id, value)
    }

    /// `value` is used by the end of one of the first `count` blocks.
    spec fn ends_use(self, count: int, value: Value) -> bool {
        exists|id: int| id < count && #[trigger] self.terminator_uses(id, value)
    }

    /// `value` is known to escape.
    spec fn known(
        value: Value,
        escaping: Set<DefinitionId>,
        escaped: Set<InstructionId>,
    ) -> bool {
        match value {
            Value::Definition(id) => escaping.contains(id),
            Value::InstructionResult(id) => escaped.contains(id),
            _ => true,
        }
    }

    /// What instruction `id` is an `Id` of is not known to escape.
    spec fn is_pending(
        self,
        id: int,
        escaping: Set<DefinitionId>,
        escaped: Set<InstructionId>,
    ) -> bool {
        match self.instructions[id] {
            Operation::Id(value) => !DefinitionState::known(value, escaping, escaped),
            _ => false,
        }
    }

    /// How many of the first `count` instructions are `Id`s of what is not known to escape.
    spec fn pending(
        self,
        count: int,
        escaping: Set<DefinitionId>,
        escaped: Set<InstructionId>,
    ) -> nat
        decreases count,
    {
        if count <= 0 {
            0
        } else {
            let before = self.pending(count - 1, escaping, escaped);
            if self.is_pending(count - 1, escaping, escaped) {
                before + 1
            } else {
                before
            }
        }
    }

    /// As more is known to escape, less is pending.
    proof fn pending_shrinks(
        self,
        count: int,
        escaping: Set<DefinitionId>,
        escaped: Set<InstructionId>,
        more_escaping: Set<DefinitionId>,
        more_escaped: Set<InstructionId>,
        known: int,
    )
        requires
            escaping.subset_of(more_escaping),
            escaped.subset_of(more_escaped),
        ensures
            self.pending(count, more_escaping, more_escaped) <= self.pending(
                count,
                escaping,
                escaped,
            ),
            0 <= known < count && self.is_pending(known, escaping, escaped) && !self.is_pending(
                known,
                more_escaping,
                more_escaped,
            ) ==> self.pending(count, more_escaping, more_escaped) < self.pending(
                count,
                escaping,
                escaped,
            ),
        decreases count,
    {
        if count > 0 {
            self.pending_shrinks(
                count - 1,
                escaping,
                escaped,
                more_escaping,
                more_escaped,
                known,
            );
        }
    }

    /// What is known follows an `Id` that is known to escape.
    spec fn follows(
        self,
        id: u32,
        escaping: Set<DefinitionId>,
        escaped: Set<InstructionId>,
    ) -> bool {
        id < self.instructions.len() && escaped.contains(id) ==> match self.instructions[id as int] {
            Operation::Id(value) => DefinitionState::known(value, escaping, escaped),
            _ => true,
        }
    }

    /// What follows every `Id` holds all that escapes.
    proof fn escapes_are_known(
        self,
        value: Value,
        steps: nat,
        escaping: Set<DefinitionId>,
        escaped: Set<InstructionId>,
    )
        requires
            self.escapes_in(value, steps),
            forall|value: Value| #[trigger]
                self.uses(value) ==> DefinitionState::known(value, escaping, escaped),
            forall|id: u32| #[trigger] self.follows(id, escaping, escaped),
        ensures
            DefinitionState::known(value, escaping, escaped),
        decreases steps,
    {
        if !self.uses(value) {
            let id = choose|id: u32| #[trigger]
                self.is_id_of(id as int, value) && self.escapes_in(
                    Value::InstructionResult(id),
                    (steps - 1) as nat,
                );
            self.escapes_are_known(
                Value::InstructionResult(id),
                (steps - 1) as nat,
                escaping,
                escaped,
            );
            assert(self.follows(id, escaping, escaped));
        }
    }

    /// What an escaping `Id` is of escapes.
    proof fn id_escapes(self, id: u32, value: Value)
        requires
            self.is_id_of(id as int, value),
            self.escapes(Value::InstructionResult(id)),
        ensures
            self.escapes(value),
    {
        let steps = choose|steps: nat| #[trigger]
            self.escapes_in(Value::InstructionResult(id), steps);
        assert(self.escapes_in(value, steps + 1));
    }
}

/// Note the definitions whose value escapes through a use in `def`.
fn scan_escapes(def: &Definition, escaping: &mut FxHashSet<DefinitionId>)
    ensures
        forall|id: DefinitionId| #[trigger]
            final(escaping)@.contains(id) <==> old(escaping)@.contains(id) || def@.escapes(
                Value::Definition(id),
            ),
{
    let mut escaped: FxHashSet<InstructionId> = FxHashSet::default();
    let mut i: usize = 0;
    while i < def.instructions.len()
        invariant
            i <= def.instructions.len(),
            forall|id: DefinitionId| #[trigger]
                escaping@.contains(id) <==> old(escaping)@.contains(id) || def@.used_before(
                    i as int,
                    Value::Definition(id),
                ),
            forall|id: InstructionId| #[trigger]
                escaped@.contains(id) <==> def@.used_before(
                    i as int,
                    Value::InstructionResult(id),
                ),
        decreases def.instructions.len() - i,
    {
        let ghost before = (escaping@, escaped@);
        match &def.instructions[i] {
            Instruction::Call { arguments, .. } => {
                mark(arguments, escaping, &mut escaped);
            },
            // An `Id` escapes only where its result does.
            Instruction::Id(_) => {},
            other => {
                let values = other.values();
                mark(&values, escaping, &mut escaped);
            },
        }
        proof {
            assert forall|value: Value|
                #[trigger] def@.used_before(i + 1, value) == (def@.used_before(i as int, value)
                    || def@.instruction_uses(i as int, value)) by {
                if def@.used_before(i as int, value) {
                    let id = choose|id: int|
                        id < i && #[trigger] def@.instruction_uses(id, value);
                    assert(id < i + 1 && def@.instruction_uses(id, value));
                }
            }
        }
        i += 1;
    }
    let mut i: usize = 0;
    while i < def.blocks.len()
        invariant
            i <= def.blocks.len(),
            forall|id: DefinitionId| #[trigger]
                escaping@.contains(id) <==> old(escaping)@.contains(id) || def@.used_before(
                    def@.instructions.len() as int,
                    Value::Definition(id),
                ) || def@.ends_use(i as int, Value::Definition(id)),
            forall|id: InstructionId| #[trigger]
                escaped@.contains(id) <==> def@.used_before(
                    def@.instructions.len() as int,
                    Value::InstructionResult(id),
                ) || def@.ends_use(i as int, Value::InstructionResult(id)),
        decreases def.blocks.len() - i,
    {
        match &def.blocks[i].terminator {
            Some(terminator) => {
                let values = terminator.values();
                mark(&values, escaping, &mut escaped);
            },
            None => {},
        }
        proof {
            assert forall|value: Value|
                #[trigger] def@.ends_use(i + 1, value) == (def@.ends_use(i as int, value)
                    || def@.terminator_uses(i as int, value)) by {
                if def@.ends_use(i as int, value) {
                    let id = choose|id: int| id < i && #[trigger] def@.terminator_uses(id, value);
                    assert(id < i + 1 && def@.terminator_uses(id, value));
                }
            }
        }
        i += 1;
    }
    proof {
        assert forall|value: Value| #[trigger]
            def@.uses(value) == (def@.used_before(def@.instructions.len() as int, value)
                || def@.ends_use(def@.blocks.len() as int, value)) by {
            if exists|id: int| #[trigger] def@.instruction_uses(id, value) {
                let id = choose|id: int| #[trigger] def@.instruction_uses(id, value);
                assert(id < def@.instructions.len() && def@.instruction_uses(id, value));
            }
            if exists|id: int| #[trigger] def@.terminator_uses(id, value) {
                let id = choose|id: int| #[trigger] def@.terminator_uses(id, value);
                assert(id < def@.blocks.len() && def@.terminator_uses(id, value));
            }
        }
        assert forall|value: Value| #[trigger] def@.uses(value) implies def@.escapes(value) by {
            assert(def@.escapes_in(value, 0));
        }
        assert forall|id: InstructionId| #[trigger] escaped@.contains(id) implies def@.escapes(
            Value::InstructionResult(id),
        ) by {
            assert(def@.uses(Value::InstructionResult(id)));
        }
        assert forall|id: DefinitionId| #[trigger] escaping@.contains(id) implies old(
            escaping,
        )@.contains(id) || def@.escapes(Value::Definition(id)) by {
            if !old(escaping)@.contains(id) {
                assert(def@.uses(Value::Definition(id)));
            }
        }
    }
    push_down_ids(def, escaping, &mut escaped);
    proof {
        assert forall|id: DefinitionId| #[trigger] escaping@.contains(id) implies old(
            escaping,
        )@.contains(id) || def@.escapes(Value::Definition(id)) by {
        }
        assert forall|id: DefinitionId| def@.escapes(
            Value::Definition(id),
        ) implies #[trigger] escaping@.contains(id) by {
            let steps = choose|steps: nat| #[trigger]
                def@.escapes_in(Value::Definition(id), steps);
            def@.escapes_are_known(Value::Definition(id), steps, escaping@, escaped@);
        }
    }
}

/// Push what escapes down the chains of `Id`s, until nothing changes.
fn push_down_ids(
    def: &Definition,
    escaping: &mut FxHashSet<DefinitionId>,
    escaped: &mut FxHashSet<InstructionId>,
)
    requires
        forall|id: InstructionId| #[trigger]
            old(escaped)@.contains(id) ==> def@.escapes(Value::InstructionResult(id)),
    ensures
        old(escaping)@.subset_of(final(escaping)@),
        old(escaped)@.subset_of(final(escaped)@),
        forall|id: DefinitionId| #[trigger]
            final(escaping)@.contains(id) ==> old(escaping)@.contains(id) || def@.escapes(
                Value::Definition(id),
            ),
        forall|id: u32| #[trigger] def@.follows(id, final(escaping)@, final(escaped)@),
{
    let count: usize = def.instructions.len();
    loop
        invariant
            count == def@.instructions.len(),
            old(escaping)@.subset_of(escaping@),
            old(escaped)@.subset_of(escaped@),
            forall|id: InstructionId| #[trigger]
                escaped@.contains(id) ==> def@.escapes(Value::InstructionResult(id)),
            forall|id: DefinitionId| #[trigger]
                escaping@.contains(id) ==> old(escaping)@.contains(id) || def@.escapes(
                    Value::Definition(id),
                ),
        ensures
            forall|id: u32| #[trigger] def@.follows(id, escaping@, escaped@),
        decreases def@.pending(count as int, escaping@, escaped@),
    {
        let mut changed = false;
        let ghost start = (escaping@, escaped@);
        let mut i: usize = 0;
        while i < count && i <= 0xffff_ffff
            invariant
                i <= count,
                i <= 0x1_0000_0000,
                count == def@.instructions.len(),
                old(escaping)@.subset_of(escaping@),
                old(escaped)@.subset_of(escaped@),
                start.0.subset_of(escaping@),
                start.1.subset_of(escaped@),
                forall|id: InstructionId| #[trigger]
                    escaped@.contains(id) ==> def@.escapes(Value::InstructionResult(id)),
                forall|id: DefinitionId| #[trigger]
                    escaping@.contains(id) ==> old(escaping)@.contains(id) || def@.escapes(
                        Value::Definition(id),
                    ),
                !changed ==> escaping@ == start.0 && escaped@ == start.1 && forall|id: u32|
                    id < i ==> #[trigger] def@.follows(id, escaping@, escaped@),
                changed ==> def@.pending(count as int, escaping@, escaped@) < def@.pending(
                    count as int,
                    start.0,
                    start.1,
                ),
            decreases count - i,
        {
            let id: u32 = i as u32;
            let ghost before = (escaping@, escaped@);
            match &def.instructions[i] {
                Instruction::Id(inner) => {
                    assert(def@.is_id_of(id as int, *inner));
                    if set_contains(escaped, id) {
                        proof {
                            def@.id_escapes(id, *inner);
                        }
                        match inner {
                            Value::Definition(target) => {
                                if set_insert(escaping, *target) {
                                    changed = true;
                                }
                            },
                            Value::InstructionResult(target) => {
                                if set_insert(escaped, *target) {
                                    changed = true;
                                }
                            },
                            _ => {},
                        }
                        proof {
                            def@.pending_shrinks(
                                count as int,
                                before.0,
                                before.1,
                                escaping@,
                                escaped@,
                                i as int,
                            );
                            def@.pending_shrinks(
                                count as int,
                                start.0,
                                start.1,
                                before.0,
                                before.1,
                                i as int,
                            );
                            assert(!changed ==> escaping@ =~= start.0 && escaped@ =~= start.1);
                        }
                    }
                },
                _ => {},
            }
            i += 1;
        }
        if !changed {
            break ;
        }
    }
}

fn copy_facts(facts: &Vec<Fact>) -> (copy: Vec<Fact>)
    ensures
        copy@ == facts@,
{
    let mut copy: Vec<Fact> = Vec::new();
    let mut i: usize = 0;
    while i < facts.len()
        invariant
            i <= facts.len(),
            copy@ == facts@.take(i as int),
        decreases facts.len() - i,
    {
        copy.push(facts[i]);
        assert(facts@.take(i + 1) == facts@.take(i as int).push(facts@[i as int]));
        i += 1;
    }
    assert(facts@.take(i as int) == facts@);
    copy
}

/// What is known of the purity of parameters while it is worked out.
struct Purity {
    /// The parameters found impure.
    impure: FxHashSet<Fact>,
    /// The parameters each parameter is passed for.
    edges: FxHashMap<Fact, Vec<Fact>>,
    /// The impure parameters whose edges have not been followed.
    worklist: Vec<Fact>,
    /// The ends of the edges.
    targets: Ghost<Set<Fact>>,
}

impl Purity {
    /// `edges` hold one from `from` to `fact`.
    spec fn has_edge(self, from: Fact, fact: Fact) -> bool {
        self.edges@.contains_key(from) && self.edges@[from]@.contains(fact)
    }

    /// Everything that is held here is so in `program`.
    spec fn is_sound(self, program: Program) -> bool {
        &&& forall|fact: Fact| #[trigger] self.impure@.contains(fact) ==> program.impure(fact)
        &&& forall|from: Fact, fact: Fact| #[trigger]
            self.has_edge(from, fact) ==> program.flows(from, fact) && self.targets@.contains(fact)
        &&& forall|fact: Fact| #[trigger] self.impure@.contains(fact) ==> self.worklist@.contains(
            fact,
        )
        &&& forall|i: int|
            0 <= i < self.worklist@.len() ==> self.impure@.contains(#[trigger] self.worklist@[i])
        &&& self.targets@.finite()
    }

    /// What the argument at `position` of `call` bears on is held here.
    spec fn covers(self, program: Program, key: DefinitionId, call: int, position: int) -> bool {
        &&& forall|argument: Value, fact: Fact| #[trigger]
            program.passes_impure(key, call, position, argument, fact) ==> self.impure@.contains(
                fact,
            )
        &&& forall|argument: Value, from: Fact, fact: Fact| #[trigger]
            program.passes_parameter(key, call, position, argument, from, fact) ==> self.has_edge(
                from,
                fact,
            )
    }

    spec fn covers_call(self, program: Program, key: DefinitionId, call: int) -> bool {
        forall|position: int| #[trigger] self.covers(program, key, call, position)
    }

    spec fn covers_definition(self, program: Program, key: DefinitionId) -> bool {
        &&& forall|fact: Fact| #[trigger]
            program.parameter_escapes(key, fact) ==> self.impure@.contains(fact)
        &&& forall|call: int| #[trigger] self.covers_call(program, key, call)
    }

    /// `self` holds at least what `other` does.
    spec fn extends(self, other: Purity) -> bool {
        &&& other.impure@.subset_of(self.impure@)
        &&& forall|from: Fact, fact: Fact| #[trigger]
            other.has_edge(from, fact) ==> self.has_edge(from, fact)
    }

    proof fn extended_covers(
        self,
        other: Purity,
        program: Program,
        key: DefinitionId,
        call: int,
        position: int,
    )
        requires
            self.extends(other),
            other.covers(program, key, call, position),
        ensures
            self.covers(program, key, call, position),
    {
    }

    proof fn extended_covers_call(
        self,
        other: Purity,
        program: Program,
        key: DefinitionId,
        call: int,
    )
        requires
            self.extends(other),
            other.covers_call(program, key, call),
        ensures
            self.covers_call(program, key, call),
    {
        assert forall|position: int| #[trigger] self.covers(program, key, call, position) by {
            assert(other.covers(program, key, call, position));
            self.extended_covers(other, program, key, call, position);
        }
    }

    proof fn extended_covers_definition(self, other: Purity, program: Program, key: DefinitionId)
        requires
            self.extends(other),
            other.covers_definition(program, key),
        ensures
            self.covers_definition(program, key),
    {
        assert forall|call: int| #[trigger] self.covers_call(program, key, call) by {
            assert(other.covers_call(program, key, call));
            self.extended_covers_call(other, program, key, call);
        }
    }

    fn new() -> (purity: Purity)
        ensures
            forall|program: Program| #[trigger] purity.is_sound(program),
            purity.impure@ == Set::<Fact>::empty(),
    {
        let purity = Purity {
            impure: FxHashSet::default(),
            edges: FxHashMap::default(),
            worklist: Vec::new(),
            targets: Ghost(Set::empty()),
        };
        purity
    }

    /// Note that `fact` is impure.
    fn add_impure(&mut self, fact: Fact)
        ensures
            final(self).extends(*old(self)),
            final(self).impure@ == old(self).impure@.insert(fact),
            forall|program: Program| #[trigger]
                old(self).is_sound(program) && program.impure(fact) ==> final(self).is_sound(
                    program,
                ),
    {
        broadcast use vstd::seq_lib::group_seq_properties;

        if set_insert(&mut self.impure, fact) {
            self.worklist.push(fact);
        }
        assert forall|a: Fact, b: Fact| #[trigger] self.has_edge(a, b) == old(self).has_edge(
            a,
            b,
        ) by {
        }
        assert forall|program: Program| #[trigger]
            old(self).is_sound(program) && program.impure(fact) implies self.is_sound(program) by {
            assert forall|other: Fact| #[trigger] self.impure@.contains(
                other,
            ) implies self.worklist@.contains(other) by {
                if old(self).impure@.contains(other) {
                    assert(old(self).worklist@.contains(other));
                }
            }
        }
    }

    /// Note that `from` is passed for `fact`.
    fn add_edge(&mut self, from: Fact, fact: Fact)
        ensures
            final(self).extends(*old(self)),
            final(self).has_edge(from, fact),
            final(self).impure@ == old(self).impure@,
            forall|program: Program| #[trigger]
                old(self).is_sound(program) && program.flows(from, fact) ==> final(self).is_sound(
                    program,
                ),
    {
        broadcast use vstd::seq_lib::group_seq_properties;

        let mut facts: Vec<Fact> = match map_remove(&mut self.edges, from) {
            Some(facts) => facts,
            None => Vec::new(),
        };
        facts.push(fact);
        map_insert(&mut self.edges, from, facts);
        self.targets = Ghost(self.targets@.insert(fact));
        assert forall|a: Fact, b: Fact| #[trigger] self.has_edge(a, b) implies old(self).has_edge(
            a,
            b,
        ) || (a == from && b == fact) by {
        }
        assert forall|a: Fact, b: Fact| old(self).has_edge(a, b) implies #[trigger] self.has_edge(
            a,
            b,
        ) by {
        }
    }

    /// Note what a call in the definition under `key` passes.
    fn add_call(
        &mut self,
        Ghost(program): Ghost<Program>,
        Ghost(key): Ghost<DefinitionId>,
        def: &Definition,
        call: usize,
    )
        requires
            program.definitions.contains_key(key),
            program.definitions[key] == def@,
            call < def.instructions.len(),
            old(self).is_sound(program),
        ensures
            final(self).extends(*old(self)),
            final(self).is_sound(program),
            final(self).covers_call(program, key, call as int),
    {
        let (function, arguments) = match &def.instructions[call] {
            Instruction::Call { function, arguments } => (function, arguments),
            _ => {
                return ;
            },
        };
        // The parameters of a callee that nobody knows are left to the escape scan.
        let target = match resolve_definition(def, function) {
            Some(target) => target,
            None => {
                return ;
            },
        };
        let mut position: usize = 0;
        while position < arguments.len()
            invariant
                position <= arguments.len(),
                call < def.instructions.len(),
                program.definitions.contains_key(key),
                program.definitions[key] == def@,
                def@.instructions[call as int] == (Operation::Call {
                    function: *function,
                    arguments: arguments@,
                }),
                def@.target(*function) == Some(target),
                self.extends(*old(self)),
                self.is_sound(program),
                forall|p: int| p < position ==> #[trigger] self.covers(program, key, call as int, p),
            decreases arguments.len() - position,
        {
            let argument = arguments[position];
            let fact: Fact = (target, position as u32);
            let ghost before = *self;
            match classify_arg(def, &argument) {
                ArgClass::Pure => {},
                ArgClass::Param(index) => {
                    let from: Fact = (def.id, index);
                    proof {
                        assert(program.passes_parameter(
                            key,
                            call as int,
                            position as int,
                            argument,
                            from,
                            fact,
                        ));
                    }
                    self.add_edge(from, fact);
                },
                ArgClass::Impure => {
                    proof {
                        assert(program.passes_impure(
                            key,
                            call as int,
                            position as int,
                            argument,
                            fact,
                        ));
                        assert(program.impure_in(fact, 0));
                    }
                    self.add_impure(fact);
                },
            }
            assert forall|p: int| p < position + 1 implies #[trigger] self.covers(
                program,
                key,
                call as int,
                p,
            ) by {
                if p < position {
                    self.extended_covers(before, program, key, call as int, p);
                }
            }
            position += 1;
        }
    }

    /// Note what the definition under `key` says of the purity of parameters.
    fn add_definition(
        &mut self,
        Ghost(program): Ghost<Program>,
        Ghost(key): Ghost<DefinitionId>,
        def: &Definition,
        escaping: &FxHashSet<DefinitionId>,
    )
        requires
            program.definitions.contains_key(key),
            program.definitions[key] == def@,
            forall|id: DefinitionId| #[trigger] escaping@.contains(id) == program.escaping(id),
            old(self).is_sound(program),
        ensures
            final(self).extends(*old(self)),
            final(self).is_sound(program),
            final(self).covers_definition(program, key),
    {
        if set_contains(escaping, def.id) && def.blocks.len() > ENTRY_BLOCK as usize {
            let count: usize = def.blocks[ENTRY_BLOCK as usize].parameter_types.len();
            let mut i: usize = 0;
            while i < count && i <= 0xffff_ffff
                invariant
                    i <= count,
                    i <= 0x1_0000_0000,
                    count == def@.parameter_count(),
                    program.definitions.contains_key(key),
                    program.definitions[key] == def@,
                    program.escaping(def.id),
                    self.extends(*old(self)),
                    self.is_sound(program),
                    forall|fact: Fact| #[trigger]
                        program.parameter_escapes(key, fact) && fact.1 < i ==> self.impure@.contains(
                            fact,
                        ),
                decreases count - i,
            {
                let fact: Fact = (def.id, i as u32);
                proof {
                    assert(program.parameter_escapes(key, fact));
                    assert(program.impure_in(fact, 0));
                }
                self.add_impure(fact);
                i += 1;
            }
        }
        let mut call: usize = 0;
        while call < def.instructions.len()
            invariant
                call <= def.instructions.len(),
                program.definitions.contains_key(key),
                program.definitions[key] == def@,
                self.extends(*old(self)),
                self.is_sound(program),
                forall|fact: Fact| #[trigger]
                    program.parameter_escapes(key, fact) ==> self.impure@.contains(fact),
                forall|c: int| c < call ==> #[trigger] self.covers_call(program, key, c),
            decreases def.instructions.len() - call,
        {
            let ghost before = *self;
            self.add_call(Ghost(program), Ghost(key), def, call);
            assert forall|c: int| c < call + 1 implies #[trigger] self.covers_call(
                program,
                key,
                c,
            ) by {
                if c < call {
                    self.extended_covers_call(before, program, key, c);
                }
            }
            call += 1;
        }
        assert forall|c: int| #[trigger] self.covers_call(program, key, c) by {
            if c >= def@.instructions.len() {
                assert forall|p: int| #[trigger] self.covers(program, key, c, p) by {
                }
            }
        }
    }

    /// Every edge from a parameter found impure leads to one, unless it is still to be followed.
    spec fn is_closed(self) -> bool {
        forall|from: Fact, fact: Fact| #[trigger]
            self.has_edge(from, fact) && self.impure@.contains(from) && !self.worklist@.contains(from)
                ==> self.impure@.contains(fact)
    }

    /// What is left to do: each end that is not yet known to be impure, and the worklist.
    spec fn work(self) -> nat {
        2 * self.targets@.difference(self.impure@).len() + self.worklist@.len()
    }

    /// Note that the ends of the edges from an impure parameter are impure.
    fn add_dependents(&mut self, Ghost(program): Ghost<Program>, from: Fact, dependents: &Vec<Fact>)
        requires
            program.impure(from),
            old(self).edges@.contains_key(from),
            old(self).edges@[from]@ == dependents@,
            forall|fact: Fact| #[trigger]
                old(self).impure@.contains(fact) ==> program.impure(fact),
            forall|a: Fact, b: Fact| #[trigger]
                old(self).has_edge(a, b) ==> program.flows(a, b) && old(self).targets@.contains(b),
            old(self).targets@.finite(),
        ensures
            final(self).edges == old(self).edges,
            final(self).targets == old(self).targets,
            old(self).impure@.subset_of(final(self).impure@),
            forall|fact: Fact| dependents@.contains(fact) ==> #[trigger] final(self).impure@.contains(
                fact,
            ),
            forall|fact: Fact| #[trigger]
                final(self).impure@.contains(fact) ==> program.impure(fact),
            forall|fact: Fact| #[trigger]
                final(self).impure@.contains(fact) && !old(self).impure@.contains(fact)
                    ==> final(self).worklist@.contains(fact),
            forall|fact: Fact| #[trigger]
                old(self).worklist@.contains(fact) ==> final(self).worklist@.contains(fact),
            forall|fact: Fact| #[trigger]
                final(self).worklist@.contains(fact) ==> old(self).worklist@.contains(fact)
                    || program.impure(fact),
            final(self).work() <= old(self).work(),
    {
        broadcast use vstd::seq_lib::group_seq_properties;

        let mut i: usize = 0;
        while i < dependents.len()
            invariant
                i <= dependents.len(),
                program.impure(from),
                old(self).edges@.contains_key(from),
                old(self).edges@[from]@ == dependents@,
                forall|a: Fact, b: Fact| #[trigger]
                    old(self).has_edge(a, b) ==> program.flows(a, b) && old(self).targets@.contains(
                        b,
                    ),
                old(self).targets@.finite(),
                self.edges == old(self).edges,
                self.targets == old(self).targets,
                old(self).impure@.subset_of(self.impure@),
                forall|j: int| 0 <= j < i ==> self.impure@.contains(#[trigger] dependents@[j]),
                forall|fact: Fact| #[trigger]
                    self.impure@.contains(fact) ==> program.impure(fact),
                forall|fact: Fact| #[trigger]
                    self.impure@.contains(fact) && !old(self).impure@.contains(fact)
                        ==> self.worklist@.contains(fact),
                forall|fact: Fact| #[trigger]
                    old(self).worklist@.contains(fact) ==> self.worklist@.contains(fact),
                forall|fact: Fact| #[trigger]
                    self.worklist@.contains(fact) ==> old(self).worklist@.contains(fact)
                        || program.impure(fact),
                self.work() <= old(self).work(),
            decreases dependents.len() - i,
        {
            broadcast use vstd::seq_lib::group_seq_properties;

            let dependent = dependents[i];
            proof {
                assert(old(self).has_edge(from, dependent));
                let steps = choose|steps: nat| #[trigger] program.impure_in(from, steps);
                assert(program.flows(from, dependent) && program.impure_in(
                    from,
                    ((steps + 1) - 1) as nat,
                ));
                assert(program.impure_in(dependent, steps + 1));
            }
            let ghost before = *self;
            if set_insert(&mut self.impure, dependent) {
                self.worklist.push(dependent);
                proof {
                    let missing = before.targets@.difference(before.impure@);
                    assert(self.targets@.difference(self.impure@) =~= missing.remove(dependent));
                    assert(missing.contains(dependent));
                    assert(self.worklist@.len() == before.worklist@.len() + 1);
                }
            } else {
                assert(self.impure@ =~= before.impure@);
            }
            i += 1;
        }
    }

    /// Follow the edges from what is impure.
    fn propagate(&mut self, Ghost(program): Ghost<Program>)
        requires
            old(self).is_sound(program),
        ensures
            old(self).impure@.subset_of(final(self).impure@),
            final(self).edges == old(self).edges,
            forall|fact: Fact| #[trigger]
                final(self).impure@.contains(fact) ==> program.impure(fact),
            forall|from: Fact, fact: Fact| #[trigger]
                final(self).has_edge(from, fact) && final(self).impure@.contains(from)
                    ==> final(self).impure@.contains(fact),
    {
        broadcast use vstd::seq_lib::group_seq_properties;

        while self.worklist.len() > 0
            invariant
                old(self).impure@.subset_of(self.impure@),
                self.edges == old(self).edges,
                self.targets@.finite(),
                forall|fact: Fact| #[trigger]
                    self.impure@.contains(fact) ==> program.impure(fact),
                forall|i: int|
                    0 <= i < self.worklist@.len() ==> program.impure(#[trigger] self.worklist@[i]),
                forall|from: Fact, fact: Fact| #[trigger]
                    self.has_edge(from, fact) ==> program.flows(from, fact)
                        && self.targets@.contains(fact),
                self.is_closed(),
            decreases self.work(),
        {
            let ghost before = *self;
            match self.worklist.pop() {
                None => {},
                Some(fact) => {
                    let ghost popped = *self;
                    assert(before.worklist@ =~= popped.worklist@.push(fact));
                    assert forall|a: Fact, b: Fact| #[trigger]
                        popped.has_edge(a, b) == before.has_edge(a, b) by {
                    }
                    proof {
                        assert(program.impure(before.worklist@[before.worklist@.len() - 1]));
                        assert forall|other: Fact| #[trigger]
                            before.worklist@.contains(other) && other
                                != fact implies popped.worklist@.contains(other) by {
                        }
                    }
                    let dependents: Vec<Fact> = match map_get(&self.edges, fact) {
                        Some(dependents) => copy_facts(dependents),
                        None => Vec::new(),
                    };
                    if dependents.len() > 0 {
                        self.add_dependents(Ghost(program), fact, &dependents);
                    }
                    proof {
                        assert forall|a: Fact, b: Fact| #[trigger]
                            self.has_edge(a, b) == before.has_edge(a, b) by {
                        }
                        assert forall|i: int| 0 <= i < self.worklist@.len() implies program.impure(
                            #[trigger] self.worklist@[i],
                        ) by {
                            let other = self.worklist@[i];
                            assert(self.worklist@.contains(other));
                            if popped.worklist@.contains(other) {
                                let j = choose|j: int|
                                    0 <= j < popped.worklist@.len() && popped.worklist@[j] == other;
                                assert(program.impure(before.worklist@[j]));
                            }
                        }
                        assert forall|a: Fact, b: Fact| #[trigger]
                            self.has_edge(a, b) && self.impure@.contains(a)
                                && !self.worklist@.contains(a) implies self.impure@.contains(b) by {
                            if a == fact {
                                assert(dependents@.contains(b));
                            } else {
                                assert(before.has_edge(a, b));
                            }
                        }
                    }
                },
            }
        }
    }
}

impl Program {
    /// A set that holds what is impure at once and is closed under passing on holds all that is
    /// impure.
    proof fn impure_is_least(self, fact: Fact, steps: nat, facts: Set<Fact>)
        requires
            self.impure_in(fact, steps),
            forall|fact: Fact| #[trigger] self.impure_at_once(fact) ==> facts.contains(fact),
            forall|from: Fact, fact: Fact| #[trigger]
                self.flows(from, fact) && facts.contains(from) ==> facts.contains(fact),
        ensures
            facts.contains(fact),
        decreases steps,
    {
        if !self.impure_at_once(fact) {
            let from = choose|from: Fact| #[trigger]
                self.flows(from, fact) && self.impure_in(from, (steps - 1) as nat);
            self.impure_is_least(from, (steps - 1) as nat, facts);
        }
    }
}

impl Mir {
    /// The definitions whose value is used other than by calling them.
    fn find_escaping(&self) -> (escaping: FxHashSet<DefinitionId>)
        ensures
            forall|id: DefinitionId| #[trigger] escaping@.contains(id) == self@.escaping(id),
    {
        let mut escaping: FxHashSet<DefinitionId> = FxHashSet::default();
        let keys = map_keys(&self.definitions);
        let mut i: usize = 0;
        while i < keys.len()
            invariant
                i <= keys.len(),
                keys@.to_set() == self.definitions@.dom(),
                forall|id: DefinitionId| #[trigger]
                    escaping@.contains(id) ==> self@.escaping(id),
                forall|j: int, id: DefinitionId|
                    0 <= j < i && #[trigger] self@.definitions[keys@[j]].escapes(
                        Value::Definition(id),
                    ) ==> escaping@.contains(id),
            decreases keys.len() - i,
        {
            let key = keys[i];
            assert(keys@.to_set().contains(key));
            match map_get(&self.definitions, key) {
                Some(def) => {
                    assert(self@.definitions[key] == def@);
                    let ghost before = escaping@;
                    scan_escapes(def, &mut escaping);
                    assert forall|id: DefinitionId| #[trigger]
                        escaping@.contains(id) implies self@.escaping(id) by {
                        if !before.contains(id) {
                            assert(self@.definitions.contains_key(key)
                                && self@.definitions[key].escapes(Value::Definition(id)));
                        }
                    }
                },
                None => {},
            }
            i += 1;
        }
        assert forall|id: DefinitionId| self@.escaping(id) implies #[trigger] escaping@.contains(
            id,
        ) by {
            let key = choose|key: DefinitionId|
                self@.definitions.contains_key(key) && (
                #[trigger] self@.definitions[key]).escapes(Value::Definition(id));
            assert(keys@.to_set().contains(key));
            let j = choose|j: int| 0 <= j < keys@.len() && keys@[j] == key;
            assert(self@.definitions[keys@[j]].escapes(Value::Definition(id)));
        }
        escaping
    }

    /// The parameters something impure may be passed for.
    fn find_impure(&self) -> (impure: FxHashSet<Fact>)
        ensures
            forall|fact: Fact| #[trigger] impure@.contains(fact) == self@.impure(fact),
    {
        let escaping = self.find_escaping();
        let mut purity = Purity::new();
        let keys = map_keys(&self.definitions);
        let mut i: usize = 0;
        while i < keys.len()
            invariant
                i <= keys.len(),
                keys@.to_set() == self.definitions@.dom(),
                forall|id: DefinitionId| #[trigger] escaping@.contains(id) == self@.escaping(id),
                purity.is_sound(self@),
                forall|j: int|
                    0 <= j < i ==> purity.covers_definition(self@, #[trigger] keys@[j]),
            decreases keys.len() - i,
        {
            let key = keys[i];
            assert(keys@.to_set().contains(key));
            match map_get(&self.definitions, key) {
                Some(def) => {
                    let ghost before = purity;
                    purity.add_definition(Ghost(self@), Ghost(key), def, &escaping);
                    assert forall|j: int| 0 <= j < i + 1 implies purity.covers_definition(
                        self@,
                        #[trigger] keys@[j],
                    ) by {
                        if j < i {
                            purity.extended_covers_definition(before, self@, keys@[j]);
                        }
                    }
                },
                None => {},
            }
            i += 1;
        }
        let ghost seeded = purity;
        purity.propagate(Ghost(self@));
        proof {
            let program = self@;
            let facts = purity.impure@;
            assert forall|key: DefinitionId| #[trigger]
                program.definitions.contains_key(key) implies seeded.covers_definition(
                program,
                key,
            ) by {
                assert(keys@.to_set().contains(key));
                let j = choose|j: int| 0 <= j < keys@.len() && keys@[j] == key;
                assert(seeded.covers_definition(program, keys@[j]));
            }
            assert forall|from: Fact, fact: Fact| #[trigger]
                seeded.has_edge(from, fact) == purity.has_edge(from, fact) by {
            }
            assert forall|fact: Fact| #[trigger] program.impure_at_once(
                fact,
            ) implies facts.contains(fact) by {
                if exists|key: DefinitionId| #[trigger] program.parameter_escapes(key, fact) {
                    let key = choose|key: DefinitionId| #[trigger]
                        program.parameter_escapes(key, fact);
                    assert(seeded.covers_definition(program, key));
                } else {
                    let (key, call, position, argument) = choose|
                        key: DefinitionId,
                        call: int,
                        position: int,
                        argument: Value,
                    | #[trigger]
                        program.passes_impure(key, call, position, argument, fact);
                    assert(seeded.covers_definition(program, key));
                    assert(seeded.covers_call(program, key, call));
                    assert(seeded.covers(program, key, call, position));
                }
            }
            assert forall|from: Fact, fact: Fact| #[trigger]
                program.flows(from, fact) && facts.contains(from) implies facts.contains(fact) by {
                let (key, call, position, argument) = choose|
                    key: DefinitionId,
                    call: int,
                    position: int,
                    argument: Value,
                | #[trigger]
                    program.passes_parameter(key, call, position, argument, from, fact);
                assert(seeded.covers_definition(program, key));
                assert(seeded.covers_call(program, key, call));
                assert(seeded.covers(program, key, call, position));
                assert(seeded.has_edge(from, fact));
                assert(purity.has_edge(from, fact));
            }
            assert forall|fact: Fact| program.impure(fact) implies #[trigger] facts.contains(
                fact,
            ) by {
                let steps = choose|steps: nat| #[trigger] program.impure_in(fact, steps);
                program.impure_is_least(fact, steps, facts);
            }
        }
        purity.impure
    }
}

/// The instructions that are in a block.
fn find_live(def: &Definition) -> (live: FxHashSet<InstructionId>)
    ensures
        forall|id: InstructionId| #[trigger] live@.contains(id) == def@.is_live(id),
{
    let mut live: FxHashSet<InstructionId> = FxHashSet::default();
    let mut i: usize = 0;
    while i < def.blocks.len()
        invariant
            i <= def.blocks.len(),
            forall|id: InstructionId| #[trigger] live@.contains(id) ==> def@.is_live(id),
            forall|b: int, id: InstructionId|
                b < i && #[trigger] def@.block_has(b, id) ==> live@.contains(id),
        decreases def.blocks.len() - i,
    {
        let instructions = &def.blocks[i].instructions;
        assert(def@.blocks[i as int].instructions == instructions@);
        let ghost before = live@;
        let mut j: usize = 0;
        while j < instructions.len()
            invariant
                i < def.blocks.len(),
                j <= instructions.len(),
                def@.blocks[i as int].instructions == instructions@,
                before.subset_of(live@),
                forall|id: InstructionId| #[trigger] live@.contains(id) ==> def@.is_live(id),
                forall|k: int| 0 <= k < j ==> live@.contains(#[trigger] instructions@[k]),
            decreases instructions.len() - j,
        {
            let id = instructions[j];
            assert(def@.block_has(i as int, id));
            set_insert(&mut live, id);
            j += 1;
        }
        i += 1;
    }
    live
}

/// Whether every implicit argument of the call of `pair` is pure.
fn implicit_args_are_pure(
    def: &Definition,
    Ghost(program): Ghost<Program>,
    impure: &FxHashSet<Fact>,
    pair: &BorrowPair,
    arguments: &Vec<Value>,
) -> (pure: bool)
    requires
        forall|fact: Fact| #[trigger] impure@.contains(fact) == program.impure(fact),
    ensures
        pure == (forall|i: int|
            0 <= i < pair@.implicit_args.len() ==> (#[trigger] pair@.implicit_args[i])
                < arguments@.len() && def@.is_pure(
                program,
                arguments@[pair@.implicit_args[i] as int],
            )),
{
    let mut i: usize = 0;
    while i < pair.implicit_args.len()
        invariant
            i <= pair.implicit_args.len(),
            forall|fact: Fact| #[trigger] impure@.contains(fact) == program.impure(fact),
            forall|j: int|
                0 <= j < i ==> (#[trigger] pair@.implicit_args[j]) < arguments@.len()
                    && def@.is_pure(program, arguments@[pair@.implicit_args[j] as int]),
        decreases pair.implicit_args.len() - i,
    {
        let position: usize = pair.implicit_args[i] as usize;
        assert(pair@.implicit_args[i as int] == position);
        if position >= arguments.len() {
            return false;
        }
        let pure = match classify_arg(def, &arguments[position]) {
            ArgClass::Pure => true,
            ArgClass::Param(index) => !set_contains(impure, (def.id, index)),
            ArgClass::Impure => false,
        };
        if !pure {
            return false;
        }
        i += 1;
    }
    true
}

/// The halves of the pairs of `def` that can go.
fn find_removals(
    def: &Definition,
    Ghost(program): Ghost<Program>,
    impure: &FxHashSet<Fact>,
) -> (removals: FxHashSet<InstructionId>)
    requires
        forall|fact: Fact| #[trigger] impure@.contains(fact) == program.impure(fact),
    ensures
        forall|id: InstructionId| #[trigger] removals@.contains(id) == def@.goes(program, id),
{
    let live = find_live(def);
    let mut removals: FxHashSet<InstructionId> = FxHashSet::default();
    let mut i: usize = 0;
    while i < def.borrow_pairs.len()
        invariant
            i <= def.borrow_pairs.len(),
            forall|fact: Fact| #[trigger] impure@.contains(fact) == program.impure(fact),
            forall|id: InstructionId| #[trigger] live@.contains(id) == def@.is_live(id),
            forall|id: InstructionId| #[trigger]
                removals@.contains(id) ==> def@.goes(program, id),
            forall|j: int, id: InstructionId|
                j < i && #[trigger] def@.goes_with(program, j, id) ==> removals@.contains(id),
        decreases def.borrow_pairs.len() - i,
    {
        let pair = &def.borrow_pairs[i];
        assert(def@.borrow_pairs[i as int] == pair@);
        // A pair whose instructions were rewritten away is stale.
        let mut goes = false;
        if set_contains(&live, pair.retain) && set_contains(&live, pair.release_call)
            && set_contains(&live, pair.call) && (pair.call as usize) < def.instructions.len() {
            match &def.instructions[pair.call as usize] {
                Instruction::Call { arguments, .. } => {
                    goes = implicit_args_are_pure(def, Ghost(program), impure, pair, arguments);
                },
                _ => {},
            }
        }
        assert(goes == def@.can_elide(program, pair@));
        if goes {
            assert(def@.goes_with(program, i as int, pair.retain));
            assert(def@.goes_with(program, i as int, pair.release_call));
            set_insert(&mut removals, pair.retain);
            set_insert(&mut removals, pair.release_call);
        }
        i += 1;
    }
    removals
}

/// The instructions of `instructions` that are not in `removals`.
fn without(
    instructions: &Vec<InstructionId>,
    Ghost(keep): Ghost<spec_fn(InstructionId) -> bool>,
    removals: &FxHashSet<InstructionId>,
) -> (kept: Vec<InstructionId>)
    requires
        forall|id: InstructionId| #[trigger] removals@.contains(id) == !keep(id),
    ensures
        kept@ == instructions@.filter(keep),
{
    let mut kept: Vec<InstructionId> = Vec::new();
    let mut i: usize = 0;
    proof {
        assert(instructions@.take(0) =~= Seq::<InstructionId>::empty());
        reveal(Seq::filter);
    }
    while i < instructions.len()
        invariant
            i <= instructions.len(),
            forall|id: InstructionId| #[trigger] removals@.contains(id) == !keep(id),
            kept@ == instructions@.take(i as int).filter(keep),
        decreases instructions.len() - i,
    {
        if !set_contains(removals, instructions[i]) {
            kept.push(instructions[i]);
        }
        proof {
            assert(instructions@.take(i + 1).drop_last() =~= instructions@.take(i as int));
            reveal(Seq::filter);
        }
        i += 1;
    }
    assert(instructions@.take(i as int) =~= instructions@);
    kept
}

/// Keeping everything keeps the sequence.
proof fn filter_all(instructions: Seq<InstructionId>, keep: spec_fn(InstructionId) -> bool)
    requires
        forall|id: InstructionId| #[trigger] keep(id),
    ensures
        instructions.filter(keep) == instructions,
    decreases instructions.len(),
{
    reveal(Seq::filter);
    if instructions.len() > 0 {
        filter_all(instructions.drop_last(), keep);
        assert(instructions.drop_last().push(instructions.last()) =~= instructions);
    }
}

impl DefinitionState {
    /// A definition without borrow pairs stays as it is.
    pub proof fn law_nothing_recorded(self, program: Program)
        requires
            self.borrow_pairs.len() == 0,
        ensures
            self.elided(program) == self,
    {
        assert forall|id: InstructionId| !#[trigger] self.goes(program, id) by {
        }
        let keep = |id: InstructionId| !self.goes(program, id);
        assert forall|i: int| 0 <= i < self.blocks.len() implies self.elided(program).blocks[i]
            == self.blocks[i] by {
            filter_all(self.blocks[i].instructions, keep);
        }
        assert(self.elided(program) =~= self);
    }
}

/// Remove the pairs of `def` that can go.
fn elide_pairs_of(def: &mut Definition, Ghost(program): Ghost<Program>, impure: &FxHashSet<Fact>)
    requires
        forall|fact: Fact| #[trigger] impure@.contains(fact) == program.impure(fact),
    ensures
        final(def)@ == old(def)@.elided(program),
{
    if def.borrow_pairs.len() == 0 {
        proof {
            def@.law_nothing_recorded(program);
        }
        return ;
    }
    let removals = find_removals(def, Ghost(program), impure);
    let ghost before = def@;
    let ghost keep = |id: InstructionId| !before.goes(program, id);
    let mut i: usize = 0;
    while i < def.blocks.len()
        invariant
            i <= def.blocks.len(),
            keep == (|id: InstructionId| !before.goes(program, id)),
            before == old(def)@,
            forall|id: InstructionId| #[trigger] removals@.contains(id) == before.goes(program, id),
            def@ == (DefinitionState { blocks: def@.blocks, ..before }),
            def@.blocks.len() == before.blocks.len(),
            forall|j: int|
                0 <= j < i ==> #[trigger] def@.blocks[j] == before.elided(program).blocks[j],
            forall|j: int| i <= j < def.blocks.len() ==> #[trigger] def@.blocks[j] == before.blocks[j],
        decreases def.blocks.len() - i,
    {
        let ghost start = def@;
        assert(def@.blocks[i as int] == before.blocks[i as int]);
        let kept = without(&def.blocks[i].instructions, Ghost(keep), &removals);
        def.blocks[i].instructions = kept;
        assert(def@.blocks[i as int] =~= before.elided(program).blocks[i as int]);
        assert forall|j: int| 0 <= j < def@.blocks.len() && j != i implies #[trigger] def@.blocks[j]
            == start.blocks[j] by {
        }
        i += 1;
    }
    def.borrow_pairs = Vec::new();
    assert(def@ =~= before.elided(program));
}

impl Mir {
    /// Whether no borrow pair is recorded.
    fn has_no_pairs(&self) -> (none: bool)
        ensures
            none ==> self@.elided() == self@,
    {
        let keys = map_keys(&self.definitions);
        let mut i: usize = 0;
        while i < keys.len()
            invariant
                i <= keys.len(),
                keys@.to_set() == self.definitions@.dom(),
                forall|j: int|
                    0 <= j < i ==> (#[trigger] self.definitions@[keys@[j]]).borrow_pairs@.len() == 0,
            decreases keys.len() - i,
        {
            assert(keys@.to_set().contains(keys@[i as int]));
            match map_get(&self.definitions, keys[i]) {
                Some(def) => {
                    if def.borrow_pairs.len() > 0 {
                        return false;
                    }
                },
                None => {},
            }
            i += 1;
        }
        proof {
            let program = self@;
            assert forall|key: DefinitionId| #[trigger]
                program.definitions.contains_key(key) implies program.definitions[key].elided(
                program,
            ) == program.definitions[key] by {
                assert(keys@.to_set().contains(key));
                let j = choose|j: int| 0 <= j < keys@.len() && keys@[j] == key;
                assert(self.definitions@[keys@[j]].borrow_pairs@.len() == 0);
                program.definitions[key].law_nothing_recorded(program);
            }
            assert(program.elided().definitions =~= program.definitions);
        }
        true
    }

    /// Remove the borrow pairs whose calls turned out to be pure.
    pub fn elide_pure_borrow_pairs(self) -> (mir: Mir)
        ensures
            mir@ == self@.elided(),
    {
        if self.has_no_pairs() {
            return self;
        }
        let ghost program = self@;
        let impure = self.find_impure();
        let mut mir = self;
        let keys = map_keys(&mir.definitions);
        let mut i: usize = 0;
        while i < keys.len()
            invariant
                i <= keys.len(),
                keys@.no_duplicates(),
                keys@.to_set() == program.definitions.dom(),
                forall|fact: Fact| #[trigger] impure@.contains(fact) == program.impure(fact),
                mir@ == (Program { definitions: mir@.definitions, ..program }),
                mir@.definitions.dom() == program.definitions.dom(),
                forall|j: int|
                    0 <= j < i ==> #[trigger] mir@.definitions[keys@[j]]
                        == program.definitions[keys@[j]].elided(program),
                forall|j: int|
                    i <= j < keys.len() ==> #[trigger] mir@.definitions[keys@[j]]
                        == program.definitions[keys@[j]],
            decreases keys.len() - i,
        {
            let key = keys[i];
            let ghost before = mir@.definitions;
            assert(keys@.to_set().contains(key));
            assert(mir@.definitions.contains_key(key));
            assert(mir@.definitions[keys@[i as int]] == program.definitions[key]);
            match map_remove(&mut mir.definitions, key) {
                Some(mut def) => {
                    elide_pairs_of(&mut def, Ghost(program), &impure);
                    map_insert(&mut mir.definitions, key, def);
                },
                None => {},
            }
            assert(mir@.definitions =~= before.insert(
                key,
                program.definitions[key].elided(program),
            ));
            assert(mir@.definitions.dom() =~= program.definitions.dom());
            assert forall|j: int|
                i + 1 <= j < keys.len() implies #[trigger] mir@.definitions[keys@[j]]
                == program.definitions[keys@[j]] by {
                assert(keys@[j] != keys@[i as int]);
            }
            assert forall|j: int| 0 <= j < i + 1 implies #[trigger] mir@.definitions[keys@[j]]
                == program.definitions[keys@[j]].elided(program) by {
                if j < i {
                    assert(keys@[j] != keys@[i as int]);
                }
            }
            i += 1;
        }
        assert forall|key: DefinitionId| #[trigger]
            mir@.definitions.contains_key(key) implies mir@.definitions[key]
            == program.definitions[key].elided(program) by {
            assert(keys@.to_set().contains(key));
            let j = choose|j: int| 0 <= j < keys@.len() && keys@[j] == key;
            assert(mir@.definitions[keys@[j]] == program.definitions[keys@[j]].elided(program));
        }
        assert(mir@.definitions =~= program.elided().definitions);
        mir
    }
}

impl DefinitionState {
    /// What `value` refers to behind `count` `Id`s.
    spec fn behind(self, value: Value, count: nat) -> Option<Value>
        decreases count,
    {
        if count == 0 {
            Some(value)
        } else {
            match self.behind(value, (count - 1) as nat) {
                Some(Value::InstructionResult(id)) => if id < self.instructions.len() {
                    match self.instructions[id as int] {
                        Operation::Id(inner) => Some(inner),
                        _ => None,
                    }
                } else {
                    None
                },
                _ => None,
            }
        }
    }

    proof fn behind_adds_up(self, value: Value, count: nat, more: nat)
        requires
            self.behind(value, count) is Some,
        ensures
            self.behind(value, count + more) == self.behind(self.behind(value, count).unwrap(), more),
        decreases more,
    {
        if more > 0 {
            self.behind_adds_up(value, count, (more - 1) as nat);
        }
    }

    proof fn behind_is_defined(self, value: Value, count: nat, less: nat)
        requires
            self.behind(value, count) is Some,
            less <= count,
        ensures
            self.behind(value, less) is Some,
        decreases count,
    {
        if less < count {
            self.behind_is_defined(value, (count - 1) as nat, less);
        }
    }

    proof fn resolved_is_behind(self, value: Value, steps: nat) -> (count: nat)
        requires
            self.resolved(value, steps) is Some,
        ensures
            self.behind(value, count) == Some(
                Value::Definition(self.resolved(value, steps).unwrap()),
            ),
        decreases steps,
    {
        match value {
            Value::InstructionResult(id) => {
                let inner = self.instructions[id as int]->Id_0;
                let count = self.resolved_is_behind(inner, (steps - 1) as nat);
                assert(self.behind(value, 0) == Some(value));
                assert(self.behind(value, 1) == Some(inner));
                self.behind_adds_up(value, 1, count);
                count + 1
            },
            _ => 0,
        }
    }

    proof fn behind_is_resolved(self, value: Value, count: nat, id: DefinitionId, steps: nat)
        requires
            self.behind(value, count) == Some(Value::Definition(id)),
            count <= steps,
        ensures
            self.resolved(value, steps) == Some(id),
        decreases count,
    {
        if count > 0 {
            self.behind_is_defined(value, count, 1);
            assert(self.behind(value, 0) == Some(value));
            let inner = self.behind(value, 1).unwrap();
            self.behind_adds_up(value, 1, (count - 1) as nat);
            self.behind_is_resolved(inner, (count - 1) as nat, id, (steps - 1) as nat);
        }
    }

    /// The first count of `Id`s behind which `value` refers to `id`, no more than `count`.
    spec fn first_behind(self, value: Value, id: DefinitionId, count: nat) -> nat
        decreases count,
    {
        if count > 0 && exists|less: nat|
            less < count && #[trigger] self.behind(value, less) == Some(Value::Definition(id)) {
            let less = choose|less: nat|
                less < count && #[trigger] self.behind(value, less) == Some(Value::Definition(id));
            self.first_behind(value, id, less)
        } else {
            count
        }
    }

    proof fn first_behind_is_first(self, value: Value, id: DefinitionId, count: nat)
        requires
            self.behind(value, count) == Some(Value::Definition(id)),
        ensures
            self.behind(value, self.first_behind(value, id, count)) == Some(Value::Definition(id)),
            forall|less: nat|
                less < self.first_behind(value, id, count) ==> #[trigger] self.behind(value, less)
                    != Some(Value::Definition(id)),
        decreases count,
    {
        if count > 0 && exists|less: nat|
            less < count && #[trigger] self.behind(value, less) == Some(Value::Definition(id)) {
            let less = choose|less: nat|
                less < count && #[trigger] self.behind(value, less) == Some(Value::Definition(id));
            self.first_behind_is_first(value, id, less);
        }
    }

    /// However long a chain of `Id`s is, a value that comes to a definition at its end resolves to
    /// that definition.
    pub proof fn law_every_chain_resolves(self, value: Value, steps: nat)
        requires
            self.resolved(value, steps) is Some,
        ensures
            self.target(value) == self.resolved(value, steps),
    {
        let id = self.resolved(value, steps).unwrap();
        let found = self.resolved_is_behind(value, steps);
        self.first_behind_is_first(value, id, found);
        let first = self.first_behind(value, id, found);
        let limit = self.instructions.len();
        if first > limit {
            let ids = Seq::new(
                first,
                |i: int|
                    match self.behind(value, i as nat) {
                        Some(Value::InstructionResult(id)) => id as int,
                        _ => -1,
                    },
            );
            assert forall|i: int| 0 <= i < first implies 0 <= #[trigger] ids[i] < limit
                && self.behind(value, i as nat) == Some(Value::InstructionResult(ids[i] as u32)) by {
                self.behind_is_defined(value, first, (i + 1) as nat);
                assert(self.behind(value, (i + 1) as nat) is Some);
            }
            assert forall|i: int, j: int| 0 <= i < j < first implies ids[i] != ids[j] by {
                if ids[i] == ids[j] {
                    let rest = (first - j) as nat;
                    self.behind_adds_up(value, i as nat, rest);
                    self.behind_adds_up(value, j as nat, rest);
                    assert((j as nat) + rest == first);
                    assert(self.behind(value, (i + rest) as nat) == Some(Value::Definition(id)));
                }
            }
            assert(ids.no_duplicates());
            ids.unique_seq_to_set();
            vstd::set_lib::lemma_int_range(0, limit as int);
            assert(ids.to_set().subset_of(vstd::set_lib::set_int_range(0, limit as int)));
            vstd::set_lib::lemma_len_subset(
                ids.to_set(),
                vstd::set_lib::set_int_range(0, limit as int),
            );
        }
        self.behind_is_resolved(value, first, id, limit);
    }

    /// What elision takes out of a block are halves of recorded pairs that can go: the retain and
    /// the release of a pair go together. The rest stays in order, and nothing else changes.
    pub proof fn law_only_pairs_go(self, program: Program, block: int, id: InstructionId)
        requires
            0 <= block < self.blocks.len(),
            self.blocks[block].instructions.contains(id),
        ensures
            self.elided(program).blocks[block].instructions.contains(id) == !self.goes(program, id),
            forall|index: int|
                0 <= index < self.borrow_pairs.len() && #[trigger] self.can_elide(
                    program,
                    self.borrow_pairs[index],
                ) ==> self.goes(program, self.borrow_pairs[index].retain) && self.goes(
                    program,
                    self.borrow_pairs[index].release_call,
                ),
    {
        let keep = |id: InstructionId| !self.goes(program, id);
        let instructions = self.blocks[block].instructions;
        filter_members(instructions, keep, id);
        assert forall|index: int|
            0 <= index < self.borrow_pairs.len() && #[trigger] self.can_elide(
                program,
                self.borrow_pairs[index],
            ) implies self.goes(program, self.borrow_pairs[index].retain) && self.goes(
            program,
            self.borrow_pairs[index].release_call,
        ) by {
            assert(self.goes_with(program, index, self.borrow_pairs[index].retain));
            assert(self.goes_with(program, index, self.borrow_pairs[index].release_call));
        }
    }
}

proof fn filter_members(
    instructions: Seq<InstructionId>,
    keep: spec_fn(InstructionId) -> bool,
    id: InstructionId,
)
    ensures
        instructions.filter(keep).contains(id) == (instructions.contains(id) && keep(id)),
    decreases instructions.len(),
{
    broadcast use vstd::seq_lib::group_seq_properties;

    reveal(Seq::filter);
    if instructions.len() > 0 {
        filter_members(instructions.drop_last(), keep, id);
        assert(instructions.drop_last().push(instructions.last()) =~= instructions);
    }
}

impl Program {
    /// Nothing is left to elide behind elision.
    pub proof fn law_elision_is_idempotent(self)
        ensures
            self.elided().elided() == self.elided(),
    {
        let once = self.elided();
        assert forall|key: DefinitionId| #[trigger]
            once.definitions.contains_key(key) implies once.definitions[key].elided(once)
            == once.definitions[key] by {
            once.definitions[key].law_nothing_recorded(once);
        }
        assert(once.elided().definitions =~= once.definitions);
    }

    /// The impure parameters are the least set that holds every parameter impure on its own
    /// account, and with a parameter every one it is passed for.
    pub proof fn law_impure_is_least_fixpoint(self, facts: Set<Fact>)
        requires
            forall|fact: Fact| #[trigger] self.impure_at_once(fact) ==> facts.contains(fact),
            forall|from: Fact, fact: Fact| #[trigger]
                self.flows(from, fact) && facts.contains(from) ==> facts.contains(fact),
        ensures
            forall|fact: Fact| #[trigger] self.impure_at_once(fact) ==> self.impure(fact),
            forall|from: Fact, fact: Fact| #[trigger]
                self.flows(from, fact) && self.impure(from) ==> self.impure(fact),
            forall|fact: Fact| #[trigger] self.impure(fact) ==> facts.contains(fact),
    {
        assert forall|fact: Fact| #[trigger] self.impure_at_once(fact) implies self.impure(fact) by {
            assert(self.impure_in(fact, 0));
        }
        assert forall|from: Fact, fact: Fact| #[trigger]
            self.flows(from, fact) && self.impure(from) implies self.impure(fact) by {
            let steps = choose|steps: nat| #[trigger] self.impure_in(from, steps);
            assert(self.impure_in(from, ((steps + 1) - 1) as nat));
            assert(self.impure_in(fact, steps + 1));
        }
        assert forall|fact: Fact| #[trigger] self.impure(fact) implies facts.contains(fact) by {
            let steps = choose|steps: nat| #[trigger] self.impure_in(fact, steps);
            self.impure_is_least(fact, steps, facts);
        }
    }
}

} // verus!

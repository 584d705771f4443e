//! What lowering keeps, whatever is lowered.

pub mod adapters;
pub mod bodies;
pub mod calls;
pub mod capabilities;
pub mod closures;
pub mod control;
pub mod counting;
pub mod data;
pub mod dispatch;
pub mod entries;
pub mod globals;
pub mod patterns;
pub mod shapes;

#[allow(unused_imports)]
use crate::cst::{
    Argument, Assignment, Definition, ExprForm, HandleForm, Literal, Parameter, PatternForm,
};
#[allow(unused_imports)]
use crate::database::{AbilityKind, TypeBody, TypeDefinition, TypeDefinitionBody};
#[allow(unused_imports)]
use crate::ids::{
    BlockId, DefinitionId, ExprId, InstructionId, NameId, Origin, PathId, PatternId, TopLevelId,
    TopLevelName, NESTING_LIMIT, RELEASE_FUNCTION,
};
#[allow(unused_imports)]
use crate::mir::builder::calls::{
    borrows, explicit_count, implicit_places, instruction_id, Pending,
};
#[allow(unused_imports)]
use crate::mir::builder::counted::{release_signature, types_of_fields, Edges};
#[allow(unused_imports)]
use crate::mir::builder::expressions::{recursion, Lower};
#[allow(unused_imports)]
use crate::mir::builder::items::{
    generic_types, method_parameters, named_generics, own_type, returned_or_self, taken, Item,
};
#[allow(unused_imports)]
use crate::mir::builder::lambdas::{names_or_none, Captured, LambdaRole, LambdaShape};
#[allow(unused_imports)]
use crate::mir::builder::ids::IdState;
#[allow(unused_imports)]
use crate::mir::builder::state::{
    Answers, Case, Constructor, DecisionTree, Lowering, TCType,
};
#[allow(unused_imports)]
use crate::mir::{
    BlockState, DefinitionState, FunctionType, IntConstant, Operation, Pair, PrimitiveType, Program,
    Terminator, Type, Value,
};
#[allow(unused_imports)]
use crate::types::IntegerKind;
use vstd::prelude::*;

verus! {

/// `after` is `before` with more in it. A block that ended stays as it ended.
pub open spec fn block_grew(before: BlockState, after: BlockState) -> bool {
    &&& before.parameter_types.is_prefix_of(after.parameter_types)
    &&& before.instructions.is_prefix_of(after.instructions)
    &&& before.terminator is Some ==> after.terminator == before.terminator && after.instructions
        == before.instructions
}

/// How many instructions of a definition have an id of their own.
pub const INSTRUCTION_LIMIT: u64 = 0x1_0000_0000;

/// `after` is the instruction `before`, or instantiates what `before` instantiates otherwise.
pub open spec fn step_kept(before: Operation, after: Operation) -> bool {
    after == before || (before is Instantiate && after is Instantiate)
}

/// What a call passes.
pub open spec fn passed(operation: Operation) -> Option<Seq<Value>> {
    match operation {
        Operation::Call { arguments, .. } => Some(arguments),
        Operation::CallClosure { arguments, .. } => Some(arguments),
        _ => None,
    }
}

/// Every position is one of `arguments`.
pub open spec fn all_within(positions: Seq<u32>, arguments: Seq<Value>) -> bool {
    forall|i: int| 0 <= i < positions.len() ==> #[trigger] positions[i] < arguments.len()
}

/// A handle is retained before a call that takes arguments at the given positions.
pub open spec fn retained_before(
    definition: DefinitionState,
    handle: Value,
    retain: InstructionId,
    call: InstructionId,
    positions: Seq<u32>,
) -> bool {
    &&& retain < call < definition.instructions.len()
    &&& definition.instructions[retain as int] == Operation::RcRetain(handle)
    &&& passed(definition.instructions[call as int]) matches Some(arguments)
    &&& all_within(positions, arguments)
}

/// A pair is a retain, a call behind it, and behind that a release of the handle that was retained.
/// Its positions are those of arguments of the call.
pub open spec fn pair_holds(definition: DefinitionState, pair: Pair) -> bool {
    &&& pair.call < pair.release_call < definition.instructions.len()
    &&& definition.instructions[pair.release_call as int] matches Operation::Call { arguments, .. }
    &&& arguments.len() == 1
    &&& retained_before(
        definition,
        arguments[0],
        pair.retain,
        pair.call,
        pair.implicit_args,
    )
}

/// Every pair of the definition holds, as long as its instructions have ids of their own.
#[verifier::opaque]
pub open spec fn is_sound(definition: DefinitionState) -> bool {
    definition.instructions.len() <= INSTRUCTION_LIMIT ==> forall|i: int|
        0 <= i < definition.borrow_pairs.len() ==> pair_holds(
            definition,
            #[trigger] definition.borrow_pairs[i],
        )
}

pub open spec fn all_sound(definitions: Map<DefinitionId, DefinitionState>) -> bool {
    forall|id: DefinitionId| #[trigger]
        definitions.contains_key(id) ==> is_sound(definitions[id])
}

/// How many blocks of a definition have an id of their own.
pub const BLOCK_LIMIT: u64 = 0x1_0000_0000;

/// Every block of the definition ends, as long as its blocks have ids of their own.
#[verifier::opaque]
pub open spec fn ends(definition: DefinitionState) -> bool {
    definition.blocks.len() <= BLOCK_LIMIT ==> forall|i: int|
        0 <= i < definition.blocks.len() ==> (#[trigger] definition.blocks[i]).terminator is Some
}

pub open spec fn all_end(definitions: Map<DefinitionId, DefinitionState>) -> bool {
    forall|id: DefinitionId| #[trigger] definitions.contains_key(id) ==> ends(definitions[id])
}

/// `after` is the definition `before` with more in it.
pub open spec fn definition_grew(before: DefinitionState, after: DefinitionState) -> bool {
    &&& after.id == before.id
    &&& after.name == before.name
    &&& after.typ == before.typ
    &&& after.generic_count == before.generic_count
    &&& before.instructions.len() <= after.instructions.len()
    &&& forall|i: int|
        0 <= i < before.instructions.len() ==> step_kept(
            before.instructions[i],
            #[trigger] after.instructions[i],
        )
    &&& is_sound(before) ==> is_sound(after)
    &&& before.instruction_result_types.len() <= after.instruction_result_types.len()
    &&& before.blocks.len() <= after.blocks.len()
    &&& forall|i: int|
        0 <= i < before.blocks.len() ==> block_grew(
            #[trigger] before.blocks[i],
            after.blocks[i],
        )
}

/// What no lowering takes back: what was asked, that it failed, what is finished, and the ids of
/// names. What is in scope for the whole definition is as it was.
#[verifier::opaque]
pub open spec fn carried(before: Lowering, after: Lowering) -> bool {
    &&& after.answers == before.answers
    &&& after.top_level_id == before.top_level_id
    &&& after.generics == before.generics
    &&& after.loop_targets == before.loop_targets
    &&& before.failed ==> after.failed
    &&& all_sound(before.finished) ==> all_sound(after.finished)
    &&& before.all_ended() ==> after.all_ended()
    &&& before.finished.dom().subset_of(after.finished.dom())
    &&& forall|name: TopLevelName| #[trigger]
        before.ids.map.contains_key(name) ==> after.ids.map.contains_key(name)
            && after.ids.map[name] == before.ids.map[name]
}

/// `after` carries on what `before` holds, in the same definition, which has only grown.
#[verifier::opaque]
pub open spec fn kept(before: Lowering, after: Lowering) -> bool {
    &&& carried(before, after)
    &&& match (before.function, after.function) {
        (Some(before), Some(after)) => definition_grew(before, after),
        (None, None) => true,
        _ => false,
    }
}

/// The blocks `pending` of a definition are among those made since it was `before`, in `block`.
pub open spec fn are_new(
    before: DefinitionState,
    block: BlockId,
    after: DefinitionState,
    pending: Set<int>,
) -> bool {
    forall|i: int| #[trigger]
        pending.contains(i) ==> 0 <= i < after.blocks.len() && (i == block || before.blocks.len()
            <= i)
}

/// The block was open before, and another one was the current one.
pub open spec fn was_open(before: DefinitionState, block: BlockId, i: int) -> bool {
    i < before.blocks.len() && i != block && before.blocks[i].terminator is None
}

/// The blocks there were before, but for the current one, are as they were.
pub open spec fn others_stay(
    before: DefinitionState,
    block: BlockId,
    after: DefinitionState,
) -> bool {
    forall|i: int|
        0 <= i < before.blocks.len() && i != block ==> #[trigger] after.blocks[i]
            == before.blocks[i]
}

/// Since `before` no block was left open but the current one and those that are `pending`, and no
/// other block was touched.
#[verifier::opaque]
pub open spec fn left(before: Lowering, after: Lowering, pending: Set<int>) -> bool {
    match (before.function, after.function) {
        (Some(from), Some(to)) => {
            &&& from.blocks.len() <= to.blocks.len()
            &&& before.block < from.blocks.len() && to.blocks.len() <= BLOCK_LIMIT ==> {
                &&& after.block < to.blocks.len()
                &&& after.block == before.block || from.blocks.len() <= after.block
                &&& are_new(from, before.block, to, pending)
                &&& !pending.contains(after.block as int)
                &&& others_stay(from, before.block, to)
                &&& forall|i: int|
                    0 <= i < to.blocks.len() && (#[trigger] to.blocks[i]).terminator is None
                        ==> i == after.block || pending.contains(i) || was_open(
                        from,
                        before.block,
                        i,
                    )
            }
        },
        (None, None) => true,
        _ => false,
    }
}

/// Since `before` no block was left open but those that are `pending`, and no other block was
/// touched.
#[verifier::opaque]
pub open spec fn parted(before: Lowering, after: Lowering, pending: Set<int>) -> bool {
    match (before.function, after.function) {
        (Some(from), Some(to)) => {
            &&& from.blocks.len() <= to.blocks.len()
            &&& before.block < from.blocks.len() && to.blocks.len() <= BLOCK_LIMIT ==> {
                &&& after.block < to.blocks.len()
                &&& are_new(from, before.block, to, pending)
                &&& others_stay(from, before.block, to)
                &&& forall|i: int|
                    0 <= i < to.blocks.len() && (#[trigger] to.blocks[i]).terminator is None
                        ==> pending.contains(i) || was_open(from, before.block, i)
            }
        },
        (None, None) => true,
        _ => false,
    }
}

/// Since `before` no block was left open but the current one, and no other block was touched.
pub open spec fn settled(before: Lowering, after: Lowering) -> bool {
    left(before, after, Set::empty())
}

/// The blocks from `low` to before `high`.
pub open spec fn blocks_between(low: int, high: int) -> Set<int> {
    Set::new(|i: int| low <= i < high)
}

impl Lowering {
    /// How many blocks the current definition has.
    pub open spec fn block_count(self) -> int {
        match self.function {
            Some(function) => function.blocks.len() as int,
            None => 0,
        }
    }

    /// The blocks of the current definition have ids of their own.
    pub open spec fn is_numbered(self) -> bool {
        self.block_count() <= BLOCK_LIMIT
    }

    /// Every block of the current definition ends, unless lowering failed.
    pub open spec fn in_ended(self) -> bool {
        self.failed || match self.function {
            Some(function) => ends(function),
            None => true,
        }
    }

    /// Every block of a finished definition ends, unless lowering failed.
    pub open spec fn all_ended(self) -> bool {
        self.failed || all_end(self.finished)
    }

    /// No block of the current definition is open but the current one.
    #[verifier::opaque]
    pub open spec fn is_lone(self) -> bool {
        &&& self.function matches Some(function)
        &&& function.blocks.len() <= BLOCK_LIMIT ==> self.block < function.blocks.len() && forall|
            i: int,
        |
            0 <= i < function.blocks.len() && i != self.block ==> (
            #[trigger] function.blocks[i]).terminator is Some
    }

    /// The current definition is sound.
    pub open spec fn in_sound(self) -> bool {
        match self.function {
            Some(function) => is_sound(function),
            None => true,
        }
    }

    /// The instructions of the current definition have ids of their own.
    pub open spec fn is_limited(self) -> bool {
        match self.function {
            Some(function) => function.instructions.len() <= INSTRUCTION_LIMIT,
            None => true,
        }
    }

    /// What is pending was retained.
    pub open spec fn was_retained(self, pending: Pending) -> bool {
        self.is_limited() ==> match pending.2 {
            Some(retain) => self.operation_of(Value::InstructionResult(retain)) == Some(
                Operation::RcRetain(pending.0),
            ),
            None => true,
        }
    }

    /// What is pending was retained before the call, which takes arguments at the positions.
    pub open spec fn is_pending(
        self,
        pending: Pending,
        call: Option<InstructionId>,
        positions: Seq<u32>,
    ) -> bool {
        self.is_limited() ==> match (self.function, pending.2, call) {
            (Some(function), Some(retain), Some(call)) => retained_before(
                function,
                pending.0,
                retain,
                call,
                positions,
            ),
            _ => true,
        }
    }
}

/// Every expression that is lowered in this way keeps what there is.
pub open spec fn keeps(lower: Lower) -> bool {
    forall|s: Lowering, expr: ExprId|
        kept(s, (#[trigger] lower(s, expr)).1) && settled(s, lower(s, expr).1)
}

broadcast proof fn kept_is_reflexive(s: Lowering)
    ensures
        #[trigger] kept(s, s),
{
    reveal(kept);
    reveal(carried);
}

broadcast proof fn kept_is_transitive(a: Lowering, b: Lowering, c: Lowering)
    requires
        #[trigger] kept(a, b),
        #[trigger] kept(b, c),
    ensures
        kept(a, c),
{
    reveal(kept);
    reveal(carried);
    if a.function is Some {
        let before = a.function.unwrap();
        let between = b.function.unwrap();
        let after = c.function.unwrap();
        assert forall|i: int| 0 <= i < before.blocks.len() implies block_grew(
            #[trigger] before.blocks[i],
            after.blocks[i],
        ) by {
            assert(block_grew(before.blocks[i], between.blocks[i]));
            assert(block_grew(between.blocks[i], after.blocks[i]));
        }
        assert forall|i: int| 0 <= i < before.instructions.len() implies step_kept(
            before.instructions[i],
            #[trigger] after.instructions[i],
        ) by {
            assert(step_kept(before.instructions[i], between.instructions[i]));
        }
    }
}

broadcast proof fn settled_is_reflexive(s: Lowering)
    ensures
        #[trigger] settled(s, s),
{
    reveal(left);
}

broadcast proof fn settled_is_transitive(a: Lowering, b: Lowering, c: Lowering)
    requires
        #[trigger] settled(a, b),
        #[trigger] settled(b, c),
    ensures
        settled(a, c),
{
    reveal(left);
}

broadcast group group_kept {
    kept_is_reflexive,
    kept_is_transitive,
    settled_is_reflexive,
    settled_is_transitive,
}

/// What is lowered on does not touch what is pending.
proof fn going_on(a: Lowering, b: Lowering, c: Lowering, pending: Set<int>)
    requires
        left(a, b, pending),
        settled(b, c),
    ensures
        left(a, c, pending),
{
    reveal(left);
}

/// One more block is pending.
proof fn opening(a: Lowering, b: Lowering, pending: Set<int>, types: Seq<Type>)
    requires
        left(a, b, pending),
    ensures
        ({
            let (block, after) = b.with_block(types);
            &&& left(a, after, pending.insert(block as int))
            &&& after.block == b.block
            &&& after.function is Some <==> b.function is Some
            &&& b.function is Some ==> after.block_count() == b.block_count() + 1
            &&& b.function is Some && after.is_numbered() ==> block == b.block_count()
        }),
{
    reveal(left);
    reveal(Lowering::with_block);
}

proof fn opening_apart(a: Lowering, b: Lowering, pending: Set<int>, types: Seq<Type>)
    requires
        parted(a, b, pending),
    ensures
        ({
            let (block, after) = b.with_block(types);
            &&& parted(a, after, pending.insert(block as int))
            &&& after.function is Some <==> b.function is Some
            &&& a.has_block() && b.function is Some && after.is_numbered() ==> !pending.contains(
                block as int,
            )
        }),
{
    reveal(parted);
    reveal(Lowering::with_block);
}

/// The current block ends.
proof fn ending(a: Lowering, b: Lowering, pending: Set<int>, terminator: Terminator)
    requires
        left(a, b, pending),
    ensures
        parted(a, b.terminated(terminator), pending),
        b.terminated(terminator).block_count() == b.block_count(),
{
    reveal(left);
    reveal(parted);
    reveal(Lowering::terminated);
}

/// The current block is gone on with later.
proof fn setting_aside(a: Lowering, b: Lowering, pending: Set<int>)
    requires
        left(a, b, pending),
    ensures
        parted(a, b, pending.insert(b.block as int)),
{
    reveal(left);
    reveal(parted);
}

/// A block that is pending becomes the current one.
proof fn turning(a: Lowering, b: Lowering, pending: Set<int>, block: BlockId)
    requires
        parted(a, b, pending),
        a.has_block() && b.function is Some && b.is_numbered() ==> pending.contains(
            block as int,
        ),
    ensures
        left(a, b.switched_to(block), pending.remove(block as int)),
{
    reveal(left);
    reveal(parted);
}

/// The current block ends, and one that is pending becomes the current one.
proof fn ending_and_turning(
    a: Lowering,
    b: Lowering,
    pending: Set<int>,
    terminator: Terminator,
    block: BlockId,
)
    requires
        left(a, b, pending),
        a.has_block() && b.function is Some && b.is_numbered() ==> pending.contains(
            block as int,
        ),
    ensures
        left(a, b.terminated(terminator).switched_to(block), pending.remove(block as int)),
{
    ending(a, b, pending, terminator);
    let ended = b.terminated(terminator);
    assert(ended.function is Some <==> b.function is Some) by {
        reveal(Lowering::terminated);
    }
    turning(a, ended, pending, block);
}

proof fn left_as(a: Lowering, b: Lowering, pending: Set<int>, other: Set<int>)
    requires
        left(a, b, pending),
        a.has_block() && b.function is Some && b.is_numbered() ==> pending =~= other,
    ensures
        left(a, b, other),
{
    reveal(left);
}

proof fn parted_as(a: Lowering, b: Lowering, pending: Set<int>, other: Set<int>)
    requires
        parted(a, b, pending),
        a.has_block() && b.function is Some && b.is_numbered() ==> pending =~= other,
    ensures
        parted(a, b, other),
{
    reveal(parted);
}

/// Blocks are only added.
proof fn counting_up(a: Lowering, b: Lowering)
    requires
        kept(a, b),
    ensures
        a.block_count() <= b.block_count(),
        a.function is Some <==> b.function is Some,
        b.is_numbered() ==> a.is_numbered(),
{
    reveal(kept);
}

broadcast proof fn a_lone_block_stays(a: Lowering, b: Lowering)
    requires
        #[trigger] settled(a, b),
        a.is_lone(),
    ensures
        b.is_lone(),
{
    reveal(left);
    reveal(Lowering::is_lone);
}

broadcast proof fn the_last_block_ends(s: Lowering, terminator: Terminator)
    requires
        s.is_lone(),
    ensures
        (#[trigger] s.terminated(terminator)).in_ended(),
{
    reveal(Lowering::is_lone);
    reveal(Lowering::terminated);
    reveal(ends);
}

/// A definition that grows without pairs stays sound.
proof fn growing_is_sound(before: DefinitionState, after: DefinitionState)
    requires
        is_sound(before),
        after.borrow_pairs == before.borrow_pairs,
        before.instructions.len() <= after.instructions.len(),
        forall|i: int|
            0 <= i < before.instructions.len() ==> step_kept(
                before.instructions[i],
                #[trigger] after.instructions[i],
            ),
    ensures
        is_sound(after),
{
    reveal(is_sound);
    if after.instructions.len() <= INSTRUCTION_LIMIT {
        assert forall|i: int| 0 <= i < after.borrow_pairs.len() implies pair_holds(
            after,
            #[trigger] after.borrow_pairs[i],
        ) by {
            let pair = before.borrow_pairs[i];
            assert(pair_holds(before, pair));
            assert(step_kept(
                before.instructions[pair.retain as int],
                after.instructions[pair.retain as int],
            ));
            assert(step_kept(
                before.instructions[pair.call as int],
                after.instructions[pair.call as int],
            ));
            assert(step_kept(
                before.instructions[pair.release_call as int],
                after.instructions[pair.release_call as int],
            ));
        }
    }
}

/// What was retained stays so.
proof fn pending_stays(
    before: Lowering,
    after: Lowering,
    pending: Pending,
    call: Option<InstructionId>,
    positions: Seq<u32>,
)
    requires
        kept(before, after),
    ensures
        before.was_retained(pending) ==> after.was_retained(pending),
        before.is_pending(pending, call, positions) ==> after.is_pending(pending, call, positions),
{
    reveal(kept);
    match (before.function, after.function, pending.2) {
        (Some(from), Some(to), Some(retain)) => {
            if retain < from.instructions.len() {
                assert(step_kept(from.instructions[retain as int], to.instructions[retain as int]));
            }
            if call matches Some(call) && call < from.instructions.len() {
                let at = call.unwrap() as int;
                assert(step_kept(from.instructions[at], to.instructions[at]));
            }
        },
        _ => {},
    }
}

/// A definition that is sound stays so.
broadcast proof fn soundness_is_kept(a: Lowering, b: Lowering)
    requires
        #[trigger] kept(a, b),
        a.in_sound(),
    ensures
        b.in_sound(),
{
    reveal(kept);
}

broadcast proof fn carried_is_transitive(a: Lowering, b: Lowering, c: Lowering)
    requires
        #[trigger] carried(a, b),
        #[trigger] carried(b, c),
    ensures
        carried(a, c),
{
    reveal(carried);
}

/// What is kept is carried on.
broadcast proof fn kept_is_carried(a: Lowering, b: Lowering)
    requires
        #[trigger] kept(a, b),
    ensures
        carried(a, b),
{
    reveal(kept);
}

/// What is carried on and is back in the definition it came from is kept.
broadcast proof fn back_is_kept(a: Lowering, b: Lowering)
    requires
        #[trigger] carried(a, b),
        a.function == b.function,
    ensures
        kept(a, b),
{
    reveal(kept);
}

/// What is carried on and is back in the block it came from is settled.
broadcast proof fn back_is_settled(a: Lowering, b: Lowering)
    requires
        #[trigger] carried(a, b),
        a.function == b.function,
        a.block == b.block,
    ensures
        settled(a, b),
{
    reveal(left);
}

broadcast proof fn keeps_id_of(s: Lowering, name: TopLevelName)
    ensures
        kept(s, (#[trigger] s.id_of(name)).1),
        settled(s, s.id_of(name).1),
{
    reveal(kept);
    reveal(left);
    reveal(carried);
    reveal(Lowering::id_of);
}

broadcast proof fn carries_unscoped(s: Lowering)
    ensures
        carried(s, #[trigger] s.unscoped()),
{
    reveal(carried);
}

broadcast proof fn carries_scoped_as(s: Lowering, outer: Lowering)
    ensures
        carried(s, #[trigger] s.scoped_as(outer)),
        s.scoped_as(outer).function == s.function,
        s.scoped_as(outer).block == s.block,
{
    reveal(carried);
}

broadcast proof fn carries_definition_started(
    s: Lowering,
    name: Seq<char>,
    name_id: Option<NameId>,
    generic_count: u32,
    typ: Type,
)
    ensures
        carried(s, #[trigger] s.definition_started(name, name_id, generic_count, typ)),
        s.definition_started(name, name_id, generic_count, typ).in_sound(),
        s.definition_started(name, name_id, generic_count, typ).is_lone(),
{
    reveal(carried);
    reveal(Lowering::is_lone);
    reveal(Lowering::definition_started);
    reveal(is_sound);
}

broadcast proof fn carries_definition_finished(s: Lowering, outer: Lowering)
    requires
        s.in_sound(),
        s.in_ended(),
    ensures
        carried(s, (#[trigger] s.definition_finished(outer)).1),
        s.definition_finished(outer).1.function == outer.function,
        s.definition_finished(outer).1.block == outer.block,
{
    reveal(carried);
    reveal(Lowering::definition_finished);
}

broadcast proof fn carries_isolated(s: Lowering, name: Seq<char>, typ: Type)
    ensures
        carried(s, #[trigger] s.isolated(name, typ)),
        s.isolated(name, typ).in_sound(),
        s.isolated(name, typ).is_lone(),
{
    broadcast use {carried_is_transitive, carries_unscoped, carries_definition_started};

    reveal(Lowering::isolated);
}

broadcast proof fn carries_isolated_finished(s: Lowering, outer: Lowering)
    requires
        s.in_sound(),
        s.in_ended(),
    ensures
        carried(s, (#[trigger] s.isolated_finished(outer)).1),
        s.isolated_finished(outer).1.function == outer.function,
        s.isolated_finished(outer).1.block == outer.block,
{
    broadcast use {carried_is_transitive, carries_scoped_as, carries_definition_finished};

    reveal(Lowering::isolated_finished);
}

broadcast proof fn keeps_fails(s: Lowering)
    ensures
        kept(s, #[trigger] s.fails()),
        settled(s, s.fails()),
{
    broadcast use group_kept;

    reveal(kept);
    reveal(left);
    reveal(carried);
}

broadcast proof fn keeps_pushed(s: Lowering, operation: Operation, typ: Type)
    ensures
        kept(s, (#[trigger] s.pushed(operation, typ)).1),
        settled(s, s.pushed(operation, typ).1),
{
    broadcast use group_kept;

    reveal(Lowering::pushed);
    reveal(kept);
    reveal(left);
    reveal(carried);
    let after = s.pushed(operation, typ).1;
    if s.has_block() && !s.is_terminated() && s.in_sound() {
        growing_is_sound(s.function.unwrap(), after.function.unwrap());
    }
}

/// The id of an instruction is its place in the definition.
proof fn pushing_gives_the_last(s: Lowering, operation: Operation, typ: Type)
    ensures
        ({
            let (value, after) = s.pushed(operation, typ);
            after.is_limited() ==> (value matches Value::InstructionResult(id) ==> {
                &&& s.function is Some
                &&& id == s.function.unwrap().instructions.len()
                &&& after.operation_of(value) == Some(operation)
            })
        }),
{
    reveal(Lowering::pushed);
}

broadcast proof fn keeps_with_block(s: Lowering, parameter_types: Seq<Type>)
    ensures
        kept(s, (#[trigger] s.with_block(parameter_types)).1),
{
    broadcast use group_kept;

    reveal(Lowering::with_block);
    reveal(kept);
    reveal(carried);
    match (s.function, s.with_block(parameter_types).1.function) {
        (Some(before), Some(after)) => {
            if is_sound(before) {
                growing_is_sound(before, after);
            }
        },
        _ => {},
    }
}

broadcast proof fn keeps_switched_to(s: Lowering, block: BlockId)
    ensures
        kept(s, #[trigger] s.switched_to(block)),
{
    broadcast use group_kept;

    reveal(kept);
    reveal(carried);
}

broadcast proof fn keeps_with_parameter(s: Lowering, typ: Type)
    ensures
        kept(s, #[trigger] s.with_parameter(typ)),
        settled(s, s.with_parameter(typ)),
{
    broadcast use group_kept;

    reveal(Lowering::with_parameter);
    reveal(kept);
    reveal(left);
    reveal(carried);
    match (s.function, s.with_parameter(typ).function) {
        (Some(before), Some(after)) => {
            if is_sound(before) {
                growing_is_sound(before, after);
            }
        },
        _ => {},
    }
}

broadcast proof fn keeps_with_capability_parameter(s: Lowering, typ: Type)
    ensures
        kept(s, (#[trigger] s.with_capability_parameter(typ)).1),
        settled(s, s.with_capability_parameter(typ).1),
{
    broadcast use group_kept;

    reveal(Lowering::with_capability_parameter);
    reveal(kept);
    reveal(left);
    reveal(carried);
    reveal(Lowering::with_parameter);
    match (s.function, s.with_capability_parameter(typ).1.function) {
        (Some(before), Some(after)) => {
            if is_sound(before) {
                growing_is_sound(before, after);
            }
        },
        _ => {},
    }
}

broadcast proof fn keeps_terminated(s: Lowering, terminator: Terminator)
    ensures
        kept(s, #[trigger] s.terminated(terminator)),
        settled(s, s.terminated(terminator)),
{
    broadcast use group_kept;

    reveal(Lowering::terminated);
    reveal(kept);
    reveal(left);
    reveal(carried);
    match (s.function, s.terminated(terminator).function) {
        (Some(before), Some(after)) => {
            if is_sound(before) {
                growing_is_sound(before, after);
            }
        },
        _ => {},
    }
}

proof fn noting_a_pair_keeps(s: Lowering, pair: Pair)
    requires
        s.is_limited() ==> (s.function matches Some(function) ==> pair_holds(function, pair)),
    ensures
        kept(s, s.with_borrow_pair(pair)),
        settled(s, s.with_borrow_pair(pair)),
{
    reveal(Lowering::with_borrow_pair);
    reveal(kept);
    reveal(left);
    reveal(carried);
    match (s.function, s.with_borrow_pair(pair).function) {
        (Some(before), Some(after)) => {
            reveal(is_sound);
            assert(pair_holds(before, pair) ==> pair_holds(after, pair));
            assert forall|i: int| 0 <= i < before.borrow_pairs.len() && pair_holds(
                before,
                before.borrow_pairs[i],
            ) implies pair_holds(after, #[trigger] after.borrow_pairs[i]) by {}
        },
        _ => {},
    }
}

proof fn instantiating_otherwise_keeps(
    s: Lowering,
    value: Value,
    id: DefinitionId,
    types: Seq<Type>,
    typ: Type,
)
    requires
        s.operation_of(value) matches Some(operation) && operation is Instantiate,
    ensures
        kept(s, s.with_instantiation(value, id, types, typ)),
        settled(s, s.with_instantiation(value, id, types, typ)),
{
    broadcast use {kept_is_reflexive, settled_is_reflexive};

    reveal(Lowering::with_instantiation);
    reveal(kept);
    reveal(left);
    reveal(carried);
    match (s.function, s.with_instantiation(value, id, types, typ).function) {
        (Some(before), Some(after)) => {
            if is_sound(before) {
                growing_is_sound(before, after);
            }
        },
        _ => {},
    }
}

broadcast proof fn keeps_with_local(s: Lowering, name: NameId, value: Value)
    ensures
        kept(s, #[trigger] s.with_local(name, value)),
        settled(s, s.with_local(name, value)),
{
    broadcast use group_kept;

    reveal(kept);
    reveal(left);
    reveal(carried);
}

broadcast proof fn keeps_with_mutable_local(s: Lowering, name: NameId)
    ensures
        kept(s, #[trigger] s.with_mutable_local(name)),
        settled(s, s.with_mutable_local(name)),
{
    broadcast use group_kept;

    reveal(kept);
    reveal(left);
    reveal(carried);
}

broadcast proof fn keeps_with_variable(s: Lowering, origin: Origin, value: Value)
    ensures
        kept(s, #[trigger] s.with_variable(origin, value)),
        settled(s, s.with_variable(origin, value)),
{
    broadcast use group_kept;

    reveal(Lowering::with_variable);
    reveal(kept);
    reveal(left);
    reveal(carried);
}

broadcast proof fn keeps_with_op_index(s: Lowering, operation: DefinitionId, index: u32)
    ensures
        kept(s, #[trigger] s.with_op_index(operation, index)),
        settled(s, s.with_op_index(operation, index)),
{
    broadcast use group_kept;

    reveal(kept);
    reveal(left);
    reveal(carried);
}

broadcast proof fn keeps_definition_value(s: Lowering, id: DefinitionId, name: Seq<char>, typ: Type)
    ensures
        kept(s, (#[trigger] s.definition_value(id, name, typ)).1),
        settled(s, s.definition_value(id, name, typ).1),
{
    broadcast use group_kept;

    reveal(Lowering::definition_value);
    reveal(kept);
    reveal(left);
    reveal(carried);
}

broadcast proof fn keeps_tag_of(s: Lowering, value: Value)
    ensures
        kept(s, (#[trigger] s.tag_of(value)).1),
        settled(s, s.tag_of(value).1),
{
    broadcast use {group_kept, keeps_fails, keeps_pushed};

    reveal(Lowering::tag_of);
}

broadcast proof fn keeps_variant_of(s: Lowering, value: Value, index: u32)
    ensures
        kept(s, (#[trigger] s.variant_of(value, index)).1),
        settled(s, s.variant_of(value, index).1),
{
    broadcast use {group_kept, keeps_pushed, keeps_fails};

    reveal(Lowering::variant_of);
}

broadcast proof fn keeps_dereferenced(s: Lowering, value: Value, typ: TCType)
    ensures
        kept(s, (#[trigger] s.dereferenced(value, typ)).1),
        settled(s, s.dereferenced(value, typ).1),
{
    broadcast use {group_kept, keeps_pushed};

    reveal(Lowering::dereferenced);
}

broadcast proof fn keeps_with_case_blocks(s: Lowering, count: int)
    ensures
        kept(s, (#[trigger] s.with_case_blocks(count)).1),
    decreases count,
{
    broadcast use {group_kept, keeps_with_block};

    reveal(Lowering::with_case_blocks);
    if count > 0 {
        keeps_with_case_blocks(s, count - 1);
    }
}

/// A block is pending for each variant.
proof fn opening_cases(a: Lowering, s: Lowering, pending: Set<int>, count: int)
    requires
        left(a, s, pending),
        count >= 0,
    ensures
        ({
            let (edges, made) = s.with_case_blocks(count);
            let low = s.block_count();
            &&& edges.len() == count
            &&& made.function is Some <==> s.function is Some
            &&& s.function is Some ==> made.block_count() == low + count
            &&& s.function is Some && made.is_numbered() ==> forall|i: int|
                0 <= i < count ==> (#[trigger] edges[i]).1.0 == low + i
            &&& left(a, made, pending.union(blocks_between(low, low + count)))
        }),
    decreases count,
{
    reveal(Lowering::with_case_blocks);
    let low = s.block_count();
    let all = pending.union(blocks_between(low, low + count));
    if count == 0 {
        assert(all =~= pending);
    } else {
        opening_cases(a, s, pending, count - 1);
        let made = s.with_case_blocks(count - 1).1;
        let fewer = pending.union(blocks_between(low, low + count - 1));
        opening(a, made, fewer, Seq::empty());
        let (block, after) = made.with_block(Seq::empty());
        assert(after.function is Some && after.is_numbered() ==> fewer.insert(block as int)
            =~= all);
        left_as(a, after, fewer.insert(block as int), all);
    }
}

/// The blocks of the variants, and the one behind them, are pending where a value was switched on.
proof fn switching_on_variants(s: Lowering, value: Value, count: int)
    requires
        count >= 0,
    ensures
        ({
            let (edges, end, made) = s.variants_switched(value, count);
            let high = made.block_count();
            &&& made.function is Some && made.is_numbered() ==> end == high - count - 1 && forall|
                i: int,
            |
                0 <= i < count ==> (#[trigger] edges[i]).1.0 == high - count + i
            &&& parted(s, made, blocks_between(high - count, high).insert(end as int))
        }),
{
    broadcast use keeps_tag_of;

    reveal(Lowering::variants_switched);
    let none = Set::<int>::empty();
    let (tag, before) = s.tag_of(value);
    opening(s, before, none, Seq::empty());
    let (otherwise, made) = before.with_block(Seq::empty());
    let one = none.insert(otherwise as int);
    opening(s, made, one, Seq::empty());
    let (end, made) = made.with_block(Seq::empty());
    let two = one.insert(end as int);
    opening_cases(s, made, two, count);
    let low = made.block_count();
    let (cases, made) = made.with_case_blocks(count);
    let all = two.union(blocks_between(low, low + count));
    let switch = Terminator::Switch { int_value: tag, cases, otherwise: (otherwise, None), end };
    ending_and_turning(s, made, all, switch, otherwise);
    let inside = made.terminated(switch).switched_to(otherwise);
    let rest = all.remove(otherwise as int);
    ending(s, made, all, switch);
    ending(s, inside, rest, Terminator::Jmp(end, None));
    let after = inside.terminated(Terminator::Jmp(end, None));
    assert(after.function is Some <==> made.function is Some) by {
        reveal(Lowering::terminated);
    }
    let high = after.block_count();
    assert(after.function is Some && after.is_numbered() ==> rest =~= blocks_between(
        high - count,
        high,
    ).insert(end as int));
    parted_as(s, after, rest, blocks_between(high - count, high).insert(end as int));
}

broadcast proof fn keeps_variants_switched(s: Lowering, value: Value, count: int)
    ensures
        kept(s, (#[trigger] s.variants_switched(value, count)).2),
{
    broadcast use {
        group_kept,
        keeps_tag_of,
        keeps_with_block,
        keeps_with_case_blocks,
        keeps_terminated,
        keeps_switched_to,
    };

    reveal(Lowering::variants_switched);
}

broadcast proof fn keeps_env_retained(s: Lowering, closure: Value)
    ensures
        kept(s, #[trigger] s.env_retained(closure)),
        settled(s, s.env_retained(closure)),
{
    broadcast use {group_kept, keeps_pushed};

    reveal(Lowering::env_retained);
}

broadcast proof fn keeps_retained(s: Lowering, value: Value, typ: TCType, depth: nat)
    ensures
        kept(s, #[trigger] s.retained(value, typ, depth)),
        settled(s, s.retained(value, typ, depth)),
    decreases depth, 0nat, 0int,
{
    broadcast use {kept_is_reflexive, settled_is_reflexive, keeps_pushed, keeps_env_retained};

    if depth > 0 {
        let depth = (depth - 1) as nat;
        match s.follow(typ) {
            TCType::Tuple(elements) => {
                let types = elements.items();
                retaining_fields_keeps(s, value, types, types.len() as int, depth);
            },
            _ => match s.aggregate_target(typ) {
                Some((item, args)) => {
                    retaining_a_body_keeps(s, value, item, args, depth);
                },
                None => {},
            },
        }
    }
}

proof fn retaining_a_field_keeps(
    s: Lowering,
    tuple: Value,
    index: u32,
    typ: TCType,
    depth: nat,
)
    ensures
        kept(s, s.field_retained(tuple, index, typ, depth)),
        settled(s, s.field_retained(tuple, index, typ, depth)),
    decreases depth, 1nat, 0int,
{
    broadcast use {group_kept, keeps_pushed};

    let (field, made) = s.pushed(Operation::IndexTuple { tuple, index }, s.layout(typ));
    keeps_retained(made, field, typ, depth);
}

proof fn retaining_fields_keeps(
    s: Lowering,
    tuple: Value,
    types: Seq<TCType>,
    count: int,
    depth: nat,
)
    ensures
        kept(s, s.fields_retained(tuple, types, count, depth)),
        settled(s, s.fields_retained(tuple, types, count, depth)),
    decreases depth, 2nat, count,
{
    broadcast use group_kept;

    if count > 0 {
        retaining_fields_keeps(s, tuple, types, count - 1, depth);
        let made = s.fields_retained(tuple, types, count - 1, depth);
        retaining_a_field_keeps(made, tuple, (count - 1) as u32, types[count - 1], depth);
    }
}

proof fn retaining_variants_keeps(
    s: Lowering,
    value: Value,
    variants: Seq<(String, Vec<TCType>)>,
    edges: Edges,
    end: BlockId,
    count: int,
    depth: nat,
)
    ensures
        kept(s, s.variants_retained(value, variants, edges, end, count, depth)),
    decreases depth, 3nat, count,
{
    broadcast use {group_kept, keeps_switched_to, keeps_variant_of, keeps_terminated};

    if count > 0 {
        retaining_variants_keeps(s, value, variants, edges, end, count - 1, depth);
        let made = s.variants_retained(value, variants, edges, end, count - 1, depth);
        let inside = made.switched_to(edges[count - 1].1.0);
        let payloads = variants[count - 1].1@;
        let (variant, extracted) = inside.variant_of(value, (count - 1) as u32);
        retaining_fields_keeps(extracted, variant, payloads, payloads.len() as int, depth);
    }
}

/// The block of each variant whose payloads are retained ends.
proof fn retaining_variants_parts(
    a: Lowering,
    s: Lowering,
    value: Value,
    variants: Seq<(String, Vec<TCType>)>,
    edges: Edges,
    end: BlockId,
    count: int,
    depth: nat,
    low: int,
    high: int,
)
    requires
        0 <= count <= high - low,
        s.function is Some && s.is_numbered() ==> end < low && forall|i: int|
            0 <= i < high - low ==> (#[trigger] edges[i]).1.0 == low + i,
        parted(a, s, blocks_between(low, high).insert(end as int)),
    ensures
        parted(
            a,
            s.variants_retained(value, variants, edges, end, count, depth),
            blocks_between(low + count, high).insert(end as int),
        ),
    decreases depth, 3nat, count,
{
    broadcast use {group_kept, keeps_variant_of, keeps_switched_to, keeps_terminated};

    if count > 0 {
        let index = count - 1;
        retaining_variants_parts(a, s, value, variants, edges, end, index, depth, low, high);
        retaining_variants_keeps(s, value, variants, edges, end, index, depth);
        let made = s.variants_retained(value, variants, edges, end, index, depth);
        let pending = blocks_between(low + index, high).insert(end as int);
        let block = edges[index].1.0;
        counting_up(s, made);
        turning(a, made, pending, block);
        let inside = made.switched_to(block);
        let rest = pending.remove(block as int);
        let payloads = variants[index].1@;
        let (variant, extracted) = inside.variant_of(value, index as u32);
        retaining_fields_keeps(extracted, variant, payloads, payloads.len() as int, depth);
        let done = if payloads.len() == 0 {
            inside
        } else {
            extracted.fields_retained(variant, payloads, payloads.len() as int, depth)
        };
        assert(settled(inside, done));
        going_on(a, inside, done, rest);
        ending(a, done, rest, Terminator::Jmp(end, None));
        let after = done.terminated(Terminator::Jmp(end, None));
        counting_up(s, after);
        let fewer = blocks_between(low + count, high).insert(end as int);
        assert(after.function is Some && after.is_numbered() ==> rest =~= fewer);
        parted_as(a, after, rest, fewer);
    }
}

proof fn retaining_a_body_keeps(
    s: Lowering,
    value: Value,
    item: TopLevelId,
    args: Seq<TCType>,
    depth: nat,
)
    ensures
        kept(s, s.body_retained(value, item, args, depth)),
        settled(s, s.body_retained(value, item, args, depth)),
    decreases depth, 4nat, 0int,
{
    broadcast use {group_kept, keeps_switched_to, keeps_variant_of, keeps_variants_switched};

    match s.body_of(item, args) {
        Some(TypeBody::Product(fields)) => {
            let (variant, made) = s.variant_of(value, 0);
            retaining_fields_keeps(
                made,
                variant,
                types_of_fields(fields@),
                fields@.len() as int,
                depth,
            );
        },
        Some(TypeBody::Sum(variants)) => {
            let count = variants@.len() as int;
            let (edges, end, made) = s.variants_switched(value, count);
            retaining_variants_keeps(made, value, variants@, edges, end, count, depth);
            switching_on_variants(s, value, count);
            let high = made.block_count();
            let low = high - count;
            retaining_variants_parts(
                s,
                made,
                value,
                variants@,
                edges,
                end,
                count,
                depth,
                low,
                high,
            );
            let done = made.variants_retained(value, variants@, edges, end, count, depth);
            let last = blocks_between(high, high).insert(end as int);
            turning(s, done, last, end);
            assert(last.remove(end as int) =~= Set::empty());
        },
        None => {},
    }
}

broadcast proof fn keeps_value_retained(s: Lowering, value: Value, typ: TCType)
    ensures
        kept(s, #[trigger] s.value_retained(value, typ)),
        settled(s, s.value_retained(value, typ)),
{
    broadcast use {group_kept, keeps_retained};

    reveal(Lowering::value_retained);
}

broadcast proof fn keeps_place_retained(s: Lowering, expr: ExprId, value: Value)
    ensures
        kept(s, #[trigger] s.place_retained(expr, value)),
        settled(s, s.place_retained(expr, value)),
{
    broadcast use {group_kept, keeps_pushed, keeps_env_retained, keeps_value_retained};

    reveal(Lowering::place_retained);
}

broadcast proof fn keeps_retained_if_place(s: Lowering, expr: ExprId, value: Value)
    ensures
        kept(s, #[trigger] s.retained_if_place(expr, value)),
        settled(s, s.retained_if_place(expr, value)),
{
    broadcast use {group_kept, keeps_place_retained};

    reveal(Lowering::retained_if_place);
}

broadcast proof fn keeps_release_called(
    s: Lowering,
    handle: Value,
    item: TopLevelId,
    args: Seq<TCType>,
)
    ensures
        kept(s, (#[trigger] s.release_called(handle, item, args)).1),
        settled(s, s.release_called(handle, item, args).1),
{
    broadcast use {group_kept, keeps_id_of, keeps_definition_value, keeps_pushed};

    reveal(Lowering::release_called);
}

broadcast proof fn keeps_expr_released(s: Lowering, value: Value, expr: ExprId)
    ensures
        kept(s, (#[trigger] s.expr_released(value, expr)).1),
        settled(s, s.expr_released(value, expr).1),
{
    broadcast use {group_kept, keeps_release_called};

    reveal(Lowering::expr_released);
}

broadcast proof fn keeps_field_deferred(
    s: Lowering,
    tuple: Value,
    index: u32,
    typ: TCType,
    slot: Value,
)
    ensures
        kept(s, #[trigger] s.field_deferred(tuple, index, typ, slot)),
        settled(s, s.field_deferred(tuple, index, typ, slot)),
{
    broadcast use {group_kept, keeps_pushed};

    reveal(Lowering::field_deferred);
}

proof fn releasing_keeps(s: Lowering, value: Value, typ: TCType, depth: nat)
    ensures
        kept(s, s.released(value, typ, depth)),
        settled(s, s.released(value, typ, depth)),
    decreases depth, 0nat, 0int,
{
    broadcast use {kept_is_reflexive, settled_is_reflexive, keeps_release_called};

    if depth > 0 {
        let depth = (depth - 1) as nat;
        match s.follow(typ) {
            TCType::Tuple(elements) => {
                let types = elements.items();
                releasing_fields_keeps(s, value, types, Seq::empty(), None, types.len() as int, depth);
            },
            _ => match s.aggregate_target(typ) {
                Some((item, args)) => {
                    keeps_body_released(s, value, item, args, None, depth);
                },
                None => {},
            },
        }
    }
}

proof fn releasing_a_field_keeps(
    s: Lowering,
    tuple: Value,
    index: u32,
    typ: TCType,
    depth: nat,
)
    ensures
        kept(s, s.field_released(tuple, index, typ, depth)),
        settled(s, s.field_released(tuple, index, typ, depth)),
    decreases depth, 1nat, 0int,
{
    broadcast use {group_kept, keeps_pushed};

    let (field, made) = s.pushed(Operation::IndexTuple { tuple, index }, s.layout(typ));
    releasing_keeps(made, field, typ, depth);
}

proof fn releasing_fields_keeps(
    s: Lowering,
    tuple: Value,
    types: Seq<TCType>,
    args: Seq<TCType>,
    slot: Option<Value>,
    count: int,
    depth: nat,
)
    ensures
        kept(s, s.fields_released(tuple, types, args, slot, count, depth)),
        settled(s, s.fields_released(tuple, types, args, slot, count, depth)),
    decreases depth, 2nat, count,
{
    broadcast use {group_kept, keeps_field_deferred};

    if count > 0 {
        releasing_fields_keeps(s, tuple, types, args, slot, count - 1, depth);
        let made = s.fields_released(tuple, types, args, slot, count - 1, depth);
        releasing_a_field_keeps(made, tuple, (count - 1) as u32, types[count - 1], depth);
    }
}

proof fn releasing_variants_keeps(
    s: Lowering,
    value: Value,
    variants: Seq<(String, Vec<TCType>)>,
    args: Seq<TCType>,
    slot: Option<Value>,
    edges: Edges,
    end: BlockId,
    count: int,
    depth: nat,
)
    ensures
        kept(
            s,
            s.variants_released(value, variants, args, slot, edges, end, count, depth),
        ),
    decreases depth, 3nat, count,
{
    broadcast use {group_kept, keeps_switched_to, keeps_variant_of, keeps_terminated};

    if count > 0 {
        let count = count - 1;
        releasing_variants_keeps(s, value, variants, args, slot, edges, end, count, depth);
        let made = s.variants_released(value, variants, args, slot, edges, end, count, depth);
        let inside = made.switched_to(edges[count].1.0);
        let payloads = variants[count].1@;
        let (variant, extracted) = inside.variant_of(value, count as u32);
        releasing_fields_keeps(
            extracted,
            variant,
            payloads,
            args,
            slot,
            payloads.len() as int,
            depth,
        );
    }
}

/// The block of each variant whose payloads are released ends.
proof fn releasing_variants_parts(
    a: Lowering,
    s: Lowering,
    value: Value,
    variants: Seq<(String, Vec<TCType>)>,
    args: Seq<TCType>,
    slot: Option<Value>,
    edges: Edges,
    end: BlockId,
    count: int,
    depth: nat,
    low: int,
    high: int,
)
    requires
        0 <= count <= high - low,
        s.function is Some && s.is_numbered() ==> end < low && forall|i: int|
            0 <= i < high - low ==> (#[trigger] edges[i]).1.0 == low + i,
        parted(a, s, blocks_between(low, high).insert(end as int)),
    ensures
        parted(
            a,
            s.variants_released(value, variants, args, slot, edges, end, count, depth),
            blocks_between(low + count, high).insert(end as int),
        ),
    decreases depth, 3nat, count,
{
    broadcast use {group_kept, keeps_variant_of, keeps_switched_to, keeps_terminated};

    if count > 0 {
        let index = count - 1;
        releasing_variants_parts(
            a,
            s,
            value,
            variants,
            args,
            slot,
            edges,
            end,
            index,
            depth,
            low,
            high,
        );
        releasing_variants_keeps(s, value, variants, args, slot, edges, end, index, depth);
        let made = s.variants_released(value, variants, args, slot, edges, end, index, depth);
        let pending = blocks_between(low + index, high).insert(end as int);
        let block = edges[index].1.0;
        counting_up(s, made);
        turning(a, made, pending, block);
        let inside = made.switched_to(block);
        let rest = pending.remove(block as int);
        let payloads = variants[index].1@;
        let (variant, extracted) = inside.variant_of(value, index as u32);
        releasing_fields_keeps(
            extracted,
            variant,
            payloads,
            args,
            slot,
            payloads.len() as int,
            depth,
        );
        let done = if payloads.len() == 0 {
            inside
        } else {
            extracted.fields_released(
                variant,
                payloads,
                args,
                slot,
                payloads.len() as int,
                depth,
            )
        };
        assert(settled(inside, done));
        going_on(a, inside, done, rest);
        ending(a, done, rest, Terminator::Jmp(end, None));
        let after = done.terminated(Terminator::Jmp(end, None));
        counting_up(s, after);
        let fewer = blocks_between(low + count, high).insert(end as int);
        assert(after.function is Some && after.is_numbered() ==> rest =~= fewer);
        parted_as(a, after, rest, fewer);
    }
}

broadcast proof fn keeps_body_released(
    s: Lowering,
    value: Value,
    item: TopLevelId,
    args: Seq<TCType>,
    slot: Option<Value>,
    depth: nat,
)
    ensures
        kept(s, #[trigger] s.body_released(value, item, args, slot, depth)),
        settled(s, s.body_released(value, item, args, slot, depth)),
    decreases depth, 4nat, 0int,
{
    broadcast use {group_kept, keeps_switched_to, keeps_variant_of, keeps_variants_switched};

    match s.body_of(item, args) {
        Some(TypeBody::Product(fields)) => {
            let (variant, made) = s.variant_of(value, 0);
            releasing_fields_keeps(
                made,
                variant,
                types_of_fields(fields@),
                args,
                slot,
                fields@.len() as int,
                depth,
            );
        },
        Some(TypeBody::Sum(variants)) => {
            let count = variants@.len() as int;
            let (edges, end, made) = s.variants_switched(value, count);
            releasing_variants_keeps(
                made,
                value,
                variants@,
                args,
                slot,
                edges,
                end,
                count,
                depth,
            );
            switching_on_variants(s, value, count);
            let high = made.block_count();
            let low = high - count;
            releasing_variants_parts(
                s,
                made,
                value,
                variants@,
                args,
                slot,
                edges,
                end,
                count,
                depth,
                low,
                high,
            );
            let done = made.variants_released(
                value,
                variants@,
                args,
                slot,
                edges,
                end,
                count,
                depth,
            );
            let last = blocks_between(high, high).insert(end as int);
            turning(s, done, last, end);
            assert(last.remove(end as int) =~= Set::empty());
        },
        None => {},
    }
}

broadcast proof fn keeps_cell_released(
    s: Lowering,
    handle: Value,
    typ: TCType,
    args: Seq<TCType>,
    slot: Option<Value>,
)
    ensures
        kept(s, #[trigger] s.cell_released(handle, typ, args, slot)),
        settled(s, s.cell_released(handle, typ, args, slot)),
{
    broadcast use {group_kept, keeps_dereferenced, keeps_body_released};

    reveal(Lowering::cell_released);
}

broadcast proof fn keeps_capability_taken(s: Lowering, effect: TCType)
    ensures
        kept(s, (#[trigger] s.capability_taken(effect)).1),
        settled(s, s.capability_taken(effect).1),
{
    broadcast use {group_kept, keeps_fails};

    reveal(Lowering::capability_taken);
}

broadcast proof fn keeps_end_evidence(s: Lowering, is_open: bool)
    ensures
        kept(s, (#[trigger] s.end_evidence(is_open)).2),
        settled(s, s.end_evidence(is_open).2),
{
    broadcast use {group_kept, keeps_fails, keeps_pushed};

    reveal(Lowering::end_evidence);
}

broadcast proof fn keeps_evidence_from(
    s: Lowering,
    effects: Seq<TCType>,
    is_open: bool,
    start: int,
)
    ensures
        kept(s, (#[trigger] s.evidence_from(effects, is_open, start)).2),
        settled(s, s.evidence_from(effects, is_open, start).2),
    decreases effects.len() - start,
{
    broadcast use {group_kept, keeps_end_evidence, keeps_capability_taken, keeps_pushed};

    reveal(Lowering::evidence_from);
    if 0 <= start < effects.len() {
        keeps_evidence_from(s, effects, is_open, start + 1);
    }
}

broadcast proof fn keeps_evidence(s: Lowering, effects: TCType)
    ensures
        kept(s, (#[trigger] s.evidence(effects)).1),
        settled(s, s.evidence(effects).1),
{
    broadcast use {group_kept, keeps_evidence_from};

    reveal(Lowering::evidence);
}

broadcast proof fn keeps_with_evidence(
    s: Lowering,
    callee_expr: ExprId,
    callee: Value,
    arguments: Seq<Value>,
)
    ensures
        kept(s, (#[trigger] s.with_evidence(callee_expr, callee, arguments)).1),
        settled(s, s.with_evidence(callee_expr, callee, arguments).1),
{
    broadcast use {group_kept, keeps_evidence};

    reveal(Lowering::with_evidence);
}

broadcast proof fn keeps_called(s: Lowering, function: Value, arguments: Seq<Value>, typ: Type)
    ensures
        kept(s, (#[trigger] s.called(function, arguments, typ)).1),
        settled(s, s.called(function, arguments, typ).1),
{
    broadcast use {group_kept, keeps_pushed};

    reveal(Lowering::called);
}

broadcast proof fn keeps_projected(
    s: Lowering,
    provided: Value,
    typ: Type,
    needed: Type,
    depth: nat,
)
    ensures
        kept(s, (#[trigger] s.projected(provided, typ, needed, depth)).1),
        settled(s, s.projected(provided, typ, needed, depth).1),
    decreases depth,
{
    broadcast use {group_kept, keeps_pushed};

    if depth > 0 {
        search_keeps(s, provided, typ, needed, (depth - 1) as nat);
    }
}

proof fn search_keeps(s: Lowering, provided: Value, typ: Type, needed: Type, depth: nat)
    ensures
        kept(s, s.searched(provided, typ, needed, depth).1),
        settled(s, s.searched(provided, typ, needed, depth).1),
    decreases depth,
{
    broadcast use {group_kept, keeps_pushed};

    let wanted = needed.fields().unwrap();
    match typ.fields() {
        Some(fields) => {
            if depth > 0 && fields.len() == 2 {
                if fields[0] == wanted[0] {
                    let (_, made) = s.pushed(
                        Operation::IndexTuple { tuple: provided, index: 0 },
                        fields[0],
                    );
                    let (rest, made) = made.pushed(
                        Operation::IndexTuple { tuple: provided, index: 1 },
                        fields[1],
                    );
                    keeps_projected(made, rest, fields[1], wanted[1], (depth - 1) as nat);
                } else {
                    let (rest, made) = s.pushed(
                        Operation::IndexTuple { tuple: provided, index: 1 },
                        fields[1],
                    );
                    search_keeps(made, rest, fields[1], needed, (depth - 1) as nat);
                }
            }
        },
        None => {},
    }
}

broadcast proof fn keeps_evidence_projected(s: Lowering, provided: Value, typ: Type, needed: Type)
    ensures
        kept(s, (#[trigger] s.evidence_projected(provided, typ, needed)).1),
        settled(s, s.evidence_projected(provided, typ, needed).1),
{
    broadcast use {group_kept, keeps_projected, keeps_fails};

    reveal(Lowering::evidence_projected);
}

broadcast proof fn keeps_with_parameters(s: Lowering, types: Seq<Type>, count: int)
    ensures
        kept(s, (#[trigger] s.with_parameters(types, count)).1),
        settled(s, s.with_parameters(types, count).1),
    decreases count,
{
    broadcast use {group_kept, keeps_with_capability_parameter};

    reveal(Lowering::with_parameters);
    if count > 0 {
        keeps_with_parameters(s, types, count - 1);
    }
}

broadcast proof fn keeps_target_value(
    s: Lowering,
    id: DefinitionId,
    types: Option<Seq<Type>>,
    typ: Type,
)
    ensures
        kept(s, (#[trigger] s.target_value(id, types, typ)).1),
        settled(s, s.target_value(id, types, typ).1),
{
    broadcast use {group_kept, keeps_pushed};

    reveal(Lowering::target_value);
}

broadcast proof fn keeps_adapter_body(
    s: Lowering,
    expected: Seq<Type>,
    needed: Type,
    environment: Option<Type>,
    target: (DefinitionId, Option<Seq<Type>>),
    target_type: Type,
    return_type: Type,
)
    ensures
        kept(
            s,
            #[trigger] s.adapter_body(
                expected,
                needed,
                environment,
                target,
                target_type,
                return_type,
            ),
        ),
        settled(
            s,
            s.adapter_body(
                expected,
                needed,
                environment,
                target,
                target_type,
                return_type,
            ),
        ),
        s.is_lone() ==> s.adapter_body(
            expected,
            needed,
            environment,
            target,
            target_type,
            return_type,
        ).in_ended(),
{
    broadcast use {
        group_kept,
        keeps_with_parameters,
        keeps_with_capability_parameter,
        keeps_evidence_projected,
        keeps_target_value,
        keeps_pushed,
        keeps_terminated,
        the_last_block_ends,
        a_lone_block_stays,
    };

    reveal(Lowering::adapter_body);
}

broadcast proof fn keeps_dynamic_adapter_body(
    s: Lowering,
    expected: Seq<Type>,
    needed: Type,
    inner_type: Type,
    return_type: Type,
)
    ensures
        kept(s, #[trigger] s.dynamic_adapter_body(expected, needed, inner_type, return_type)),
        settled(s, s.dynamic_adapter_body(expected, needed, inner_type, return_type)),
        s.is_lone() ==> s.dynamic_adapter_body(
            expected,
            needed,
            inner_type,
            return_type,
        ).in_ended(),
{
    broadcast use {
        group_kept,
        keeps_with_parameters,
        keeps_with_capability_parameter,
        keeps_evidence_projected,
        keeps_pushed,
        keeps_terminated,
        the_last_block_ends,
        a_lone_block_stays,
    };

    reveal(Lowering::dynamic_adapter_body);
}

broadcast proof fn keeps_static_adapter(
    s: Lowering,
    target: (DefinitionId, Option<Seq<Type>>),
    target_type: Type,
    environment: Option<Value>,
    own: FunctionType,
    expected: FunctionType,
)
    ensures
        kept(s, (#[trigger] s.static_adapter(target, target_type, environment, own, expected)).1),
        settled(s, s.static_adapter(target, target_type, environment, own, expected).1),
{
    broadcast use {
        group_kept,
        carries_isolated,
        keeps_adapter_body,
        carries_isolated_finished,
        soundness_is_kept,
        a_lone_block_stays,
        keeps_definition_value,
        keeps_pushed,
        kept_is_carried,
        carried_is_transitive,
        back_is_kept,
        back_is_settled,
    };

    reveal(Lowering::static_adapter);
}

broadcast proof fn keeps_dynamic_adapter(
    s: Lowering,
    value: Value,
    own: FunctionType,
    expected: FunctionType,
)
    ensures
        kept(s, (#[trigger] s.dynamic_adapter(value, own, expected)).1),
        settled(s, s.dynamic_adapter(value, own, expected).1),
{
    broadcast use {
        group_kept,
        carries_isolated,
        keeps_dynamic_adapter_body,
        carries_isolated_finished,
        soundness_is_kept,
        a_lone_block_stays,
        keeps_definition_value,
        keeps_pushed,
        kept_is_carried,
        carried_is_transitive,
        back_is_kept,
        back_is_settled,
    };

    reveal(Lowering::dynamic_adapter);
}

broadcast proof fn keeps_environment_patched(
    s: Lowering,
    function: Value,
    callee: ExprId,
    index: int,
    environment: Type,
)
    ensures
        kept(s, #[trigger] s.environment_patched(function, callee, index, environment)),
        settled(s, s.environment_patched(function, callee, index, environment)),
{
    broadcast use {kept_is_reflexive, settled_is_reflexive};

    reveal(Lowering::environment_patched);
    match s.operation_of(function) {
        Some(Operation::Instantiate(id, types)) => {
            assert forall|types: Seq<Type>, typ: Type|
                kept(s, #[trigger] s.with_instantiation(function, id, types, typ)) && settled(
                    s,
                    s.with_instantiation(function, id, types, typ),
                ) by {
                instantiating_otherwise_keeps(s, function, id, types, typ);
            }
        },
        _ => {},
    }
}

broadcast proof fn keeps_adapted(
    s: Lowering,
    value: Value,
    function: Value,
    callee: ExprId,
    index: int,
    own: FunctionType,
    expected: FunctionType,
)
    ensures
        kept(s, (#[trigger] s.adapted(value, function, callee, index, own, expected)).1),
        settled(s, s.adapted(value, function, callee, index, own, expected).1),
{
    broadcast use {
        group_kept,
        keeps_static_adapter,
        keeps_dynamic_adapter,
        keeps_environment_patched,
    };

    reveal(Lowering::adapted);
}

broadcast proof fn keeps_coerced(
    s: Lowering,
    value: Value,
    function: Value,
    callee: ExprId,
    index: int,
)
    ensures
        kept(s, (#[trigger] s.coerced(value, function, callee, index)).1),
        settled(s, s.coerced(value, function, callee, index).1),
{
    broadcast use {group_kept, keeps_adapted};

    reveal(Lowering::coerced);
}

broadcast proof fn keeps_method_of(s: Lowering, capability: Value, index: u32)
    ensures
        kept(s, (#[trigger] s.method_of(capability, index)).1),
        settled(s, s.method_of(capability, index).1),
{
    broadcast use {group_kept, keeps_pushed, keeps_fails};

    reveal(Lowering::method_of);
}

broadcast proof fn keeps_method_called(
    s: Lowering,
    callee: Option<ExprId>,
    capability: Value,
    index: u32,
    arguments: Seq<Value>,
    typ: Type,
    diverges: bool,
)
    ensures
        kept(
            s,
            (#[trigger] s.method_called(callee, capability, index, arguments, typ, diverges)).1,
        ),
        settled(
            s,
            s.method_called(callee, capability, index, arguments, typ, diverges).1,
        ),
{
    broadcast use {
        group_kept,
        keeps_method_of,
        keeps_with_evidence,
        keeps_pushed,
        keeps_terminated,
    };

    reveal(Lowering::method_called);
}

broadcast proof fn keeps_trait_method_called(
    s: Lowering,
    callee: ExprId,
    operation: DefinitionId,
    index: u32,
    arguments: Seq<Value>,
    typ: Type,
    diverges: bool,
)
    ensures
        kept(
            s,
            (#[trigger] s.trait_method_called(
                callee,
                operation,
                index,
                arguments,
                typ,
                diverges,
            )).1,
        ),
        settled(
            s,
            s.trait_method_called(
                callee,
                operation,
                index,
                arguments,
                typ,
                diverges,
            ).1,
        ),
{
    broadcast use {group_kept, keeps_with_op_index, keeps_fails, keeps_method_called};

    reveal(Lowering::trait_method_called);
}

broadcast proof fn keeps_operation_called(
    s: Lowering,
    callee: ExprId,
    operation: DefinitionId,
    index: u32,
    arguments: Seq<Value>,
    typ: Type,
    diverges: bool,
)
    ensures
        kept(
            s,
            (#[trigger] s.operation_called(callee, operation, index, arguments, typ, diverges)).1,
        ),
        settled(
            s,
            s.operation_called(callee, operation, index, arguments, typ, diverges).1,
        ),
{
    broadcast use {
        group_kept,
        keeps_with_op_index,
        keeps_capability_taken,
        keeps_method_called,
        keeps_fails,
    };

    reveal(Lowering::operation_called);
}

broadcast proof fn keeps_ability_method(s: Lowering, path: PathId)
    ensures
        kept(s, (#[trigger] s.ability_method(path)).1),
        settled(s, s.ability_method(path).1),
{
    broadcast use {group_kept, keeps_id_of};

    reveal(Lowering::ability_method);
}

broadcast proof fn keeps_operation_wrapper(s: Lowering, path: PathId, index: u32)
    ensures
        kept(s, (#[trigger] s.operation_wrapper(path, index)).1),
        settled(s, s.operation_wrapper(path, index).1),
{
    broadcast use {
        group_kept,
        carries_isolated,
        keeps_operation_wrapper_body,
        carries_isolated_finished,
        soundness_is_kept,
        a_lone_block_stays,
        keeps_definition_value,
        kept_is_carried,
        carried_is_transitive,
        back_is_kept,
        back_is_settled,
    };

    reveal(Lowering::operation_wrapper);
}

broadcast proof fn keeps_operation_wrapper_body(
    s: Lowering,
    parameters: Seq<Type>,
    return_type: Type,
    index: u32,
)
    ensures
        kept(s, #[trigger] s.operation_wrapper_body(parameters, return_type, index)),
        settled(s, s.operation_wrapper_body(parameters, return_type, index)),
        s.is_lone() ==> s.operation_wrapper_body(parameters, return_type, index).in_ended(),
{
    broadcast use {
        group_kept,
        keeps_with_parameters,
        keeps_pushed,
        keeps_method_of,
        keeps_terminated,
        the_last_block_ends,
        keeps_fails,
        a_lone_block_stays,
    };

    reveal(Lowering::operation_wrapper_body);
}

broadcast proof fn keeps_extern_wrapper(
    s: Lowering,
    target: DefinitionId,
    name: Seq<char>,
    uniform: Type,
)
    ensures
        kept(s, (#[trigger] s.extern_wrapper(target, name, uniform)).1),
        settled(s, s.extern_wrapper(target, name, uniform).1),
{
    broadcast use {
        group_kept,
        carries_isolated,
        keeps_extern_wrapper_body,
        carries_isolated_finished,
        soundness_is_kept,
        a_lone_block_stays,
        keeps_definition_value,
        kept_is_carried,
        carried_is_transitive,
        back_is_kept,
        back_is_settled,
    };

    reveal(Lowering::extern_wrapper);
}

broadcast proof fn keeps_extern_wrapper_body(
    s: Lowering,
    target: DefinitionId,
    parameters: Seq<Type>,
    return_type: Type,
)
    ensures
        kept(s, #[trigger] s.extern_wrapper_body(target, parameters, return_type)),
        settled(s, s.extern_wrapper_body(target, parameters, return_type)),
        s.is_lone() ==> s.extern_wrapper_body(target, parameters, return_type).in_ended(),
{
    broadcast use {
        group_kept,
        keeps_with_parameters,
        keeps_pushed,
        keeps_terminated,
        the_last_block_ends,
        a_lone_block_stays,
    };

    reveal(Lowering::extern_wrapper_body);
}

broadcast proof fn keeps_capability_environments(
    s: Lowering,
    capability: Value,
    fields: Seq<Type>,
    environments: Seq<Value>,
    count: int,
)
    ensures
        kept(s, (#[trigger] s.capability_environments(capability, fields, environments, count)).1),
        settled(s, s.capability_environments(capability, fields, environments, count).1),
    decreases count,
{
    broadcast use {group_kept, keeps_pushed};

    reveal(Lowering::capability_environments);
    if count > 0 {
        keeps_capability_environments(s, capability, fields, environments, count - 1);
    }
}

broadcast proof fn keeps_all_freed(s: Lowering, environments: Seq<Value>, count: int)
    ensures
        kept(s, #[trigger] s.all_freed(environments, count)),
        settled(s, s.all_freed(environments, count)),
    decreases count,
{
    broadcast use {group_kept, keeps_pushed};

    reveal(Lowering::all_freed);
    if count > 0 {
        keeps_all_freed(s, environments, count - 1);
    }
}

broadcast proof fn keeps_string_made(s: Lowering, text: Seq<char>)
    ensures
        kept(s, (#[trigger] s.string_made(text)).1),
        settled(s, s.string_made(text).1),
{
    broadcast use {group_kept, keeps_pushed};

    reveal(Lowering::string_made);
}

broadcast proof fn keeps_literal_made(s: Lowering, literal: Literal, expr: ExprId)
    ensures
        kept(s, (#[trigger] s.literal_made(literal, expr)).1),
        settled(s, s.literal_made(literal, expr).1),
{
    broadcast use {group_kept, keeps_string_made};

    reveal(Lowering::literal_made);
}

broadcast proof fn keeps_name_bound(s: Lowering, name: NameId, value: Value)
    ensures
        kept(s, #[trigger] s.name_bound(name, value)),
        settled(s, s.name_bound(name, value)),
{
    broadcast use {group_kept, keeps_with_variable};

    reveal(Lowering::name_bound);
}

broadcast proof fn keeps_bound(s: Lowering, pattern: PatternId, value: Value, depth: nat)
    ensures
        kept(s, #[trigger] s.bound(pattern, value, depth)),
        settled(s, s.bound(pattern, value, depth)),
    decreases depth, 0nat, 0int,
{
    broadcast use {group_kept, keeps_fails, keeps_name_bound, keeps_dereferenced};

    if depth > 0 {
        match s.answers.context@.pattern(pattern) {
            PatternForm::TypeAnnotation(inner) => {
                keeps_bound(s, inner, value, (depth - 1) as nat);
            },
            PatternForm::Alias(name, inner) => {
                keeps_bound(s.name_bound(name, value), inner, value, (depth - 1) as nat);
            },
            PatternForm::Constructor(_, arguments) => {
                let (inner, made) = s.dereferenced(value, s.pattern_type(pattern));
                match made.value_type(inner).fields() {
                    Some(fields) => {
                        let count = if fields.len() < arguments.len() {
                            fields.len() as int
                        } else {
                            arguments.len() as int
                        };
                        field_binding_keeps(
                            made,
                            inner,
                            fields,
                            arguments,
                            count,
                            (depth - 1) as nat,
                        );
                    },
                    None => {},
                }
            },
            _ => {},
        }
    }
}

proof fn field_binding_keeps(
    s: Lowering,
    value: Value,
    fields: Seq<Type>,
    patterns: Seq<PatternId>,
    count: int,
    depth: nat,
)
    ensures
        kept(s, s.fields_bound(value, fields, patterns, count, depth)),
        settled(s, s.fields_bound(value, fields, patterns, count, depth)),
    decreases depth, 1nat, count,
{
    broadcast use {group_kept, keeps_pushed};

    if count > 0 {
        field_binding_keeps(s, value, fields, patterns, count - 1, depth);
        let made = s.fields_bound(value, fields, patterns, count - 1, depth);
        let (field, made) = made.pushed(
            Operation::IndexTuple { tuple: value, index: (count - 1) as u32 },
            fields[count - 1],
        );
        keeps_bound(made, patterns[count - 1], field, depth);
    }
}

broadcast proof fn keeps_pattern_bound(s: Lowering, pattern: PatternId, value: Value)
    ensures
        kept(s, #[trigger] s.pattern_bound(pattern, value)),
        settled(s, s.pattern_bound(pattern, value)),
{
    broadcast use {group_kept, keeps_bound};

    reveal(Lowering::pattern_bound);
}

broadcast proof fn keeps_made_mutable(s: Lowering, names: Seq<NameId>, count: int)
    ensures
        kept(s, #[trigger] s.made_mutable(names, count)),
        settled(s, s.made_mutable(names, count)),
    decreases count,
{
    broadcast use {
        group_kept,
        keeps_pushed,
        keeps_with_local,
        keeps_with_mutable_local,
        keeps_fails,
    };

    reveal(Lowering::made_mutable);
    if count > 0 {
        keeps_made_mutable(s, names, count - 1);
    }
}

broadcast proof fn keeps_path_value(s: Lowering, path: PathId)
    ensures
        kept(s, (#[trigger] s.path_value(path)).1),
        settled(s, s.path_value(path).1),
{
    broadcast use {
        group_kept,
        keeps_id_of,
        keeps_definition_value,
        keeps_extern_wrapper,
        keeps_fails,
        keeps_pushed,
    };

    reveal(Lowering::path_value);
}

broadcast proof fn keeps_instantiated(s: Lowering, path: PathId, value: Value)
    ensures
        kept(s, (#[trigger] s.instantiated(path, value)).1),
        settled(s, s.instantiated(path, value).1),
{
    broadcast use {group_kept, keeps_pushed};

    reveal(Lowering::instantiated);
}

broadcast proof fn keeps_variable_made(s: Lowering, path: PathId)
    ensures
        kept(s, (#[trigger] s.variable_made(path)).1),
        settled(s, s.variable_made(path).1),
{
    broadcast use {
        group_kept,
        keeps_ability_method,
        keeps_with_op_index,
        keeps_operation_wrapper,
        keeps_path_value,
        keeps_instantiated,
    };

    reveal(Lowering::variable_made);
}

broadcast proof fn keeps_with_plain_parameters(s: Lowering, types: Seq<Type>, count: int)
    ensures
        kept(s, #[trigger] s.with_plain_parameters(types, count)),
        settled(s, s.with_plain_parameters(types, count)),
    decreases count,
{
    broadcast use {group_kept, keeps_with_parameter};

    reveal(Lowering::with_plain_parameters);
    if count > 0 {
        keeps_with_plain_parameters(s, types, count - 1);
    }
}

broadcast proof fn keeps_copy_body(s: Lowering, parameters: Seq<Type>)
    ensures
        kept(s, #[trigger] s.copy_body(parameters)),
        settled(s, s.copy_body(parameters)),
        s.is_lone() ==> s.copy_body(parameters).in_ended(),
{
    broadcast use {
        group_kept,
        keeps_with_plain_parameters,
        keeps_pushed,
        keeps_terminated,
        the_last_block_ends,
        a_lone_block_stays,
    };

    reveal(Lowering::copy_body);
}

broadcast proof fn keeps_copy_impl_made(s: Lowering, impl_type: Type, method: FunctionType)
    ensures
        kept(s, (#[trigger] s.copy_impl_made(impl_type, method)).1),
        settled(s, s.copy_impl_made(impl_type, method).1),
{
    broadcast use {
        group_kept,
        carries_definition_started,
        keeps_copy_body,
        carries_definition_finished,
        soundness_is_kept,
        a_lone_block_stays,
        keeps_definition_value,
        keeps_pushed,
        kept_is_carried,
        carried_is_transitive,
        back_is_kept,
        back_is_settled,
    };

    reveal(Lowering::copy_impl_made);
}

broadcast proof fn keeps_packed_without_env(s: Lowering, value: Value, expected: Type)
    ensures
        kept(s, (#[trigger] s.packed_without_env(value, expected)).1),
        settled(s, s.packed_without_env(value, expected).1),
{
    broadcast use {group_kept, keeps_pushed};

    reveal(Lowering::packed_without_env);
}

broadcast proof fn keeps_field_wrapper_body(
    s: Lowering,
    expected: FunctionType,
    target: (DefinitionId, Option<Seq<Type>>),
    target_type: Type,
)
    ensures
        kept(s, #[trigger] s.field_wrapper_body(expected, target, target_type)),
        settled(s, s.field_wrapper_body(expected, target, target_type)),
        s.is_lone() ==> s.field_wrapper_body(expected, target, target_type).in_ended(),
{
    broadcast use {
        group_kept,
        keeps_with_plain_parameters,
        keeps_with_parameter,
        keeps_target_value,
        keeps_pushed,
        keeps_terminated,
        the_last_block_ends,
        a_lone_block_stays,
    };

    reveal(Lowering::field_wrapper_body);
}

broadcast proof fn keeps_field_wrapped(
    s: Lowering,
    expected: FunctionType,
    target: (DefinitionId, Option<Seq<Type>>),
    target_type: Type,
)
    ensures
        kept(s, (#[trigger] s.field_wrapped(expected, target, target_type)).1),
        settled(s, s.field_wrapped(expected, target, target_type).1),
{
    broadcast use {
        group_kept,
        carries_definition_started,
        keeps_field_wrapper_body,
        carries_definition_finished,
        soundness_is_kept,
        a_lone_block_stays,
        keeps_definition_value,
        keeps_packed_without_env,
        kept_is_carried,
        carried_is_transitive,
        back_is_kept,
        back_is_settled,
    };

    reveal(Lowering::field_wrapped);
}

broadcast proof fn keeps_field_coerced(s: Lowering, value: Value, expected: Option<Type>)
    ensures
        kept(s, (#[trigger] s.field_coerced(value, expected)).1),
        settled(s, s.field_coerced(value, expected).1),
{
    broadcast use {group_kept, keeps_field_wrapped, keeps_packed_without_env};

    reveal(Lowering::field_coerced);
}

broadcast proof fn keeps_argument_counted(
    s: Lowering,
    argument: Argument,
    value: Value,
    borrowed: bool,
    pure: bool,
    is_release: bool,
)
    ensures
        kept(s, (#[trigger] s.argument_counted(argument, value, borrowed, pure, is_release)).1),
        settled(s, s.argument_counted(argument, value, borrowed, pure, is_release).1),
        s.argument_counted(argument, value, borrowed, pure, is_release) matches (
            Some(pending),
            after,
        ) ==> after.was_retained(pending),
{
    broadcast use {group_kept, keeps_pushed, keeps_retained_if_place};

    reveal(Lowering::argument_counted);
    pushing_gives_the_last(s, Operation::RcRetain(value), Type::unit());
}

broadcast proof fn keeps_arguments_lowered(
    s: Lowering,
    lower: Lower,
    function: Value,
    callee: ExprId,
    arguments: Seq<Argument>,
    mask: Option<Seq<bool>>,
    pure: bool,
    is_release: bool,
    count: int,
)
    requires
        keeps(lower),
    ensures
        kept(
            s,
            (#[trigger] s.arguments_lowered(
                lower,
                function,
                callee,
                arguments,
                mask,
                pure,
                is_release,
                count,
            )).2,
        ),
        settled(
            s,
            s.arguments_lowered(
                lower,
                function,
                callee,
                arguments,
                mask,
                pure,
                is_release,
                count,
            ).2,
        ),
        ({
            let (_, pending, after) = s.arguments_lowered(
                lower,
                function,
                callee,
                arguments,
                mask,
                pure,
                is_release,
                count,
            );
            forall|i: int| 0 <= i < pending.len() ==> after.was_retained(#[trigger] pending[i])
        }),
    decreases count,
{
    broadcast use {group_kept, keeps_argument_counted, keeps_coerced};

    reveal(Lowering::arguments_lowered);
    if count > 0 {
        keeps_arguments_lowered(s, lower, function, callee, arguments, mask, pure, is_release, count - 1);
        let (_, known, before) = s.arguments_lowered(
            lower,
            function,
            callee,
            arguments,
            mask,
            pure,
            is_release,
            count - 1,
        );
        let argument = arguments[count - 1];
        let (value, made) = lower(before, argument.expr);
        let (more, counted) = made.argument_counted(
            argument,
            value,
            borrows(mask, explicit_count(arguments, count - 1)),
            pure,
            is_release,
        );
        let (_, after) = counted.coerced(value, function, callee, count - 1);
        assert(kept(before, after));
        assert forall|i: int| 0 <= i < known.len() implies after.was_retained(
            #[trigger] known[i],
        ) by {
            pending_stays(before, after, known[i], None, Seq::empty());
        }
        if more matches Some(pending) {
            pending_stays(counted, after, more.unwrap(), None, Seq::empty());
        }
    }
}

/// The release of a handle is behind all there was.
proof fn releasing_comes_last(s: Lowering, value: Value, expr: ExprId)
    ensures
        ({
            let (release, after) = s.expr_released(value, expr);
            after.is_limited() ==> (release matches Some(Value::InstructionResult(id)) ==> {
                &&& s.function is Some
                &&& s.function.unwrap().instructions.len() <= id
                &&& after.operation_of(release.unwrap()) matches Some(
                    Operation::Call { arguments, .. },
                )
                &&& arguments == seq![value]
            })
        }),
{
    broadcast use {
        kept_is_transitive,
        settled_is_transitive,
        keeps_id_of,
        keeps_definition_value,
        keeps_pushed,
    };

    reveal(Lowering::expr_released);
    reveal(Lowering::release_called);
    match s.shared_target(s.follow(s.expr_type(expr))) {
        Some((item, args)) => {
            let (id, made) = s.id_of(
                TopLevelName { top_level_item: item, local_name_id: RELEASE_FUNCTION },
            );
            let (function, made) = if args.len() == 0 {
                made.definition_value(id, "release"@, release_signature())
            } else {
                made.pushed(Operation::Instantiate(id, made.layouts_of(args)), release_signature())
            };
            assert(kept(s, made));
            pushing_gives_the_last(
                made,
                Operation::Call { function, arguments: seq![value] },
                Type::unit(),
            );
            reveal(kept);
        },
        None => {},
    }
}

proof fn making_releases_keeps(
    s: Lowering,
    pending: Seq<Pending>,
    call: Option<InstructionId>,
    implicit_args: Seq<u32>,
    count: int,
)
    requires
        count <= pending.len(),
        forall|i: int|
            0 <= i < pending.len() ==> s.is_pending(#[trigger] pending[i], call, implicit_args),
    ensures
        kept(s, s.releases_made(pending, call, implicit_args, count)),
        settled(s, s.releases_made(pending, call, implicit_args, count)),
    decreases count,
{
    broadcast use {group_kept, keeps_expr_released};

    reveal(Lowering::releases_made);
    if count > 0 {
        making_releases_keeps(s, pending, call, implicit_args, count - 1);
        let before = s.releases_made(pending, call, implicit_args, count - 1);
        let (value, expr, retain) = pending[count - 1];
        let (release, made) = before.expr_released(value, expr);
        assert(kept(s, made));
        pending_stays(s, made, pending[count - 1], call, implicit_args);
        releasing_comes_last(before, value, expr);
        match (retain, call, release) {
            (Some(retain), Some(call), Some(Value::InstructionResult(release_call))) => {
                pending_stays(s, before, pending[count - 1], Some(call), implicit_args);
                assert(made.is_limited() ==> before.is_limited()) by {
                    reveal(kept);
                    reveal(left);
                    assert(kept(before, made));
                }
                noting_a_pair_keeps(made, Pair { retain, release_call, call, implicit_args });
            },
            _ => {},
        }
    }
}

/// The positions of implicit arguments are positions of arguments.
proof fn implicit_places_are_within(arguments: Seq<Argument>, count: int, values: Seq<Value>)
    requires
        0 <= count <= values.len(),
    ensures
        all_within(implicit_places(arguments, count), values),
    decreases count,
{
    if count > 0 {
        implicit_places_are_within(arguments, count - 1, values);
    }
}

/// Each argument has a value.
proof fn all_arguments_are_lowered(
    s: Lowering,
    lower: Lower,
    function: Value,
    callee: ExprId,
    arguments: Seq<Argument>,
    mask: Option<Seq<bool>>,
    pure: bool,
    is_release: bool,
    count: int,
)
    requires
        0 <= count,
    ensures
        s.arguments_lowered(
            lower,
            function,
            callee,
            arguments,
            mask,
            pure,
            is_release,
            count,
        ).0.len() == count,
    decreases count,
{
    reveal(Lowering::arguments_lowered);
    if count > 0 {
        all_arguments_are_lowered(
            s,
            lower,
            function,
            callee,
            arguments,
            mask,
            pure,
            is_release,
            count - 1,
        );
    }
}

impl Lowering {
    /// The evidence of a call comes behind its arguments, of which none is left out: what was noted
    /// of the positions of arguments holds of what is passed.
    pub proof fn law_evidence_comes_last(
        self,
        lower: Lower,
        function: Value,
        callee: ExprId,
        arguments: Seq<Argument>,
        mask: Option<Seq<bool>>,
        pure: bool,
        is_release: bool,
    )
        ensures
            ({
                let (values, _, made) = self.arguments_lowered(
                    lower,
                    function,
                    callee,
                    arguments,
                    mask,
                    pure,
                    is_release,
                    arguments.len() as int,
                );
                let all = made.with_evidence(callee, function, values).0;
                &&& values.len() == arguments.len()
                &&& values.is_prefix_of(all)
                &&& all.len() <= arguments.len() + 1
                &&& all_within(implicit_places(arguments, arguments.len() as int), values)
            }),
    {
        all_arguments_are_lowered(
            self,
            lower,
            function,
            callee,
            arguments,
            mask,
            pure,
            is_release,
            arguments.len() as int,
        );
        let (values, _, made) = self.arguments_lowered(
            lower,
            function,
            callee,
            arguments,
            mask,
            pure,
            is_release,
            arguments.len() as int,
        );
        reveal(Lowering::with_evidence);
        implicit_places_are_within(arguments, arguments.len() as int, values);
    }
}

/// What is retained for the sake of a call is retained before it.
proof fn calling_follows_retaining(
    s: Lowering,
    function: Value,
    values: Seq<Value>,
    typ: Type,
    pending: Pending,
    positions: Seq<u32>,
)
    requires
        s.was_retained(pending),
        all_within(positions, values),
    ensures
        ({
            let (value, after) = s.called(function, values, typ);
            after.is_pending(pending, instruction_id(value), positions)
        }),
{
    reveal(Lowering::called);
    let call = Operation::Call { function, arguments: values };
    let closure_call = Operation::CallClosure { closure: function, arguments: values };
    pushing_gives_the_last(s, call, typ);
    pushing_gives_the_last(s, closure_call, typ);
    keeps_pushed(s, call, typ);
    keeps_pushed(s, closure_call, typ);
    let after = s.called(function, values, typ).1;
    assert(kept(s, after));
    pending_stays(s, after, pending, None, positions);
    reveal(kept);
}

broadcast proof fn keeps_plain_call_lowered(
    s: Lowering,
    lower: Lower,
    callee: ExprId,
    arguments: Seq<Argument>,
    typ: Type,
    diverges: bool,
)
    requires
        keeps(lower),
    ensures
        kept(s, (#[trigger] s.plain_call_lowered(lower, callee, arguments, typ, diverges)).1),
        settled(s, s.plain_call_lowered(lower, callee, arguments, typ, diverges).1),
{
    broadcast use {
        group_kept,
        keeps_arguments_lowered,
        keeps_with_evidence,
        keeps_called,
        keeps_terminated,
    };

    reveal(Lowering::plain_call_lowered);
    let is_release = s.is_release_callee(callee);
    let mask = if is_release {
        None
    } else {
        s.callee_mask(callee)
    };
    let pure = mask is Some && s.implicits_are_pure(arguments);
    let implicit_args = if is_release {
        Seq::empty()
    } else {
        implicit_places(arguments, arguments.len() as int)
    };
    let (function, entered) = lower(s, callee);
    let (values, pending, counted) = entered.arguments_lowered(
        lower,
        function,
        callee,
        arguments,
        mask,
        pure,
        is_release,
        arguments.len() as int,
    );
    let (all, made) = counted.with_evidence(callee, function, values);
    entered.law_evidence_comes_last(lower, function, callee, arguments, mask, pure, is_release);
    let typ = if diverges {
        Type::unit()
    } else {
        made.call_layout(function, typ)
    };
    let (value, called) = made.called(function, all, typ);
    implicit_places_are_within(arguments, arguments.len() as int, all);
    assert forall|i: int| 0 <= i < pending.len() implies called.is_pending(
        #[trigger] pending[i],
        instruction_id(value),
        implicit_args,
    ) by {
        assert(kept(counted, made));
        pending_stays(counted, made, pending[i], None, Seq::empty());
        calling_follows_retaining(made, function, all, typ, pending[i], implicit_args);
    }
    making_releases_keeps(
        called,
        pending,
        instruction_id(value),
        implicit_args,
        pending.len() as int,
    );
}

broadcast proof fn keeps_drop_capability(
    s: Lowering,
    lower: Lower,
    expr: ExprId,
    frees: Seq<Value>,
    depth: nat,
)
    requires
        keeps(lower),
    ensures
        kept(s, (#[trigger] s.drop_capability(lower, expr, frees, depth)).2),
        settled(s, s.drop_capability(lower, expr, frees, depth).2),
    decreases depth, 0nat, 0int,
{
    broadcast use {group_kept, keeps_fails, keeps_capability_applied};

    if depth > 0 {
        match s.answers.context@.expr(expr) {
            ExprForm::Call { function: callee, arguments } => {
                let (function, made) = lower(s, callee);
                drop_arguments_keep(
                    made,
                    lower,
                    function,
                    callee,
                    arguments,
                    frees,
                    arguments.len() as int,
                    (depth - 1) as nat,
                );
            },
            _ => {},
        }
    }
}

proof fn drop_arguments_keep(
    s: Lowering,
    lower: Lower,
    function: Value,
    callee: ExprId,
    arguments: Seq<Argument>,
    frees: Seq<Value>,
    count: int,
    depth: nat,
)
    requires
        keeps(lower),
    ensures
        kept(
            s,
            s.drop_arguments(lower, function, callee, arguments, frees, count, depth).2,
        ),
        settled(
            s,
            s.drop_arguments(lower, function, callee, arguments, frees, count, depth).2,
        ),
    decreases depth, 1nat, count,
{
    broadcast use {group_kept, keeps_coerced};

    if count > 0 {
        drop_arguments_keep(
            s,
            lower,
            function,
            callee,
            arguments,
            frees,
            count - 1,
            depth,
        );
        let (_, frees, made) = s.drop_arguments(
            lower,
            function,
            callee,
            arguments,
            frees,
            count - 1,
            depth,
        );
        keeps_drop_capability(made, lower, arguments[count - 1].expr, frees, depth);
    }
}

broadcast proof fn keeps_capability_applied(
    s: Lowering,
    function: Value,
    callee: ExprId,
    values: Seq<Value>,
    frees: Seq<Value>,
    expr: ExprId,
)
    ensures
        kept(s, (#[trigger] s.capability_applied(function, callee, values, frees, expr)).2),
        settled(s, s.capability_applied(function, callee, values, frees, expr).2),
{
    broadcast use {group_kept, keeps_with_evidence, keeps_called, keeps_capability_environments};

    reveal(Lowering::capability_applied);
}

broadcast proof fn keeps_method_arguments(
    s: Lowering,
    lower: Lower,
    arguments: Seq<Argument>,
    is_drop: bool,
    count: int,
)
    requires
        keeps(lower),
    ensures
        kept(s, (#[trigger] s.method_arguments(lower, arguments, is_drop, count)).2),
        settled(s, s.method_arguments(lower, arguments, is_drop, count).2),
    decreases count,
{
    broadcast use {group_kept, keeps_drop_capability, keeps_retained_if_place};

    reveal(Lowering::method_arguments);
    if count > 0 {
        keeps_method_arguments(s, lower, arguments, is_drop, count - 1);
    }
}

broadcast proof fn keeps_method_call_lowered(
    s: Lowering,
    lower: Lower,
    callee: ExprId,
    path: PathId,
    method: (u32, u32, AbilityKind),
    arguments: Seq<Argument>,
    expr: ExprId,
    typ: Type,
    diverges: bool,
)
    requires
        keeps(lower),
    ensures
        kept(
            s,
            (#[trigger] s.method_call_lowered(
                lower,
                callee,
                path,
                method,
                arguments,
                expr,
                typ,
                diverges,
            )).1,
        ),
        settled(
            s,
            s.method_call_lowered(
                lower,
                callee,
                path,
                method,
                arguments,
                expr,
                typ,
                diverges,
            ).1,
        ),
{
    broadcast use {
        group_kept,
        keeps_method_arguments,
        keeps_trait_method_called,
        keeps_operation_called,
        keeps_fails,
        keeps_all_freed,
        keeps_value_retained,
    };

    reveal(Lowering::method_call_lowered);
}

broadcast proof fn keeps_intrinsic_lowered(
    s: Lowering,
    lower: Lower,
    operation: u32,
    arguments: Seq<Argument>,
    expr: ExprId,
)
    requires
        keeps(lower),
    ensures
        kept(s, (#[trigger] s.intrinsic_lowered(lower, operation, arguments, expr)).1),
        settled(s, s.intrinsic_lowered(lower, operation, arguments, expr).1),
{
    broadcast use {group_kept, keeps_all_lowered, keeps_pushed};

    reveal(Lowering::intrinsic_lowered);
}

broadcast proof fn keeps_call_lowered(
    s: Lowering,
    lower: Lower,
    callee: ExprId,
    arguments: Seq<Argument>,
    expr: ExprId,
)
    requires
        keeps(lower),
    ensures
        kept(s, (#[trigger] s.call_lowered(lower, callee, arguments, expr)).1),
        settled(s, s.call_lowered(lower, callee, arguments, expr).1),
{
    broadcast use {
        group_kept,
        keeps_intrinsic_lowered,
        keeps_ability_method,
        keeps_method_call_lowered,
        keeps_plain_call_lowered,
    };

    reveal(Lowering::call_lowered);
}

broadcast proof fn keeps_capabilities_taken(s: Lowering, effects: Seq<TCType>, count: int)
    ensures
        kept(s, (#[trigger] s.capabilities_taken(effects, count)).1),
        settled(s, s.capabilities_taken(effects, count).1),
    decreases count,
{
    broadcast use {group_kept, keeps_capability_taken};

    reveal(Lowering::capabilities_taken);
    if count > 0 {
        keeps_capabilities_taken(s, effects, count - 1);
    }
}

broadcast proof fn keeps_captured(s: Lowering, effects: TCType, role: LambdaRole)
    ensures
        kept(s, (#[trigger] s.captured(effects, role)).1),
        settled(s, s.captured(effects, role).1),
{
    broadcast use {group_kept, keeps_capabilities_taken};

    reveal(Lowering::captured);
}

broadcast proof fn keeps_parameters_bound(
    s: Lowering,
    parameters: Seq<Parameter>,
    types: Seq<Type>,
    count: int,
)
    ensures
        kept(s, #[trigger] s.parameters_bound(parameters, types, count)),
        settled(s, s.parameters_bound(parameters, types, count)),
    decreases count,
{
    broadcast use {
        group_kept,
        keeps_with_parameter,
        keeps_pattern_bound,
        keeps_pushed,
        keeps_with_local,
        keeps_with_mutable_local,
    };

    reveal(Lowering::parameters_bound);
    if count > 0 {
        keeps_parameters_bound(s, parameters, types, count - 1);
    }
}

broadcast proof fn keeps_capabilities_unpacked(
    s: Lowering,
    evidence: Value,
    typ: Type,
    effects: Seq<TCType>,
    count: int,
)
    ensures
        kept(s, (#[trigger] s.capabilities_unpacked(evidence, typ, effects, count)).2),
        settled(s, s.capabilities_unpacked(evidence, typ, effects, count).2),
    decreases count,
{
    broadcast use {group_kept, keeps_pushed, keeps_fails};

    reveal(Lowering::capabilities_unpacked);
    if count > 0 {
        keeps_capabilities_unpacked(s, evidence, typ, effects, count - 1);
        let (rest, rest_type, made) = s.capabilities_unpacked(evidence, typ, effects, count - 1);
        match rest_type.fields() {
            Some(fields) => {
                let (capability, made) = made.pushed(
                    Operation::IndexTuple { tuple: rest, index: 0 },
                    fields[0],
                );
                let more = Lowering {
                    effects: made.effects.push((effects[count - 1], capability)),
                    ..made
                };
                assert(kept(made, more) && settled(made, more)) by {
                    reveal(kept);
                    reveal(left);
                    reveal(carried);
                }
            },
            None => {},
        }
    }
}

broadcast proof fn keeps_evidence_unpacked(s: Lowering, effects: TCType)
    ensures
        kept(s, #[trigger] s.evidence_unpacked(effects)),
        settled(s, s.evidence_unpacked(effects)),
{
    broadcast use {group_kept, keeps_with_capability_parameter, keeps_capabilities_unpacked};

    reveal(Lowering::evidence_unpacked);
    let typ = s.evidence_layout(effects);
    let (concretes, _) = s.row(effects);
    let (evidence, made) = s.with_capability_parameter(typ);
    let (rest, _, made) = made.capabilities_unpacked(
        evidence,
        typ,
        concretes,
        concretes.len() as int,
    );
    let open = Lowering { bundle: Some(rest), ..made };
    assert(kept(made, open) && settled(made, open)) by {
        reveal(kept);
        reveal(left);
        reveal(carried);
    }
}

broadcast proof fn keeps_names_unpacked(
    s: Lowering,
    environment: Value,
    fields: Seq<Type>,
    names: Seq<NameId>,
    count: int,
)
    ensures
        kept(s, #[trigger] s.names_unpacked(environment, fields, names, count)),
        settled(s, s.names_unpacked(environment, fields, names, count)),
    decreases count,
{
    broadcast use {group_kept, keeps_pushed, keeps_with_local, keeps_fails};

    reveal(Lowering::names_unpacked);
    if count > 0 {
        keeps_names_unpacked(s, environment, fields, names, count - 1);
    }
}

broadcast proof fn keeps_captured_unpacked(
    s: Lowering,
    environment: Value,
    fields: Seq<Type>,
    skipped: int,
    needed: Seq<(TCType, Value)>,
    count: int,
)
    ensures
        kept(s, #[trigger] s.captured_unpacked(environment, fields, skipped, needed, count)),
        settled(s, s.captured_unpacked(environment, fields, skipped, needed, count)),
    decreases count,
{
    broadcast use {group_kept, keeps_pushed};

    reveal(Lowering::captured_unpacked);
    if count > 0 {
        keeps_captured_unpacked(s, environment, fields, skipped, needed, count - 1);
        let made = s.captured_unpacked(environment, fields, skipped, needed, count - 1);
        let index = skipped + count - 1;
        let (value, made) = made.pushed(
            Operation::IndexTuple { tuple: environment, index: index as u32 },
            fields[index],
        );
        let more = Lowering {
            effects: made.effects.push((needed[count - 1].0, value)),
            ..made
        };
        assert(kept(made, more) && settled(made, more)) by {
            reveal(kept);
            reveal(left);
            reveal(carried);
        }
    }
}

broadcast proof fn keeps_fields_unpacked(
    s: Lowering,
    environment: Value,
    fields: Seq<Type>,
    names: Seq<NameId>,
    captured: Captured,
)
    ensures
        kept(s, #[trigger] s.fields_unpacked(environment, fields, names, captured)),
        settled(s, s.fields_unpacked(environment, fields, names, captured)),
{
    broadcast use {group_kept, keeps_names_unpacked, keeps_captured_unpacked, keeps_pushed};

    reveal(Lowering::fields_unpacked);
    let made = s.names_unpacked(
        environment,
        fields,
        names,
        names.len() as int,
    ).captured_unpacked(
        environment,
        fields,
        names.len() as int,
        captured.needed,
        captured.needed.len() as int,
    );
    let index = names.len() + captured.needed.len();
    let (value, made) = made.pushed(
        Operation::IndexTuple { tuple: environment, index: index as u32 },
        fields[index as int],
    );
    let open = Lowering { bundle: Some(value), ..made };
    assert(kept(made, open) && settled(made, open)) by {
        reveal(kept);
        reveal(left);
        reveal(carried);
    }
}

broadcast proof fn keeps_env_unpacked(
    s: Lowering,
    names: Seq<NameId>,
    captured: Captured,
    environment: Value,
)
    ensures
        kept(s, #[trigger] s.env_unpacked(names, captured, environment)),
        settled(s, s.env_unpacked(names, captured, environment)),
{
    broadcast use {group_kept, keeps_pushed, keeps_fields_unpacked, keeps_fails};

    reveal(Lowering::env_unpacked);
}

broadcast proof fn keeps_with_mutable_locals(s: Lowering, names: Seq<NameId>, count: int)
    ensures
        kept(s, #[trigger] s.with_mutable_locals(names, count)),
        settled(s, s.with_mutable_locals(names, count)),
    decreases count,
{
    broadcast use {group_kept, keeps_with_mutable_local};

    reveal(Lowering::with_mutable_locals);
    if count > 0 {
        keeps_with_mutable_locals(s, names, count - 1);
    }
}

broadcast proof fn keeps_environment_taken(
    s: Lowering,
    expr: ExprId,
    captured: Captured,
    mutable: Seq<NameId>,
    environment: Type,
    index: u32,
)
    ensures
        kept(s, #[trigger] s.environment_taken(expr, captured, mutable, environment, index)),
        settled(s, s.environment_taken(expr, captured, mutable, environment, index)),
{
    broadcast use {
        group_kept,
        keeps_with_parameter,
        keeps_env_unpacked,
        keeps_with_mutable_locals,
    };

    reveal(Lowering::environment_taken);
}

broadcast proof fn keeps_handler_bound(s: Lowering, name: NameId, expr: ExprId)
    ensures
        kept(s, #[trigger] s.handler_bound(name, expr)),
        settled(s, s.handler_bound(name, expr)),
{
    broadcast use {group_kept, keeps_pushed, keeps_with_local};

    reveal(Lowering::handler_bound);
    let bound = s.handler_bound(name, expr);
    let typ = s.name_type(name).substituted(
        s.answers.bindings@,
        crate::ids::NESTING_LIMIT as nat,
    );
    let (capability, made) = s.pushed(Operation::Capability, s.capability_layout(typ));
    let made = made.with_local(name, capability);
    assert(kept(made, bound) && settled(made, bound)) by {
        reveal(kept);
        reveal(left);
        reveal(carried);
    }
}

broadcast proof fn keeps_self_bound(
    s: Lowering,
    name: NameId,
    needs_env: bool,
    index: u32,
    typ: Type,
)
    ensures
        kept(s, #[trigger] s.self_bound(name, needs_env, index, typ)),
        settled(s, s.self_bound(name, needs_env, index, typ)),
{
    broadcast use {group_kept, keeps_pushed, keeps_with_local, keeps_fails};

    reveal(Lowering::self_bound);
}

broadcast proof fn keeps_lambda_entered(
    s: Lowering,
    shape: LambdaShape,
    parameters: Seq<Parameter>,
    parameter_types: Seq<Type>,
    effects: TCType,
    captured: Captured,
    mutable: Seq<NameId>,
    environment: Type,
    typ: Type,
)
    ensures
        kept(
            s,
            #[trigger] s.lambda_entered(
                shape,
                parameters,
                parameter_types,
                effects,
                captured,
                mutable,
                environment,
                typ,
            ),
        ),
        settled(
            s,
            s.lambda_entered(
                shape,
                parameters,
                parameter_types,
                effects,
                captured,
                mutable,
                environment,
                typ,
            ),
        ),
{
    broadcast use {
        group_kept,
        keeps_parameters_bound,
        keeps_evidence_unpacked,
        keeps_environment_taken,
        keeps_handler_bound,
        keeps_self_bound,
    };

    reveal(Lowering::lambda_entered);
}

broadcast proof fn keeps_lambda_body(s: Lowering, lower: Lower, body: ExprId)
    requires
        keeps(lower),
    ensures
        kept(s, #[trigger] s.lambda_body(lower, body)),
        settled(s, s.lambda_body(lower, body)),
        s.is_lone() ==> s.lambda_body(lower, body).in_ended(),
{
    broadcast use {group_kept, keeps_terminated, the_last_block_ends, a_lone_block_stays};

    reveal(Lowering::lambda_body);
}

broadcast proof fn keeps_name_packed(s: Lowering, name: NameId, is_move: bool, borrowed: bool)
    ensures
        kept(s, (#[trigger] s.name_packed(name, is_move, borrowed)).1),
        settled(s, s.name_packed(name, is_move, borrowed).1),
{
    broadcast use {group_kept, keeps_fails, keeps_pushed};

    reveal(Lowering::name_packed);
}

broadcast proof fn keeps_names_packed(
    s: Lowering,
    names: Seq<NameId>,
    is_move: bool,
    borrowed: Seq<NameId>,
    count: int,
)
    ensures
        kept(s, (#[trigger] s.names_packed(names, is_move, borrowed, count)).1),
        settled(s, s.names_packed(names, is_move, borrowed, count).1),
    decreases count,
{
    broadcast use {group_kept, keeps_name_packed};

    reveal(Lowering::names_packed);
    if count > 0 {
        keeps_names_packed(s, names, is_move, borrowed, count - 1);
    }
}

broadcast proof fn keeps_env_packed(
    s: Lowering,
    names: Seq<NameId>,
    captured: Seq<Value>,
    is_move: bool,
    borrowed: Seq<NameId>,
    environment: Type,
)
    ensures
        kept(s, (#[trigger] s.env_packed(names, captured, is_move, borrowed, environment)).1),
        settled(s, s.env_packed(names, captured, is_move, borrowed, environment).1),
{
    broadcast use {group_kept, keeps_fails, keeps_names_packed, keeps_pushed};

    reveal(Lowering::env_packed);
}

broadcast proof fn keeps_closure_made(
    s: Lowering,
    shape: LambdaShape,
    text: Seq<char>,
    id: DefinitionId,
    captured: Captured,
    environment: Type,
    typ: Type,
)
    ensures
        kept(s, (#[trigger] s.closure_made(shape, text, id, captured, environment, typ)).1),
        settled(s, s.closure_made(shape, text, id, captured, environment, typ).1),
{
    broadcast use {
        group_kept,
        keeps_definition_value,
        keeps_pushed,
        keeps_env_packed,
        keeps_packed_without_env,
    };

    reveal(Lowering::closure_made);
}

broadcast proof fn keeps_lambda_defined(
    s: Lowering,
    lower: Lower,
    shape: LambdaShape,
    parameters: Seq<Parameter>,
    text: Seq<char>,
    effects: TCType,
    parameter_types: Seq<Type>,
    captured: Captured,
    environment: Type,
    typ: Type,
)
    requires
        keeps(lower),
    ensures
        kept(
            s,
            (#[trigger] s.lambda_defined(
                lower,
                shape,
                parameters,
                text,
                effects,
                parameter_types,
                captured,
                environment,
                typ,
            )).1,
        ),
        settled(
            s,
            s.lambda_defined(
                lower,
                shape,
                parameters,
                text,
                effects,
                parameter_types,
                captured,
                environment,
                typ,
            ).1,
        ),
{
    broadcast use {
        kept_is_carried,
        carried_is_transitive,
        carries_unscoped,
        carries_definition_started,
        carries_definition_finished,
        soundness_is_kept,
        a_lone_block_stays,
        keeps_lambda_entered,
        keeps_lambda_body,
    };

    reveal(Lowering::lambda_defined);
    let names = names_or_none(s.environment_of(shape.expr));
    let mutable = s.mutable_among(names, names.len() as int);
    let unlooped = s.without_loops();
    let (id, done) = unlooped.unscoped().definition_started(
        text,
        shape.name_id,
        s.generic_count(),
        typ,
    ).lambda_entered(
        shape,
        parameters,
        parameter_types,
        effects,
        captured,
        mutable,
        environment,
        typ,
    ).lambda_body(lower, shape.body).definition_finished(s);
    assert(carried(unlooped, done));
    assert(kept(s, done.looped_as(s).scoped_as(s)) && settled(
        s,
        done.looped_as(s).scoped_as(s),
    )) by {
        reveal(kept);
        reveal(left);
        reveal(carried);
        assert(done.function == s.function);
        kept_is_reflexive(s);
    }
}

broadcast proof fn keeps_lambda_lowered(
    s: Lowering,
    lower: Lower,
    shape: LambdaShape,
    parameters: Seq<Parameter>,
    text: Seq<char>,
)
    requires
        keeps(lower),
    ensures
        kept(s, (#[trigger] s.lambda_lowered(lower, shape, parameters, text)).1),
        settled(s, s.lambda_lowered(lower, shape, parameters, text).1),
{
    broadcast use {
        group_kept,
        keeps_captured,
        keeps_lambda_defined,
        keeps_closure_made,
        keeps_fails,
    };

    reveal(Lowering::lambda_lowered);
}

broadcast proof fn keeps_handler_lambda(s: Lowering, lower: Lower, expr: ExprId, role: LambdaRole)
    requires
        keeps(lower),
    ensures
        kept(s, (#[trigger] s.handler_lambda(lower, expr, role)).1),
        settled(s, s.handler_lambda(lower, expr, role).1),
{
    broadcast use {group_kept, keeps_lambda_lowered, keeps_fails};

    reveal(Lowering::handler_lambda);
}

broadcast proof fn keeps_handler_lowered(s: Lowering, lower: Lower, handler: HandleForm)
    requires
        keeps(lower),
    ensures
        kept(s, (#[trigger] s.handler_lowered(lower, handler)).1),
        settled(s, s.handler_lowered(lower, handler).1),
{
    broadcast use {
        group_kept,
        keeps_ability_method,
        keeps_with_op_index,
        keeps_handler_lambda,
        keeps_fails,
    };

    reveal(Lowering::handler_lowered);
}

broadcast proof fn keeps_handlers_lowered(
    s: Lowering,
    lower: Lower,
    handlers: Seq<HandleForm>,
    count: int,
)
    requires
        keeps(lower),
    ensures
        kept(s, (#[trigger] s.handlers_lowered(lower, handlers, count)).1),
        settled(s, s.handlers_lowered(lower, handlers, count).1),
    decreases count,
{
    broadcast use {group_kept, keeps_handler_lowered};

    reveal(Lowering::handlers_lowered);
    if count > 0 {
        keeps_handlers_lowered(s, lower, handlers, count - 1);
    }
}

broadcast proof fn keeps_handle_lowered(
    s: Lowering,
    lower: Lower,
    body: ExprId,
    handler: NameId,
    handlers: Seq<HandleForm>,
    expr: ExprId,
)
    requires
        keeps(lower),
    ensures
        kept(s, (#[trigger] s.handle_lowered(lower, body, handler, handlers, expr)).1),
        settled(s, s.handle_lowered(lower, body, handler, handlers, expr).1),
{
    broadcast use {group_kept, keeps_handler_lambda, keeps_handlers_lowered, keeps_pushed};

    reveal(Lowering::handle_lowered);
}

broadcast proof fn keeps_with_keyed_blocks(s: Lowering, cases: Seq<Case>, count: int)
    ensures
        kept(s, (#[trigger] s.with_keyed_blocks(cases, count)).1),
    decreases count,
{
    broadcast use {group_kept, keeps_fails, keeps_with_block};

    reveal(Lowering::with_keyed_blocks);
    if count > 0 {
        keeps_with_keyed_blocks(s, cases, count - 1);
    }
}

broadcast proof fn keeps_payloads_bound(
    s: Lowering,
    variant: Value,
    typ: Type,
    arguments: Seq<PathId>,
    count: int,
)
    ensures
        kept(s, #[trigger] s.payloads_bound(variant, typ, arguments, count)),
        settled(s, s.payloads_bound(variant, typ, arguments, count)),
    decreases count,
{
    broadcast use {group_kept, keeps_pushed, keeps_with_variable};

    reveal(Lowering::payloads_bound);
    if count > 0 {
        keeps_payloads_bound(s, variant, typ, arguments, count - 1);
    }
}

broadcast proof fn keeps_case_entered(
    s: Lowering,
    block: BlockId,
    value: Value,
    constructor: Constructor,
    arguments: Seq<PathId>,
)
    ensures
        kept(s, #[trigger] s.case_entered(block, value, constructor, arguments)),
{
    broadcast use {
        group_kept,
        keeps_switched_to,
        keeps_variant_of,
        keeps_payloads_bound,
        keeps_fails,
    };

    reveal(Lowering::case_entered);
}

/// A block is pending for each case.
proof fn opening_keyed(a: Lowering, s: Lowering, pending: Set<int>, cases: Seq<Case>, count: int)
    requires
        left(a, s, pending),
        count >= 0,
    ensures
        ({
            let (edges, made) = s.with_keyed_blocks(cases, count);
            let low = s.block_count();
            &&& edges.len() == count
            &&& made.block == s.block
            &&& made.function is Some <==> s.function is Some
            &&& s.function is Some ==> made.block_count() == low + count
            &&& s.function is Some && made.is_numbered() ==> forall|i: int|
                0 <= i < count ==> (#[trigger] edges[i]).1.0 == low + i
            &&& left(a, made, pending.union(blocks_between(low, low + count)))
        }),
    decreases count,
{
    broadcast use {settled_is_reflexive, keeps_fails};

    reveal(Lowering::with_keyed_blocks);
    let low = s.block_count();
    let all = pending.union(blocks_between(low, low + count));
    if count == 0 {
        assert(all =~= pending);
    } else {
        opening_keyed(a, s, pending, cases, count - 1);
        let before = s.with_keyed_blocks(cases, count - 1).1;
        let fewer = pending.union(blocks_between(low, low + count - 1));
        let made = match crate::mir::builder::matches::case_key(cases[count - 1].constructor) {
            Some(_) => before,
            None => before.fails(),
        };
        going_on(a, before, made, fewer);
        opening(a, made, fewer, Seq::empty());
        let (block, after) = made.with_block(Seq::empty());
        assert(after.function is Some && after.is_numbered() ==> fewer.insert(block as int)
            =~= all);
        left_as(a, after, fewer.insert(block as int), all);
    }
}

/// The blocks of the cases, the one behind them and the one that switches are pending where a
/// switch was entered.
proof fn entering_a_switch(s: Lowering, tag: PathId, cases: Seq<Case>, match_expr: ExprId)
    ensures
        ({
            let ((_, _, start, edges, end), made) = s.switch_entered(tag, cases, match_expr);
            let low = end - cases.len();
            &&& s.has_block() && made.is_numbered() ==> start < low && forall|i: int|
                0 <= i < cases.len() ==> (#[trigger] edges[i]).1.0 == low + i
            &&& parted(
                s,
                made,
                blocks_between(low, end as int).insert(end as int).insert(start as int),
            )
        }),
{
    broadcast use {group_kept, keeps_variable_made, keeps_dereferenced, keeps_tag_of};

    reveal(Lowering::switch_entered);
    let none = Set::<int>::empty();
    let count = cases.len() as int;
    let (value, made) = s.variable_made(tag);
    let (value, made) = made.dereferenced(value, s.path_type(tag));
    let (_, before) = made.tag_of(value);
    let start = before.block;
    assert(settled(s, before));
    opening_keyed(s, before, none, cases, count);
    let low = before.block_count();
    let (edges, made) = before.with_keyed_blocks(cases, count);
    let some = none.union(blocks_between(low, low + count));
    let types = seq![made.layout(made.expr_type(match_expr))];
    opening(s, made, some, types);
    let (end, after) = made.with_block(types);
    assert(after.function is Some <==> made.function is Some) by {
        reveal(Lowering::with_block);
    }
    let all = some.insert(end as int);
    setting_aside(s, after, all);
    let wanted = blocks_between(end - count, end as int).insert(end as int).insert(start as int);
    assert(s.has_block() ==> after.function is Some) by {
        reveal(left);
    }
    assert(s.has_block() && after.is_numbered() ==> start < low) by {
        reveal(left);
    }
    assert(s.has_block() && after.is_numbered() ==> all.insert(start as int) =~= wanted);
    parted_as(s, after, all.insert(start as int), wanted);
}

broadcast proof fn keeps_switch_entered(
    s: Lowering,
    tag: PathId,
    cases: Seq<Case>,
    match_expr: ExprId,
)
    ensures
        kept(s, (#[trigger] s.switch_entered(tag, cases, match_expr)).1),
{
    broadcast use {
        group_kept,
        keeps_variable_made,
        keeps_dereferenced,
        keeps_tag_of,
        keeps_with_keyed_blocks,
        keeps_with_block,
    };

    reveal(Lowering::switch_entered);
}

broadcast proof fn keeps_tree_lowered(
    s: Lowering,
    lower: Lower,
    tree: DecisionTree,
    match_expr: ExprId,
    depth: nat,
)
    requires
        keeps(lower),
    ensures
        kept(s, (#[trigger] s.tree_lowered(lower, tree, match_expr, depth)).1),
        settled(s, s.tree_lowered(lower, tree, match_expr, depth).1),
    decreases depth, 0nat, 0int,
{
    broadcast use {kept_is_reflexive, settled_is_reflexive, keeps_fails};

    if depth > 0 {
        let depth = (depth - 1) as nat;
        match tree {
            DecisionTree::Guard { condition, success, otherwise } => {
                a_guard_keeps(s, lower, condition, success, *otherwise, match_expr, depth);
            },
            DecisionTree::Switch(tag, cases, otherwise) => {
                a_switch_keeps(s, lower, tag, cases.items(), otherwise, match_expr, depth);
            },
            _ => {},
        }
    }
}

proof fn a_guard_keeps(
    s: Lowering,
    lower: Lower,
    condition: ExprId,
    success: ExprId,
    otherwise: DecisionTree,
    match_expr: ExprId,
    depth: nat,
)
    requires
        keeps(lower),
    ensures
        kept(
            s,
            s.guard_lowered(lower, condition, success, otherwise, match_expr, depth).1,
        ),
        settled(
            s,
            s.guard_lowered(lower, condition, success, otherwise, match_expr, depth).1,
        ),
    decreases depth, 1nat, 0int,
{
    broadcast use {group_kept, keeps_with_block, keeps_terminated, keeps_switched_to};

    let none = Set::<int>::empty();
    assert(settled(s, s));
    opening(s, s, none, Seq::empty());
    let (then, made) = s.with_block(Seq::empty());
    let one = none.insert(then as int);
    opening(s, made, one, Seq::empty());
    let (else_, made) = made.with_block(Seq::empty());
    let two = one.insert(else_ as int);
    let types = seq![made.layout(made.expr_type(match_expr))];
    opening(s, made, two, types);
    let (end, opened) = made.with_block(types);
    let three = two.insert(end as int);
    let (cond, made) = lower(opened, condition);
    going_on(s, opened, made, three);
    counting_up(s, opened);
    counting_up(opened, made);
    let test = Terminator::If { cond, then, else_, end: else_ };
    ending_and_turning(s, made, three, test, then);
    let inside = made.terminated(test).switched_to(then);
    let rest = three.remove(then as int);
    let (value, made) = lower(inside, success);
    going_on(s, inside, made, rest);
    counting_up(opened, made);
    let jump = Terminator::Jmp(end, Some(value));
    ending_and_turning(s, made, rest, jump, else_);
    let inside = made.terminated(jump).switched_to(else_);
    let last = rest.remove(else_ as int);
    keeps_tree_lowered(inside, lower, otherwise, match_expr, depth);
    let (value, made) = inside.tree_lowered(lower, otherwise, match_expr, depth);
    going_on(s, inside, made, last);
    counting_up(opened, made);
    let jump = Terminator::Jmp(end, Some(value));
    ending_and_turning(s, made, last, jump, end);
    assert(last.remove(end as int) =~= none);
}

proof fn cases_keep(
    s: Lowering,
    lower: Lower,
    value: Value,
    cases: Seq<Case>,
    edges: Edges,
    end: BlockId,
    match_expr: ExprId,
    count: int,
    depth: nat,
)
    requires
        keeps(lower),
    ensures
        kept(
            s,
            s.cases_lowered(lower, value, cases, edges, end, match_expr, count, depth),
        ),
    decreases depth, 1nat, count,
{
    broadcast use {group_kept, keeps_case_entered, keeps_terminated};

    if count > 0 {
        let count = count - 1;
        cases_keep(s, lower, value, cases, edges, end, match_expr, count, depth);
        let made = s.cases_lowered(lower, value, cases, edges, end, match_expr, count, depth);
        let case = cases[count];
        let entered = made.case_entered(
            edges[count].1.0,
            value,
            case.constructor,
            case.arguments@,
        );
        keeps_tree_lowered(entered, lower, case.body, match_expr, depth);
    }
}

/// The block of each case that is lowered ends.
proof fn cases_part(
    a: Lowering,
    s: Lowering,
    lower: Lower,
    value: Value,
    cases: Seq<Case>,
    edges: Edges,
    end: BlockId,
    match_expr: ExprId,
    count: int,
    depth: nat,
    start: BlockId,
)
    requires
        keeps(lower),
        0 <= count <= cases.len(),
        a.has_block() && s.is_numbered() ==> start < end - cases.len() && forall|i: int|
            0 <= i < cases.len() ==> (#[trigger] edges[i]).1.0 == end - cases.len() + i,
        parted(
            a,
            s,
            blocks_between(end - cases.len(), end as int).insert(end as int).insert(start as int),
        ),
    ensures
        parted(
            a,
            s.cases_lowered(lower, value, cases, edges, end, match_expr, count, depth),
            blocks_between(end - cases.len() + count, end as int).insert(end as int).insert(
                start as int,
            ),
        ),
    decreases depth, 1nat, count,
{
    broadcast use {
        group_kept,
        keeps_switched_to,
        keeps_variant_of,
        keeps_payloads_bound,
        keeps_fails,
        keeps_terminated,
    };

    if count > 0 {
        let index = count - 1;
        let low = end - cases.len();
        cases_part(a, s, lower, value, cases, edges, end, match_expr, index, depth, start);
        cases_keep(s, lower, value, cases, edges, end, match_expr, index, depth);
        let made = s.cases_lowered(lower, value, cases, edges, end, match_expr, index, depth);
        counting_up(s, made);
        let pending = blocks_between(low + index, end as int).insert(end as int).insert(
            start as int,
        );
        let block = edges[index].1.0;
        turning(a, made, pending, block);
        let inside = made.switched_to(block);
        let rest = pending.remove(block as int);
        let case = cases[index];
        let entered = made.case_entered(block, value, case.constructor, case.arguments@);
        assert(kept(inside, entered) && settled(inside, entered)) by {
            reveal(Lowering::case_entered);
        }
        keeps_tree_lowered(entered, lower, case.body, match_expr, depth);
        let (result, done) = entered.tree_lowered(lower, case.body, match_expr, depth);
        going_on(a, inside, done, rest);
        let jump = Terminator::Jmp(end, Some(result));
        ending(a, done, rest, jump);
        let after = done.terminated(jump);
        counting_up(s, after);
        let fewer = blocks_between(low + count, end as int).insert(end as int).insert(
            start as int,
        );
        assert(a.has_block() && after.is_numbered() ==> rest =~= fewer);
        parted_as(a, after, rest, fewer);
    }
}

proof fn a_switch_keeps(
    s: Lowering,
    lower: Lower,
    tag: PathId,
    cases: Seq<Case>,
    otherwise: Option<Box<DecisionTree>>,
    match_expr: ExprId,
    depth: nat,
)
    requires
        keeps(lower),
    ensures
        kept(s, s.switch_lowered(lower, tag, cases, otherwise, match_expr, depth).1),
        settled(s, s.switch_lowered(lower, tag, cases, otherwise, match_expr, depth).1),
    decreases depth, 2nat, 0int,
{
    broadcast use {
        group_kept,
        keeps_switch_entered,
        keeps_with_block,
        keeps_switched_to,
        keeps_terminated,
    };

    let ((value, int_value, start, edges, end), entered) = s.switch_entered(
        tag,
        cases,
        match_expr,
    );
    let count = cases.len() as int;
    entering_a_switch(s, tag, cases, match_expr);
    cases_keep(entered, lower, value, cases, edges, end, match_expr, count, depth);
    cases_part(s, entered, lower, value, cases, edges, end, match_expr, count, depth, start);
    let made = entered.cases_lowered(lower, value, cases, edges, end, match_expr, count, depth);
    let two = blocks_between(end as int, end as int).insert(end as int).insert(start as int);
    opening_apart(s, made, two, Seq::empty());
    let (block, opened) = made.with_block(Seq::empty());
    let three = two.insert(block as int);
    turning(s, opened, three, block);
    let inside = opened.switched_to(block);
    let rest = three.remove(block as int);
    match otherwise {
        Some(tree) => {
            keeps_tree_lowered(inside, lower, *tree, match_expr, depth);
            let (result, done) = inside.tree_lowered(lower, *tree, match_expr, depth);
            going_on(s, inside, done, rest);
            ending(s, done, rest, Terminator::Jmp(end, Some(result)));
        },
        None => {
            ending(s, inside, rest, Terminator::Unreachable);
        },
    }
    reveal_with_fuel(Lowering::otherwise_lowered, 2);
    let made = inside.otherwise_lowered(lower, otherwise, end, match_expr, depth);
    counting_up(entered, made);
    counting_up(opened, made);
    counting_up(s, entered);
    turning(s, made, rest, start);
    let inside = made.switched_to(start);
    let last = rest.remove(start as int);
    let switch = Terminator::Switch { int_value, cases: edges, otherwise: (block, None), end };
    counting_up(entered, inside);
    ending_and_turning(s, inside, last, switch, end);
    let after = inside.terminated(switch).switched_to(end);
    counting_up(opened, after);
    counting_up(entered, after);
    assert(s.has_block() && after.is_numbered() ==> last.remove(end as int) =~= Set::empty());
    left_as(s, after, last.remove(end as int), Set::empty());
}

broadcast proof fn keeps_match_lowered(s: Lowering, lower: Lower, expr: ExprId)
    requires
        keeps(lower),
    ensures
        kept(s, (#[trigger] s.match_lowered(lower, expr)).1),
        settled(s, s.match_lowered(lower, expr).1),
{
    broadcast use {group_kept, keeps_tree_lowered};

    reveal(Lowering::match_lowered);
}

proof fn recursion_keeps(depth: nat)
    ensures
        keeps(recursion(depth)),
    decreases depth,
{
    broadcast use {keeps_fails, keeps_value_lowered};

    if depth > 0 {
        recursion_keeps((depth - 1) as nat);
    }
}

impl Lowering {
    /// Whatever expression is lowered: what inference found is not changed, a failure is not
    /// forgotten, no finished definition is lost and no name gets another id. The definition it is
    /// part of stays the one it is, its blocks only grow, and a block that ended stays as it
    /// ended. The loops and generics around the expression are as they were.
    pub proof fn law_lowering_only_adds(self, expr: ExprId, depth: nat)
        ensures
            kept(self, self.lowered(expr, depth).1),
    {
        recursion_keeps(depth);
        assert(kept(self, (recursion(depth))(self, expr).1));
    }

    /// Whatever expression is lowered, no block is left open on the way: of the blocks that are
    /// new, and of the one it starts in, only the one it ends in may still be gone on with.
    pub proof fn law_no_block_is_left_open(self, expr: ExprId, depth: nat)
        ensures
            settled(self, self.lowered(expr, depth).1),
    {
        recursion_keeps(depth);
        assert(settled(self, (recursion(depth))(self, expr).1));
    }

    /// An expression that cannot be lowered makes all that it is part of fail: nothing that is
    /// lowered afterwards makes up for it.
    pub proof fn law_failing_is_final(self, expr: ExprId, depth: nat)
        requires
            self.failed,
        ensures
            self.lowered(expr, depth).1.failed,
    {
        self.law_lowering_only_adds(expr, depth);
        reveal(kept);
        reveal(carried);
    }

    /// Where the current block ended, what is lowered is not added to it.
    pub proof fn law_nothing_follows_the_end(self, expr: ExprId, depth: nat)
        requires
            self.has_block(),
            self.is_terminated(),
        ensures
            self.lowered(expr, depth).1.function is Some,
            self.block < self.lowered(expr, depth).1.function.unwrap().blocks.len(),
            self.lowered(expr, depth).1.function.unwrap().blocks[self.block as int].instructions
                == self.current().instructions,
            self.lowered(expr, depth).1.function.unwrap().blocks[self.block as int].terminator
                == self.current().terminator,
    {
        self.law_lowering_only_adds(expr, depth);
        reveal(kept);
        assert(block_grew(
            self.function.unwrap().blocks[self.block as int],
            self.lowered(expr, depth).1.function.unwrap().blocks[self.block as int],
        ));
    }

    /// A lambda is lowered in a definition of its own: the locals, capabilities and loops around
    /// it are as they were, and so is the definition it is written in.
    pub proof fn law_a_lambda_leaves_its_surroundings(
        self,
        lower: Lower,
        shape: LambdaShape,
        parameters: Seq<Parameter>,
        text: Seq<char>,
        effects: TCType,
        parameter_types: Seq<Type>,
        captured: Captured,
        environment: Type,
        typ: Type,
    )
        ensures
            ({
                let after = self.lambda_defined(
                    lower,
                    shape,
                    parameters,
                    text,
                    effects,
                    parameter_types,
                    captured,
                    environment,
                    typ,
                ).1;
                &&& after.function == self.function
                &&& after.block == self.block
                &&& after.locals == self.locals
                &&& after.mutable_locals == self.mutable_locals
                &&& after.loop_targets == self.loop_targets
                &&& after.effects == self.effects
                &&& after.handles == self.handles
                &&& after.bundle == self.bundle
            }),
    {
        reveal(Lowering::lambda_defined);
        reveal(Lowering::definition_finished);
    }
}

broadcast proof fn keeps_all_lowered(s: Lowering, lower: Lower, exprs: Seq<ExprId>, count: int)
    requires
        keeps(lower),
    ensures
        kept(s, (#[trigger] s.all_lowered(lower, exprs, count)).1),
        settled(s, s.all_lowered(lower, exprs, count).1),
    decreases count,
{
    broadcast use group_kept;

    reveal(Lowering::all_lowered);
    if count > 0 {
        keeps_all_lowered(s, lower, exprs, count - 1);
    }
}

broadcast proof fn keeps_slot_extracted(s: Lowering, closure: Value, index: u32)
    ensures
        kept(s, (#[trigger] s.slot_extracted(closure, index)).1),
        settled(s, s.slot_extracted(closure, index).1),
{
    broadcast use {group_kept, keeps_pushed, keeps_fails};

    reveal(Lowering::slot_extracted);
}

broadcast proof fn keeps_value_lowered(s: Lowering, lower: Lower, expr: ExprId)
    requires
        keeps(lower),
    ensures
        kept(s, (#[trigger] s.value_lowered(lower, expr)).1),
        settled(s, s.value_lowered(lower, expr).1),
{
    broadcast use {
        group_kept,
        keeps_inner_lowered,
        keeps_slot_extracted,
        keeps_place_retained,
        keeps_pushed,
        keeps_all_lowered,
    };

    reveal(Lowering::value_lowered);
}

broadcast proof fn keeps_inner_lowered(s: Lowering, lower: Lower, expr: ExprId)
    requires
        keeps(lower),
    ensures
        kept(s, (#[trigger] s.inner_lowered(lower, expr)).1),
        settled(s, s.inner_lowered(lower, expr).1),
{
    broadcast use {
        group_kept,
        keeps_literal_made,
        keeps_variable_made,
        keeps_sequence_lowered,
        keeps_definition_lowered,
        keeps_member_lowered,
        keeps_call_lowered,
        keeps_lambda_lowered,
        keeps_if_lowered,
        keeps_match_lowered,
        keeps_handle_lowered,
        keeps_reference_lowered,
        keeps_constructor_lowered,
        keeps_while_lowered,
        keeps_for_lowered,
        keeps_exit_lowered,
        keeps_return_lowered,
        keeps_assignment_lowered,
        keeps_pushed,
        keeps_array_lowered,
        keeps_fails,
    };

    reveal(Lowering::inner_lowered);
}

broadcast proof fn keeps_array_lowered(
    s: Lowering,
    lower: Lower,
    elements: Seq<ExprId>,
    expr: ExprId,
)
    requires
        keeps(lower),
    ensures
        kept(s, (#[trigger] s.array_lowered(lower, elements, expr)).1),
        settled(s, s.array_lowered(lower, elements, expr).1),
{
    broadcast use {group_kept, keeps_all_lowered, keeps_pushed};

    reveal(Lowering::array_lowered);
}

broadcast proof fn keeps_sequence_lowered(s: Lowering, lower: Lower, items: Seq<ExprId>)
    requires
        keeps(lower),
    ensures
        kept(s, (#[trigger] s.sequence_lowered(lower, items)).1),
        settled(s, s.sequence_lowered(lower, items).1),
{
    broadcast use {group_kept, keeps_all_lowered};

    reveal(Lowering::sequence_lowered);
}

broadcast proof fn keeps_definition_value_lowered(
    s: Lowering,
    lower: Lower,
    definition: Definition,
    name_id: Option<NameId>,
    is_global: bool,
)
    requires
        keeps(lower),
    ensures
        kept(s, (#[trigger] s.definition_value_lowered(lower, definition, name_id, is_global)).1),
        settled(s, s.definition_value_lowered(lower, definition, name_id, is_global).1),
{
    broadcast use {group_kept, keeps_copy_impl_made, keeps_lambda_lowered};

    reveal(Lowering::definition_value_lowered);
}

broadcast proof fn keeps_definition_bound(s: Lowering, definition: Definition, value: Value)
    ensures
        kept(s, #[trigger] s.definition_bound(definition, value)),
        settled(s, s.definition_bound(definition, value)),
{
    broadcast use {group_kept, keeps_pattern_bound, keeps_retained_if_place, keeps_made_mutable};

    reveal(Lowering::definition_bound);
}

/// A definition inside an expression keeps what there is.
broadcast proof fn keeps_definition_lowered(s: Lowering, lower: Lower, definition: Definition)
    requires
        keeps(lower),
    ensures
        kept(s, (#[trigger] s.definition_lowered(lower, definition, false)).1),
        settled(s, s.definition_lowered(lower, definition, false).1),
{
    broadcast use {
        group_kept,
        kept_is_carried,
        carried_is_transitive,
        back_is_kept,
        back_is_settled,
        carries_definition_started,
        carries_definition_finished,
        soundness_is_kept,
        a_lone_block_stays,
        keeps_definition_value_lowered,
        keeps_definition_bound,
        keeps_terminated,
        the_last_block_ends,
    };

    reveal(Lowering::definition_lowered);
}

broadcast proof fn keeps_member_lowered(s: Lowering, lower: Lower, object: ExprId, expr: ExprId)
    requires
        keeps(lower),
    ensures
        kept(s, (#[trigger] s.member_lowered(lower, object, expr)).1),
        settled(s, s.member_lowered(lower, object, expr).1),
{
    broadcast use {group_kept, keeps_pushed, keeps_dereferenced};

    reveal(Lowering::member_lowered);
}

broadcast proof fn keeps_while_lowered(
    s: Lowering,
    lower: Lower,
    condition: ExprId,
    body: ExprId,
)
    requires
        keeps(lower),
    ensures
        kept(s, (#[trigger] s.while_lowered(lower, condition, body)).1),
        settled(s, s.while_lowered(lower, condition, body).1),
{
    broadcast use {group_kept, keeps_with_block, keeps_terminated, keeps_switched_to};

    reveal(Lowering::while_lowered);
    let none = Set::<int>::empty();
    assert(settled(s, s));
    opening(s, s, none, Seq::empty());
    let (header, made) = s.with_block(Seq::empty());
    let one = none.insert(header as int);
    opening(s, made, one, Seq::empty());
    let (block, made) = made.with_block(Seq::empty());
    let two = one.insert(block as int);
    opening(s, made, two, Seq::empty());
    let (exit, opened) = made.with_block(Seq::empty());
    let three = two.insert(exit as int);
    counting_up(s, opened);
    ending_and_turning(s, opened, three, Terminator::Jmp(header, None), header);
    let inside = opened.terminated(Terminator::Jmp(header, None)).switched_to(header);
    let rest = three.remove(header as int);
    let (cond, made) = lower(inside, condition);
    going_on(s, inside, made, rest);
    counting_up(opened, made);
    let test = Terminator::If { cond, then: block, else_: exit, end: exit };
    ending_and_turning(s, made, rest, test, block);
    let inside = made.terminated(test).switched_to(block);
    let last = rest.remove(block as int);
    a_loop_is_left(lower, inside, header, exit, body);
    let made = lower(inside.with_loop(header, exit), body).1.without_loop();
    going_on(s, inside, made, last);
    counting_up(opened, made);
    ending_and_turning(s, made, last, Terminator::Jmp(header, None), exit);
    assert(last.remove(exit as int) =~= none);
}

/// What is lowered in a loop leaves the loop as it entered it.
proof fn a_loop_is_left(lower: Lower, s: Lowering, header: BlockId, exit: BlockId, body: ExprId)
    requires
        keeps(lower),
    ensures
        kept(s, lower(s.with_loop(header, exit), body).1.without_loop()),
        settled(s, lower(s.with_loop(header, exit), body).1.without_loop()),
{
    let inside = s.with_loop(header, exit);
    let after = lower(inside, body).1;
    assert(kept(inside, after));
    reveal(kept);
    reveal(left);
    reveal(carried);
    let left = after.without_loop();
    assert(inside.loop_targets.drop_last() =~= s.loop_targets);
    assert forall|name: TopLevelName| #[trigger]
        s.ids.map.contains_key(name) implies left.ids.map.contains_key(name)
        && left.ids.map[name] == s.ids.map[name] by {
        assert(inside.ids.map.contains_key(name));
    }
}

broadcast proof fn keeps_counted_loop(
    s: Lowering,
    lower: Lower,
    variable: NameId,
    start: Value,
    end: Value,
    body: ExprId,
    kind: IntegerKind,
)
    requires
        keeps(lower),
    ensures
        kept(s, (#[trigger] s.counted_loop(lower, variable, start, end, body, kind)).1),
        settled(s, s.counted_loop(lower, variable, start, end, body, kind).1),
{
    broadcast use {
        group_kept,
        keeps_with_block,
        keeps_with_local,
        keeps_terminated,
        keeps_switched_to,
        keeps_pushed,
    };

    reveal(Lowering::counted_loop);
    let typ = Type::Primitive(PrimitiveType::Int(kind));
    let none = Set::<int>::empty();
    assert(settled(s, s));
    opening(s, s, none, seq![typ]);
    let (header, made) = s.with_block(seq![typ]);
    let one = none.insert(header as int);
    opening(s, made, one, Seq::empty());
    let (block, made) = made.with_block(Seq::empty());
    let two = one.insert(block as int);
    opening(s, made, two, Seq::empty());
    let (step, made) = made.with_block(Seq::empty());
    let three = two.insert(step as int);
    opening(s, made, three, Seq::empty());
    let (exit, opened) = made.with_block(Seq::empty());
    let four = three.insert(exit as int);
    counting_up(s, opened);
    let current = Value::Parameter(header, 0);
    let made = opened.with_local(variable, current);
    going_on(s, opened, made, four);
    counting_up(opened, made);
    let jump = Terminator::Jmp(header, Some(start));
    ending_and_turning(s, made, four, jump, header);
    let inside = made.terminated(jump).switched_to(header);
    let pending = four.remove(header as int);
    let (cond, made) = inside.pushed(
        if crate::mir::builder::places::is_signed(kind) {
            Operation::LessSigned(current, end)
        } else {
            Operation::LessUnsigned(current, end)
        },
        Type::boolean(),
    );
    going_on(s, inside, made, pending);
    counting_up(opened, made);
    let test = Terminator::If { cond, then: block, else_: exit, end: exit };
    ending_and_turning(s, made, pending, test, block);
    let inside = made.terminated(test).switched_to(block);
    let rest = pending.remove(block as int);
    a_loop_is_left(lower, inside, step, exit, body);
    let made = lower(inside.with_loop(step, exit), body).1.without_loop();
    going_on(s, inside, made, rest);
    counting_up(opened, made);
    ending_and_turning(s, made, rest, Terminator::Jmp(step, None), step);
    let inside = made.terminated(Terminator::Jmp(step, None)).switched_to(step);
    let last = rest.remove(step as int);
    let one = Value::Integer(
        crate::mir::builder::patterns::constant(
            crate::cst::Integer { magnitude: 1, negative: false },
            kind,
        ),
    );
    let (next, made) = inside.pushed(Operation::AddInt(current, one), typ);
    going_on(s, inside, made, last);
    counting_up(opened, made);
    ending_and_turning(s, made, last, Terminator::Jmp(header, Some(next)), exit);
    assert(last.remove(exit as int) =~= none);
}

broadcast proof fn keeps_for_lowered(
    s: Lowering,
    lower: Lower,
    variable: NameId,
    start: ExprId,
    end: ExprId,
    body: ExprId,
)
    requires
        keeps(lower),
    ensures
        kept(s, (#[trigger] s.for_lowered(lower, variable, start, end, body)).1),
        settled(s, s.for_lowered(lower, variable, start, end, body).1),
{
    broadcast use {group_kept, keeps_counted_loop, keeps_fails};

    reveal(Lowering::for_lowered);
}

broadcast proof fn keeps_exit_lowered(s: Lowering, lower: Lower, expr: ExprId, repeats: bool)
    requires
        keeps(lower),
    ensures
        kept(s, (#[trigger] s.exit_lowered(lower, expr, repeats)).1),
        settled(s, s.exit_lowered(lower, expr, repeats).1),
{
    broadcast use {group_kept, keeps_fails, keeps_terminated, keeps_all_lowered};

    reveal(Lowering::exit_lowered);
}

broadcast proof fn keeps_return_lowered(s: Lowering, lower: Lower, expression: ExprId)
    requires
        keeps(lower),
    ensures
        kept(s, (#[trigger] s.return_lowered(lower, expression)).1),
        settled(s, s.return_lowered(lower, expression).1),
{
    broadcast use {group_kept, keeps_terminated, keeps_all_lowered};

    reveal(Lowering::return_lowered);
}

broadcast proof fn keeps_if_lowered(
    s: Lowering,
    lower: Lower,
    condition: ExprId,
    then_expr: ExprId,
    else_expr: Option<ExprId>,
    expr: ExprId,
)
    requires
        keeps(lower),
    ensures
        kept(s, (#[trigger] s.if_lowered(lower, condition, then_expr, else_expr, expr)).1),
        settled(s, s.if_lowered(lower, condition, then_expr, else_expr, expr).1),
{
    broadcast use {
        group_kept,
        keeps_with_block,
        keeps_terminated,
        keeps_switched_to,
        keeps_with_parameter,
        keeps_all_lowered,
    };

    reveal(Lowering::if_lowered);
    let none = Set::<int>::empty();
    let drops = s.else_drops(expr);
    let (cond, made) = lower(s, condition);
    opening(s, made, none, Seq::empty());
    let (then, made) = made.with_block(Seq::empty());
    let one = none.insert(then as int);
    opening(s, made, one, Seq::empty());
    let (else_, made) = made.with_block(Seq::empty());
    let two = one.insert(else_ as int);
    opening(s, made, two, Seq::empty());
    let joins = else_expr is Some || drops is Some;
    let (end, opened) = if joins {
        made.with_block(Seq::empty())
    } else {
        (else_, made)
    };
    let pending = if joins {
        two.insert(end as int)
    } else {
        two
    };
    counting_up(s, opened);
    let test = Terminator::If { cond, then, else_, end };
    ending_and_turning(s, opened, pending, test, then);
    let inside = opened.terminated(test).switched_to(then);
    let rest = pending.remove(then as int);
    let (value, made) = lower(inside, then_expr);
    going_on(s, inside, made, rest);
    counting_up(opened, made);
    let last = rest.remove(else_ as int);
    match else_expr {
        Some(else_expr) => {
            let jump = Terminator::Jmp(end, Some(value));
            ending_and_turning(s, made, rest, jump, else_);
            let inside = made.terminated(jump).switched_to(else_);
            let (value, made) = lower(inside, else_expr);
            going_on(s, inside, made, last);
            counting_up(opened, made);
            let jump = Terminator::Jmp(end, Some(value));
            ending_and_turning(s, made, last, jump, end);
            assert(last.remove(end as int) =~= none);
            assert(settled(s, made.terminated(jump).switched_to(end)));
        },
        None => {
            let jump = Terminator::Jmp(end, None);
            ending_and_turning(s, made, rest, jump, else_);
            let inside = made.terminated(jump).switched_to(else_);
            match drops {
                Some(drops) => {
                    let made = inside.drops_lowered(lower, drops);
                    going_on(s, inside, made, last);
                    counting_up(opened, made);
                    ending_and_turning(s, made, last, jump, end);
                    assert(last.remove(end as int) =~= none);
                },
                None => {
                    assert(last =~= none);
                },
            }
        },
    }
}

broadcast proof fn keeps_local_value(s: Lowering, name: NameId)
    ensures
        kept(s, (#[trigger] s.local_value(name)).1),
        settled(s, s.local_value(name).1),
{
    broadcast use {kept_is_reflexive, settled_is_reflexive, keeps_fails};

}

broadcast proof fn keeps_pointer_lowered(s: Lowering, lower: Lower, lhs: ExprId, depth: nat)
    requires
        keeps(lower),
    ensures
        kept(s, (#[trigger] s.pointer_lowered(lower, lhs, depth)).1),
        settled(s, s.pointer_lowered(lower, lhs, depth).1),
    decreases depth,
{
    broadcast use {group_kept, keeps_fails, keeps_local_value, keeps_pushed};

    reveal(Lowering::pointer_lowered);
    if depth > 0 {
        match s.answers.context@.expr(lhs) {
            ExprForm::TypeAnnotation { lhs } => {
                keeps_pointer_lowered(s, lower, lhs, (depth - 1) as nat);
            },
            ExprForm::MemberAccess { object, .. } => {
                keeps_pointer_lowered(s, lower, object, (depth - 1) as nat);
            },
            _ => {},
        }
    }
}

broadcast proof fn keeps_reference_lowered(s: Lowering, lower: Lower, rhs: ExprId)
    requires
        keeps(lower),
    ensures
        kept(s, (#[trigger] s.reference_lowered(lower, rhs)).1),
        settled(s, s.reference_lowered(lower, rhs).1),
{
    broadcast use {group_kept, keeps_local_value, keeps_pointer_lowered, keeps_pushed};

    reveal(Lowering::reference_lowered);
}

broadcast proof fn keeps_compound_lowered(
    s: Lowering,
    lower: Lower,
    pointer: Value,
    lhs: ExprId,
    rhs: ExprId,
    op: ExprId,
)
    requires
        keeps(lower),
    ensures
        kept(s, (#[trigger] s.compound_lowered(lower, pointer, lhs, rhs, op)).1),
        settled(s, s.compound_lowered(lower, pointer, lhs, rhs, op).1),
{
    broadcast use {group_kept, keeps_pushed, keeps_with_evidence, keeps_called};

    reveal(Lowering::compound_lowered);
}

broadcast proof fn keeps_stored_lowered(s: Lowering, lower: Lower, lhs: ExprId, rhs: ExprId)
    requires
        keeps(lower),
    ensures
        kept(s, (#[trigger] s.stored_lowered(lower, lhs, rhs)).1),
        settled(s, s.stored_lowered(lower, lhs, rhs).1),
{
    broadcast use {group_kept, keeps_pushed, keeps_retained_if_place};

    reveal(Lowering::stored_lowered);
}

broadcast proof fn keeps_assignment_lowered(
    s: Lowering,
    lower: Lower,
    assignment: Assignment,
    expr: ExprId,
)
    requires
        keeps(lower),
    ensures
        kept(s, (#[trigger] s.assignment_lowered(lower, assignment, expr)).1),
        settled(s, s.assignment_lowered(lower, assignment, expr).1),
{
    broadcast use {
        group_kept,
        keeps_pointer_lowered,
        keeps_compound_lowered,
        keeps_stored_lowered,
        keeps_pushed,
        keeps_all_lowered,
    };

    reveal(Lowering::assignment_lowered);
}

broadcast proof fn keeps_fields_coerced(
    s: Lowering,
    values: Seq<Value>,
    expected: Option<Seq<Type>>,
    count: int,
)
    ensures
        kept(s, (#[trigger] s.fields_coerced(values, expected, count)).1),
        settled(s, s.fields_coerced(values, expected, count).1),
    decreases count,
{
    broadcast use {group_kept, keeps_field_coerced};

    reveal(Lowering::fields_coerced);
    if count > 0 {
        keeps_fields_coerced(s, values, expected, count - 1);
    }
}

broadcast proof fn keeps_fields_lowered(
    s: Lowering,
    lower: Lower,
    fields: Seq<(NameId, ExprId)>,
    count: int,
)
    requires
        keeps(lower),
    ensures
        kept(s, (#[trigger] s.fields_lowered(lower, fields, count)).1),
        settled(s, s.fields_lowered(lower, fields, count).1),
    decreases count,
{
    broadcast use {group_kept, keeps_retained_if_place};

    reveal(Lowering::fields_lowered);
    if count > 0 {
        keeps_fields_lowered(s, lower, fields, count - 1);
    }
}

broadcast proof fn keeps_constructor_lowered(
    s: Lowering,
    lower: Lower,
    fields: Seq<(NameId, ExprId)>,
    expr: ExprId,
)
    requires
        keeps(lower),
    ensures
        kept(s, (#[trigger] s.constructor_lowered(lower, fields, expr)).1),
        settled(s, s.constructor_lowered(lower, fields, expr).1),
{
    broadcast use {group_kept, keeps_fields_lowered, keeps_fields_coerced, keeps_pushed};

    reveal(Lowering::constructor_lowered);
}

broadcast proof fn keeps_constructor_payload(
    s: Lowering,
    fields: Seq<Type>,
    tag: Option<u8>,
    payload: Type,
)
    ensures
        kept(s, (#[trigger] s.constructor_payload(fields, tag, payload)).1),
        settled(s, s.constructor_payload(fields, tag, payload).1),
{
    broadcast use {
        group_kept,
        keeps_with_plain_parameters,
        keeps_with_parameter,
        keeps_pushed,
        keeps_fails,
    };

    reveal(Lowering::constructor_payload);
}

broadcast proof fn keeps_constructor_body(
    s: Lowering,
    fields: Seq<Type>,
    tag: Option<u8>,
    payload: Type,
    shared: bool,
)
    ensures
        kept(s, #[trigger] s.constructor_body(fields, tag, payload, shared)),
        settled(s, s.constructor_body(fields, tag, payload, shared)),
        s.is_lone() ==> s.constructor_body(fields, tag, payload, shared).in_ended(),
{
    broadcast use {
        group_kept,
        keeps_constructor_payload,
        keeps_pushed,
        keeps_terminated,
        the_last_block_ends,
        a_lone_block_stays,
    };

    reveal(Lowering::constructor_body);
}

broadcast proof fn keeps_release_once(s: Lowering, handle: Value, typ: TCType, args: Seq<TCType>)
    ensures
        kept(s, #[trigger] s.release_once(handle, typ, args)),
        settled(s, s.release_once(handle, typ, args)),
        s.is_lone() ==> s.release_once(handle, typ, args).in_ended(),
{
    broadcast use {
        group_kept,
        keeps_pushed,
        keeps_with_block,
        keeps_terminated,
        the_last_block_ends,
        keeps_switched_to,
        keeps_cell_released,
        a_lone_block_stays,
    };

    reveal(Lowering::release_once);
    let none = Set::<int>::empty();
    let (zero, made) = s.pushed(Operation::RcDecrement(handle), Type::boolean());
    opening(s, made, none, Seq::empty());
    let (glue, made) = made.with_block(Seq::empty());
    let one = none.insert(glue as int);
    opening(s, made, one, Seq::empty());
    let (rest, opened) = made.with_block(Seq::empty());
    let two = one.insert(rest as int);
    counting_up(s, opened);
    let test = Terminator::If { cond: zero, then: glue, else_: rest, end: rest };
    ending_and_turning(s, opened, two, test, glue);
    let inside = opened.terminated(test).switched_to(glue);
    let last = two.remove(glue as int);
    let made = inside.cell_released(handle, typ, args, None);
    let made = made.pushed(Operation::FreeShared(handle), Type::unit()).1;
    going_on(s, inside, made, last);
    counting_up(opened, made);
    let jump = Terminator::Jmp(rest, None);
    ending_and_turning(s, made, last, jump, rest);
    assert(last.remove(rest as int) =~= none);
    assert(settled(s, made.terminated(jump).switched_to(rest)));
}

/// A release that goes on ends all its blocks.
proof fn advancing_settles(
    a: Lowering,
    s: Lowering,
    next_slot: Value,
    cur_slot: Value,
    header: BlockId,
    advance: BlockId,
    exit: BlockId,
)
    requires
        left(a, s, Set::<int>::empty().insert(advance as int).insert(exit as int)),
        a.has_block() && s.function is Some && s.is_numbered() ==> advance != exit,
    ensures
        settled(a, s.chain_advanced(next_slot, cur_slot, header, advance, exit)),
        a.is_lone() ==> s.chain_advanced(
            next_slot,
            cur_slot,
            header,
            advance,
            exit,
        ).in_ended(),
{
    broadcast use {
        group_kept,
        keeps_pushed,
        keeps_terminated,
        keeps_switched_to,
        the_last_block_ends,
        a_lone_block_stays,
    };

    reveal(Lowering::chain_advanced);
    let none = Set::<int>::empty();
    let two = none.insert(advance as int).insert(exit as int);
    let number = Type::Primitive(PrimitiveType::Int(IntegerKind::Usz));
    let (next, made) = s.pushed(Operation::Deref(next_slot), Type::pointer());
    let (next_int, made) = made.pushed(Operation::Transmute(next), number);
    let (is_null, made) = made.pushed(
        Operation::EqInt(next_int, Value::Integer(IntConstant::Usz(0))),
        Type::boolean(),
    );
    going_on(a, s, made, two);
    counting_up(s, made);
    let test = Terminator::If { cond: is_null, then: exit, else_: advance, end: exit };
    ending_and_turning(a, made, two, test, advance);
    let inside = made.terminated(test).switched_to(advance);
    let last = two.remove(advance as int);
    let made = inside.pushed(
        Operation::Store { pointer: cur_slot, value: next },
        Type::unit(),
    ).1;
    going_on(a, inside, made, last);
    counting_up(s, made);
    let jump = Terminator::Jmp(header, None);
    ending_and_turning(a, made, last, jump, exit);
    assert(last.remove(exit as int) =~= none);
    assert(settled(a, made.terminated(jump).switched_to(exit)));
}

broadcast proof fn keeps_release_chain(s: Lowering, handle: Value, typ: TCType, args: Seq<TCType>)
    ensures
        kept(s, #[trigger] s.release_chain(handle, typ, args)),
        settled(s, s.release_chain(handle, typ, args)),
        s.is_lone() ==> s.release_chain(handle, typ, args).in_ended(),
{
    broadcast use {
        group_kept,
        keeps_pushed,
        keeps_with_block,
        keeps_terminated,
        the_last_block_ends,
        keeps_switched_to,
        keeps_cell_released,
        keeps_chain_advanced,
        a_lone_block_stays,
    };

    reveal(Lowering::release_chain);
    let none = Set::<int>::empty();
    let (null, made) = s.pushed(
        Operation::Transmute(Value::Integer(IntConstant::Usz(0))),
        Type::pointer(),
    );
    let (next_slot, made) = made.pushed(Operation::StackAlloc(null), Type::pointer());
    let (cur_slot, made) = made.pushed(Operation::StackAlloc(handle), Type::pointer());
    opening(s, made, none, Seq::empty());
    let (header, made) = made.with_block(Seq::empty());
    let one = none.insert(header as int);
    opening(s, made, one, Seq::empty());
    let (glue, made) = made.with_block(Seq::empty());
    let two = one.insert(glue as int);
    opening(s, made, two, Seq::empty());
    let (advance, made) = made.with_block(Seq::empty());
    let three = two.insert(advance as int);
    opening(s, made, three, Seq::empty());
    let (exit, opened) = made.with_block(Seq::empty());
    let four = three.insert(exit as int);
    counting_up(s, opened);
    let jump = Terminator::Jmp(header, None);
    ending_and_turning(s, opened, four, jump, header);
    let inside = opened.terminated(jump).switched_to(header);
    let pending = four.remove(header as int);
    let (cur, made) = inside.pushed(Operation::Deref(cur_slot), Type::pointer());
    let (zero, made) = made.pushed(Operation::RcDecrement(cur), Type::boolean());
    going_on(s, inside, made, pending);
    counting_up(opened, made);
    let test = Terminator::If { cond: zero, then: glue, else_: exit, end: exit };
    ending_and_turning(s, made, pending, test, glue);
    let inside = made.terminated(test).switched_to(glue);
    let rest = pending.remove(glue as int);
    let made = inside.pushed(
        Operation::Store { pointer: next_slot, value: null },
        Type::unit(),
    ).1.cell_released(cur, typ, args, Some(next_slot));
    let made = made.pushed(Operation::FreeShared(cur), Type::unit()).1;
    going_on(s, inside, made, rest);
    counting_up(opened, made);
    assert(s.has_block() && made.is_numbered() ==> rest =~= none.insert(advance as int).insert(
        exit as int,
    ));
    left_as(s, made, rest, none.insert(advance as int).insert(exit as int));
    advancing_settles(s, made, next_slot, cur_slot, header, advance, exit);
}

broadcast proof fn keeps_chain_advanced(
    s: Lowering,
    next_slot: Value,
    cur_slot: Value,
    header: u32,
    advance: u32,
    exit: u32,
)
    ensures
        kept(s, #[trigger] s.chain_advanced(next_slot, cur_slot, header, advance, exit)),
{
    broadcast use {group_kept, keeps_pushed, keeps_terminated, keeps_switched_to};

    reveal(Lowering::chain_advanced);
}

broadcast proof fn keeps_release_body(s: Lowering, typ: TCType, args: Seq<TCType>, is_chain: bool)
    ensures
        kept(s, #[trigger] s.release_body(typ, args, is_chain)),
        settled(s, s.release_body(typ, args, is_chain)),
        s.is_lone() ==> s.release_body(typ, args, is_chain).in_ended(),
{
    broadcast use {
        group_kept,
        keeps_with_parameter,
        keeps_release_chain,
        keeps_release_once,
        a_lone_block_stays,
    };

    reveal(Lowering::release_body);
}

broadcast proof fn keeps_method_body(
    s: Lowering,
    index: u32,
    method: FunctionType,
    parameters: Seq<Type>,
)
    ensures
        kept(s, #[trigger] s.method_body(index, method, parameters)),
        settled(s, s.method_body(index, method, parameters)),
        s.is_lone() ==> s.method_body(index, method, parameters).in_ended(),
{
    broadcast use {
        group_kept,
        keeps_with_plain_parameters,
        keeps_pushed,
        keeps_terminated,
        the_last_block_ends,
        a_lone_block_stays,
    };

    reveal(Lowering::method_body);
}

impl Lowering {
    /// The release function of a shared type is defined under the name its calls refer to, with
    /// the layout they call it with.
    pub proof fn law_a_release_is_called_as_it_is_defined(self, name: NameId, generics: Seq<NameId>)
        ensures
            ({
                let after = self.release_defined(name, generics);
                let release = self.own_name(RELEASE_FUNCTION);
                let id = after.ids.map[release];
                &&& after.ids.map.contains_key(release)
                &&& after.finished.contains_key(id)
                &&& after.finished[id].id == id
                &&& after.finished[id].typ == release_signature()
            }),
    {
        broadcast use {group_kept, keeps_release_body};

        reveal(Lowering::release_defined);
        let scoped = Lowering { generics: named_generics(generics), ..self };
        let args = generic_types(generics);
        let started = scoped.without_locals().definition_started(
            "release_"@ + self.answers.context@.name(name),
            Some(RELEASE_FUNCTION),
            scoped.generic_count(),
            release_signature(),
        );
        let done = started.release_body(
            own_type(self.own_name(name), generics),
            args,
            scoped.has_self_field(args),
        );
        assert(kept(started, done));
        assert(started.function matches Some(function) && function.typ == release_signature()) by {
            reveal(Lowering::definition_started);
        }
        reveal(kept);
        reveal(Lowering::definition_finished);
    }

    /// A constructor is defined under its own name, with the layout of its type.
    pub proof fn law_a_constructor_is_defined_under_its_name(
        self,
        name: NameId,
        tag: Option<u8>,
        shared: bool,
    )
        requires
            self.with_generics_of(self.generalized(name)).payload_layout(
                self.generalized(name),
                shared,
            ) is Some,
        ensures
            ({
                let after = self.constructor_defined(name, tag, shared);
                let own = self.own_name(name);
                let id = after.ids.map[own];
                &&& after.ids.map.contains_key(own)
                &&& after.finished.contains_key(id)
                &&& after.finished[id].id == id
                &&& after.finished[id].name == self.answers.context@.name(name)
                &&& after.finished[id].typ == self.with_generics_of(
                    self.generalized(name),
                ).layout(self.generalized(name))
            }),
    {
        broadcast use {group_kept, keeps_constructor_body};

        reveal(Lowering::constructor_defined);
        let typ = self.generalized(name);
        let scoped = self.with_generics_of(typ);
        let payload = scoped.payload_layout(typ, shared).unwrap();
        let started = scoped.definition_started(
            self.answers.context@.name(name),
            Some(name),
            scoped.generic_count(),
            scoped.layout(typ),
        );
        let done = started.constructor_body(
            scoped.layouts_of(taken(typ)),
            tag,
            payload,
            shared,
        );
        assert(kept(started, done));
        assert(started.function matches Some(function) && function.typ == scoped.layout(typ)
            && function.name == self.answers.context@.name(name)) by {
            reveal(Lowering::definition_started);
        }
        reveal(kept);
        reveal(Lowering::definition_finished);
    }

    /// A method of an ability is called under its own name, with the capability it is taken from
    /// in front of the evidence.
    pub proof fn law_a_method_is_defined_under_its_name(
        self,
        name: NameId,
        index: u32,
        method: FunctionType,
        struct_type: Type,
    )
        ensures
            ({
                let after = self.method_defined(name, index, method, struct_type);
                let own = self.own_name(name);
                let id = after.ids.map[own];
                &&& after.ids.map.contains_key(own)
                &&& after.finished.contains_key(id)
                &&& after.finished[id].id == id
                &&& after.finished[id].typ == Type::function(
                    method_parameters(method.parameters.items(), struct_type),
                    Type::no_env(),
                    method.return_type,
                )
            }),
    {
        broadcast use {group_kept, keeps_method_body};

        reveal(Lowering::method_defined);
        let parameters = method_parameters(method.parameters.items(), struct_type);
        let typ = Type::function(parameters, Type::no_env(), method.return_type);
        let started = self.definition_started(
            self.answers.context@.name(name),
            Some(name),
            self.generic_count(),
            typ,
        );
        let done = started.method_body(index, method, parameters);
        assert(kept(started, done));
        assert(started.function matches Some(function) && function.typ == typ) by {
            reveal(Lowering::definition_started);
        }
        reveal(kept);
        reveal(Lowering::definition_finished);
    }
}

/// Where all there was is sound, all there is now is, and where all that was finished ends, all
/// that is finished now does.
pub open spec fn sound_on(before: Lowering, after: Lowering) -> bool {
    &&& before.in_sound() && all_sound(before.finished) ==> after.in_sound() && all_sound(
        after.finished,
    )
    &&& before.all_ended() ==> after.all_ended()
}

/// What is kept stays sound.
broadcast proof fn kept_is_sound(a: Lowering, b: Lowering)
    requires
        #[trigger] kept(a, b),
    ensures
        sound_on(a, b),
{
    reveal(kept);
    reveal(carried);
}

/// A definition that was started and finished leaves all as sound as it was.
proof fn defining_is_sound(outer: Lowering, started: Lowering, done: Lowering)
    requires
        carried(outer, started),
        started.in_sound(),
        kept(started, done),
        done.in_ended(),
    ensures
        sound_on(outer, done.definition_finished(outer).1),
{
    broadcast use {carried_is_transitive, kept_is_carried, carries_definition_finished};

    soundness_is_kept(started, done);
    let after = done.definition_finished(outer).1;
    assert(carried(outer, after));
    reveal(carried);
}

proof fn constructor_is_sound(s: Lowering, name: NameId, tag: Option<u8>, shared: bool)
    ensures
        sound_on(s, s.constructor_defined(name, tag, shared)),
{
    broadcast use {carries_definition_started, keeps_constructor_body};

    reveal(Lowering::constructor_defined);
    let typ = s.generalized(name);
    let scoped = s.with_generics_of(typ);
    match scoped.payload_layout(typ, shared) {
        Some(payload) => {
            let started = scoped.definition_started(
                s.answers.context@.name(name),
                Some(name),
                scoped.generic_count(),
                scoped.layout(typ),
            );
            let done = started.constructor_body(
                scoped.layouts_of(taken(typ)),
                tag,
                payload,
                shared,
            );
            defining_is_sound(scoped, started, done);
        },
        None => {},
    }
}

proof fn variants_are_sound(s: Lowering, variants: Seq<NameId>, shared: bool, count: int)
    ensures
        sound_on(s, s.variants_defined(variants, shared, count)),
    decreases count,
{
    reveal(Lowering::variants_defined);
    if count > 0 {
        variants_are_sound(s, variants, shared, count - 1);
        constructor_is_sound(
            s.variants_defined(variants, shared, count - 1),
            variants[count - 1],
            Some((count - 1) as u8),
            shared,
        );
    }
}

proof fn constructors_are_sound(s: Lowering, name: NameId, body: TypeDefinitionBody, shared: bool)
    ensures
        sound_on(s, s.constructors_defined(name, body, shared)),
{
    reveal(Lowering::constructors_defined);
    match body {
        TypeDefinitionBody::Struct(_) => {
            constructor_is_sound(s, name, None, shared);
        },
        TypeDefinitionBody::Enum(variants) => {
            if variants@.len() == 1 {
                constructor_is_sound(s, variants@[0], None, shared);
            }
            variants_are_sound(s, variants@, shared, variants@.len() as int);
        },
        _ => {},
    }
}

proof fn release_is_sound(s: Lowering, name: NameId, generics: Seq<NameId>)
    ensures
        sound_on(s, s.release_defined(name, generics)),
{
    broadcast use {carries_definition_started, keeps_release_body};

    reveal(Lowering::release_defined);
    let scoped = Lowering { generics: named_generics(generics), ..s };
    let args = generic_types(generics);
    let started = scoped.without_locals().definition_started(
        "release_"@ + s.answers.context@.name(name),
        Some(RELEASE_FUNCTION),
        scoped.generic_count(),
        release_signature(),
    );
    let done = started.release_body(
        own_type(s.own_name(name), generics),
        args,
        scoped.has_self_field(args),
    );
    assert(carried(scoped, scoped.without_locals())) by {
        reveal(carried);
    }
    carried_is_transitive(scoped, scoped.without_locals(), started);
    defining_is_sound(scoped, started, done);
}

proof fn method_is_sound(
    s: Lowering,
    name: NameId,
    index: u32,
    method: FunctionType,
    struct_type: Type,
)
    ensures
        sound_on(s, s.method_defined(name, index, method, struct_type)),
{
    broadcast use {carries_definition_started, keeps_method_body};

    reveal(Lowering::method_defined);
    let parameters = method_parameters(method.parameters.items(), struct_type);
    let started = s.definition_started(
        s.answers.context@.name(name),
        Some(name),
        s.generic_count(),
        Type::function(parameters, Type::no_env(), method.return_type),
    );
    defining_is_sound(s, started, started.method_body(index, method, parameters));
}

proof fn methods_are_sound(
    s: Lowering,
    names: Seq<NameId>,
    fields: Seq<Type>,
    struct_type: Type,
    count: int,
)
    ensures
        sound_on(s, s.methods_defined(names, fields, struct_type, count)),
    decreases count,
{
    reveal(Lowering::methods_defined);
    if count > 0 {
        methods_are_sound(s, names, fields, struct_type, count - 1);
        if count - 1 < fields.len() {
            match fields[count - 1] {
                Type::Function(method) => {
                    method_is_sound(
                        s.methods_defined(names, fields, struct_type, count - 1),
                        names[count - 1],
                        (count - 1) as u32,
                        *method,
                        struct_type,
                    );
                },
                _ => {},
            }
        }
    }
}

proof fn type_is_sound(s: Lowering, definition: TypeDefinition)
    ensures
        sound_on(s, s.type_defined(definition)),
{
    reveal(Lowering::type_defined);
    constructors_are_sound(s, definition.name, definition.body, definition.shared);
    let made = s.constructors_defined(definition.name, definition.body, definition.shared);
    release_is_sound(made, definition.name, definition.generics@);
    let made = if definition.shared {
        made.release_defined(definition.name, definition.generics@)
    } else {
        made
    };
    match definition.body {
        TypeDefinitionBody::Struct(fields) => {
            reveal(Lowering::ability_defined);
            let scoped = made.with_generics_of(made.generalized(definition.name));
            let layout = scoped.layout(made.generalized(definition.name));
            let parameters = match layout {
                Type::Function(function) => function.parameters.items(),
                _ => Seq::empty(),
            };
            methods_are_sound(
                scoped,
                fields@,
                parameters,
                returned_or_self(layout),
                fields@.len() as int,
            );
        },
        _ => {},
    }
}

proof fn global_is_sound(s: Lowering, lower: Lower, definition: Definition)
    requires
        keeps(lower),
    ensures
        sound_on(s, s.definition_lowered(lower, definition, true).1),
{
    broadcast use {
        kept_is_transitive,
        settled_is_transitive,
        carries_definition_started,
        keeps_definition_value_lowered,
        keeps_definition_bound,
        keeps_terminated,
        a_lone_block_stays,
        the_last_block_ends,
    };

    reveal(Lowering::definition_lowered);
    let name_id = s.pattern_name(definition.pattern);
    let scoped = match name_id {
        Some(name) => s.with_generics_of(s.generalized(name)),
        None => s.fails(),
    };
    let text = match name_id {
        Some(name) => s.answers.context@.name(name),
        None => "global"@,
    };
    if scoped.starts_global(definition) {
        let started = scoped.definition_started(
            text,
            name_id,
            scoped.generic_count(),
            scoped.global_layout(definition),
        );
        let (value, made) = started.definition_value_lowered(lower, definition, name_id, true);
        let done = made.definition_bound(definition, value).terminated(Terminator::Result(value));
        assert(kept(started, done));
        defining_is_sound(scoped, started, done);
    } else {
        let (value, made) = scoped.definition_value_lowered(lower, definition, name_id, true);
        let done = made.definition_bound(definition, value);
        assert(kept(scoped, done));
        kept_is_sound(scoped, done);
    }
}

impl Lowering {
    /// Whatever is lowered, a noted pair is a retain of a handle, a call behind it and a release of
    /// that handle behind the call; the noted positions are those of arguments of the call.
    pub proof fn law_pairs_hold(
        answers: Answers,
        top_level_id: TopLevelId,
        ids: IdState,
        item: Item,
    )
        ensures
            all_sound(
                Lowering::nothing(answers, top_level_id, ids).item_lowered(
                    item,
                ).program().definitions,
            ),
    {
        let start = Lowering::nothing(answers, top_level_id, ids);
        match item {
            Item::Definition(definition) => {
                recursion_keeps(NESTING_LIMIT as nat);
                global_is_sound(start, recursion(NESTING_LIMIT as nat), definition);
            },
            Item::TypeDefinition(definition) => {
                type_is_sound(start, definition);
            },
            _ => {},
        }
    }
}

impl Lowering {
    /// Whatever is lowered, every block of every definition ends: it goes on to another block, it
    /// gives a result, or nothing gets to its end.
    pub proof fn law_every_block_ends(
        answers: Answers,
        top_level_id: TopLevelId,
        ids: IdState,
        item: Item,
    )
        ensures
            ({
                let done = Lowering::nothing(answers, top_level_id, ids).item_lowered(item);
                !done.failed ==> all_end(done.program().definitions)
            }),
    {
        let start = Lowering::nothing(answers, top_level_id, ids);
        match item {
            Item::Definition(definition) => {
                recursion_keeps(NESTING_LIMIT as nat);
                global_is_sound(start, recursion(NESTING_LIMIT as nat), definition);
            },
            Item::TypeDefinition(definition) => {
                type_is_sound(start, definition);
            },
            _ => {},
        }
    }
}

impl DefinitionState {
    /// Taking out a pair that holds takes out a retain and a release of the same handle, and leaves
    /// the call between them.
    pub proof fn law_elision_is_balanced(self, program: Program, index: int)
        requires
            is_sound(self),
            self.instructions.len() <= INSTRUCTION_LIMIT,
            0 <= index < self.borrow_pairs.len(),
            self.can_elide(program, self.borrow_pairs[index]),
        ensures
            ({
                let pair = self.borrow_pairs[index];
                &&& self.goes(program, pair.retain)
                &&& self.goes(program, pair.release_call)
                &&& pair.call != pair.retain && pair.call != pair.release_call
                &&& self.instructions[pair.retain as int] matches Operation::RcRetain(handle)
                &&& self.instructions[pair.release_call as int] matches Operation::Call {
                    arguments,
                    ..
                }
                &&& arguments == seq![handle]
            }),
    {
        reveal(is_sound);
        let pair = self.borrow_pairs[index];
        assert(pair_holds(self, pair));
        assert(self.goes_with(program, index, pair.retain));
        assert(self.goes_with(program, index, pair.release_call));
        match self.instructions[pair.release_call as int] {
            Operation::Call { arguments, .. } => {
                assert(arguments =~= seq![arguments[0]]);
            },
            _ => {},
        }
    }
}

} // verus!

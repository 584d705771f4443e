//! What the functions do that no one wrote: constructors, releases, and the methods of abilities.

#[allow(unused_imports)]
use crate::cst::{ContextState, PatternForm};
#[allow(unused_imports)]
use crate::ids::{NameId, Origin, PatternId, ENTRY_BLOCK, NESTING_LIMIT};
#[allow(unused_imports)]
use crate::mir::builder::laws::{
    counting_up, keeps_cell_released, keeps_pushed, keeps_switched_to, keeps_terminated,
    keeps_with_block, kept, kept_is_reflexive, kept_is_transitive, left, settled,
};
#[allow(unused_imports)]
use crate::mir::builder::state::Lowering;
#[allow(unused_imports)]
use crate::mir::builder::variables::entry_parameters;
#[allow(unused_imports)]
use crate::mir::{FunctionType, IntConstant, Operation, PrimitiveType, Terminator, Type, Value};
#[allow(unused_imports)]
use crate::types::{IntegerKind, Type as TCType};
use vstd::prelude::*;

verus! {

/// `values` are the first parameters of a function, as many as `count`.
pub open spec fn are_first_parameters(values: Seq<Value>, count: int) -> bool {
    &&& values.len() == count
    &&& forall|i: int|
        0 <= i < count ==> #[trigger] values[i] == Value::Parameter(ENTRY_BLOCK, i as u32)
}

pub(crate) proof fn entry_parameters_are_first(count: int)
    requires
        0 <= count,
    ensures
        are_first_parameters(entry_parameters(count), count),
    decreases count,
{
    if count > 0 {
        entry_parameters_are_first(count - 1);
    }
}

impl Lowering {
    proof fn taking_goes_on(self, types: Seq<Type>, count: int)
        requires
            self.is_running(),
        ensures
            ({
                let after = self.with_plain_parameters(types, count);
                &&& after.is_running()
                &&& after == self.moved_to(after)
                &&& after.block == self.block
            }),
        decreases count,
    {
        reveal_with_fuel(Lowering::with_plain_parameters, 2);
        if count > 0 {
            self.taking_goes_on(types, count - 1);
            reveal(Lowering::with_parameter);
        }
    }

    /// A constructor packs its parameters in their order, puts its tag in front of them if it has
    /// one, and gives what it packed, or a handle to a new cell with it if the type is shared. One
    /// that takes nothing is a value, not a function. Gives the steps to that.
    pub proof fn law_a_constructor_packs_its_parameters(
        self,
        fields: Seq<Type>,
        tag: Option<u8>,
        payload: Type,
        shared: bool,
    ) -> (stages: (Seq<Value>, (Lowering, Value, Lowering), (Value, Lowering), (Value, Lowering), (
        Value,
        Lowering,
    )))
        requires
            self.is_running(),
            tag is Some ==> payload.tagged_union() is Some,
        ensures
            ({
                let (values, (ready, packed, at_packed), (cast, at_cast), (whole, at_whole), (
                    given,
                    at_given,
                )) = stages;
                let after = self.constructor_body(fields, tag, payload, shared);
                &&& are_first_parameters(values, fields.len() as int)
                &&& ready.is_running() && ready.block == self.block
                &&& ready.does(Operation::MakeTuple(values), packed, at_packed)
                &&& match tag {
                    None => (whole, at_whole) == (packed, at_packed),
                    Some(tag) => at_packed.does(Operation::Transmute(packed), cast, at_cast)
                        && at_cast.does(
                        Operation::MakeTuple(seq![Value::Integer(IntConstant::U8(tag)), cast]),
                        whole,
                        at_whole,
                    ),
                }
                &&& if shared {
                    at_whole.does(Operation::AllocShared(whole), given, at_given)
                } else {
                    (given, at_given) == (whole, at_whole)
                }
                &&& after.end_of(self.block) == Some(
                    if fields.len() == 0 {
                        Terminator::Result(given)
                    } else {
                        Terminator::Return(given)
                    },
                )
                &&& at_given.function.unwrap().instructions == after.function.unwrap().instructions
            }),
    {
        reveal(Lowering::constructor_body);
        reveal(Lowering::constructor_payload);
        reveal(Lowering::with_parameter);
        let count = fields.len() as int;
        self.taking_goes_on(fields, count);
        let taken = self.with_plain_parameters(fields, count);
        let ready = if fields.len() == 0 {
            taken
        } else {
            taken.with_parameter(Type::tuple(Seq::empty()))
        };
        entry_parameters_are_first(count);
        let values = entry_parameters(count);
        let pack = Operation::MakeTuple(values);
        ready.pushing_does(pack, Type::tuple(fields));
        let (packed, at_packed) = ready.pushed(pack, Type::tuple(fields));
        let (union, _) = payload.tagged_union().unwrap();
        let (cast, at_cast) = at_packed.pushed(Operation::Transmute(packed), union);
        at_packed.pushing_does(Operation::Transmute(packed), union);
        let (whole, at_whole) = match tag {
            None => (packed, at_packed),
            Some(tag) => {
                let join = Operation::MakeTuple(
                    seq![Value::Integer(IntConstant::U8(tag)), cast],
                );
                at_cast.pushing_does(join, payload);
                at_cast.pushed(join, payload)
            },
        };
        let (given, at_given) = if shared {
            at_whole.pushing_does(Operation::AllocShared(whole), Type::pointer());
            at_whole.pushed(Operation::AllocShared(whole), Type::pointer())
        } else {
            (whole, at_whole)
        };
        let end = if fields.len() == 0 {
            Terminator::Result(given)
        } else {
            Terminator::Return(given)
        };
        at_given.a_block_ends(end);
        reveal(Lowering::terminated);
        (values, (ready, packed, at_packed), (cast, at_cast), (whole, at_whole), (given, at_given))
    }

    /// The constructors of an enum are tagged with their places among the variants, from zero on,
    /// and one that is alone has no tag, like that of a struct.
    pub proof fn law_a_variant_is_tagged_by_its_place(
        self,
        variants: Seq<NameId>,
        shared: bool,
        count: int,
    )
        requires
            0 < count <= variants.len() <= 256,
        ensures
            ({
                let before = self.variants_defined(variants, shared, count - 1);
                let after = self.variants_defined(variants, shared, count);
                exists|tag: u8|
                    tag + 1 == count && after == #[trigger] before.constructor_defined(
                        variants[count - 1],
                        Some(tag),
                        shared,
                    )
            }),
            self.variants_defined(variants, shared, 0) == self,
    {
        reveal_with_fuel(Lowering::variants_defined, 2);
        let before = self.variants_defined(variants, shared, count - 1);
        let tag = (count - 1) as u8;
        assert(self.variants_defined(variants, shared, count) == before.constructor_defined(
            variants[count - 1],
            Some(tag),
            shared,
        ));
    }

    /// The copy of a handle loads it from where its parameter points, retains it and gives it. Gives
    /// the states around these steps.
    pub proof fn law_a_copy_of_a_handle_is_retained(self, parameters: Seq<Type>) -> (stages: (
        (Lowering, Value, Lowering),
        (Value, Lowering),
    ))
        requires
            self.is_running(),
        ensures
            ({
                let ((ready, handle, loaded), (gone, retained)) = stages;
                let after = self.copy_body(parameters);
                &&& ready.is_running() && ready.block == self.block
                &&& ready.does(
                    Operation::Deref(Value::Parameter(ENTRY_BLOCK, 0)),
                    handle,
                    loaded,
                )
                &&& loaded.does(Operation::RcRetain(handle), gone, retained)
                &&& after.end_of(self.block) == Some(Terminator::Return(handle))
                &&& after.function.unwrap().instructions == retained.function.unwrap().instructions
            }),
    {
        reveal(Lowering::copy_body);
        let count = parameters.len() as int;
        self.taking_goes_on(parameters, count);
        let ready = self.with_plain_parameters(parameters, count);
        let load = Operation::Deref(Value::Parameter(ENTRY_BLOCK, 0));
        ready.pushing_does(load, Type::pointer());
        let (handle, loaded) = ready.pushed(load, Type::pointer());
        loaded.pushing_does(Operation::RcRetain(handle), Type::unit());
        let (gone, retained) = loaded.pushed(Operation::RcRetain(handle), Type::unit());
        retained.a_block_ends(Terminator::Return(handle));
        reveal(Lowering::terminated);
        ((ready, handle, loaded), (gone, retained))
    }

    /// The function of a method takes the method out of the capability, which is the last parameter
    /// but one, and calls it with the parameters before that and the evidence, which is the last
    /// one. Gives the steps to that.
    pub proof fn law_a_method_is_taken_from_its_capability(
        self,
        index: u32,
        method: FunctionType,
        parameters: Seq<Type>,
    ) -> (stages: ((Lowering, Value, Lowering), (Seq<Value>, Value, Lowering)))
        requires
            self.is_running(),
            2 <= parameters.len() <= u32::MAX,
        ensures
            ({
                let ((ready, extracted, taken), (arguments, result, called)) = stages;
                let after = self.method_body(index, method, parameters);
                let count = parameters.len() as int;
                &&& ready.is_running() && ready.block == self.block
                &&& ready.does(
                    Operation::IndexTuple {
                        tuple: Value::Parameter(ENTRY_BLOCK, (count - 2) as u32),
                        index,
                    },
                    extracted,
                    taken,
                )
                &&& arguments.len() == count - 1
                &&& are_first_parameters(arguments.drop_last(), count - 2)
                &&& arguments.last() == Value::Parameter(ENTRY_BLOCK, (count - 1) as u32)
                &&& if Type::Function(Box::new(method)).is_closure() {
                    taken.does(
                        Operation::CallClosure { closure: extracted, arguments },
                        result,
                        called,
                    )
                } else {
                    taken.does(Operation::Call { function: extracted, arguments }, result, called)
                }
                &&& after.end_of(self.block) == Some(Terminator::Return(result))
                &&& after.function.unwrap().instructions == called.function.unwrap().instructions
            }),
    {
        reveal(Lowering::method_body);
        let typ = Type::Function(Box::new(method));
        let count = parameters.len() as int;
        self.taking_goes_on(parameters, count);
        let ready = self.with_plain_parameters(parameters, count);
        let take = Operation::IndexTuple {
            tuple: Value::Parameter(ENTRY_BLOCK, (count - 2) as u32),
            index,
        };
        ready.pushing_does(take, typ);
        let (extracted, taken) = ready.pushed(take, typ);
        entry_parameters_are_first(count - 2);
        let first = entry_parameters(count - 2);
        let arguments = first.push(Value::Parameter(ENTRY_BLOCK, (count - 1) as u32));
        assert(arguments.drop_last() =~= first);
        let call = if typ.is_closure() {
            Operation::CallClosure { closure: extracted, arguments }
        } else {
            Operation::Call { function: extracted, arguments }
        };
        taken.pushing_does(call, method.return_type);
        let (result, called) = taken.pushed(call, method.return_type);
        called.a_block_ends(Terminator::Return(result));
        reveal(Lowering::terminated);
        ((ready, extracted, taken), (arguments, result, called))
    }

    /// A release counts the cell down. Where the count reached zero, what the cell holds is released
    /// and the cell is freed; where it did not, nothing happens. Gives the count, and the states
    /// before and behind the release of what the cell holds.
    pub proof fn law_a_cell_is_freed_when_its_count_is_zero(
        self,
        handle: Value,
        typ: TCType,
        args: Seq<TCType>,
    ) -> (stages: ((Value, Lowering), (Lowering, Lowering), (Value, Lowering)))
        requires
            self.is_running(),
            self.release_once(handle, typ, args).is_numbered(),
        ensures
            ({
                let ((zero, counted), (dying, released), (gone, freed)) = stages;
                let after = self.release_once(handle, typ, args);
                &&& self.does(Operation::RcDecrement(handle), zero, counted)
                &&& dying == counted.moved_to(dying)
                &&& dying.is_at_a_start()
                &&& dying.block != self.block && dying.block != after.block && after.block
                    != self.block
                &&& after.branches(self.block, zero, dying.block, after.block)
                &&& released == dying.cell_released(handle, typ, args, None)
                &&& released.is_running() ==> {
                    &&& released.does(Operation::FreeShared(handle), gone, freed)
                    &&& after.always_goes(released.block, after.block)
                }
                &&& freed.is_part_of(after)
                &&& after.end_of(after.block) == Some(Terminator::Return(Value::Unit))
            }),
    {
        broadcast use {kept_is_reflexive, kept_is_transitive, keeps_switched_to, keeps_pushed};

        reveal(Lowering::release_once);
        let after = self.release_once(handle, typ, args);
        let none = Seq::<Type>::empty();
        let decrement = Operation::RcDecrement(handle);
        self.pushing_does(decrement, Type::boolean());
        let (zero, counted) = self.pushed(decrement, Type::boolean());
        let (glue, one) = counted.with_block(none);
        let (rest, two) = one.with_block(none);
        keeps_with_block(counted, none);
        keeps_with_block(one, none);
        let test = Terminator::If { cond: zero, then: glue, else_: rest, end: rest };
        let decided = two.terminated(test);
        keeps_terminated(two, test);
        let dying = decided.switched_to(glue);
        let released = dying.cell_released(handle, typ, args, None);
        keeps_cell_released(dying, handle, typ, args, None);
        let free = Operation::FreeShared(handle);
        let (gone, freed) = released.pushed(free, Type::unit());
        let jump = Terminator::Jmp(rest, None);
        let jumped = freed.terminated(jump);
        keeps_terminated(freed, jump);
        let last = jumped.switched_to(rest);
        let end = Terminator::Return(Value::Unit);
        keeps_terminated(last, end);
        counting_up(counted, after);
        counting_up(one, after);
        counting_up(two, after);
        counting_up(released, after);
        counting_up(freed, after);
        counted.a_block_is_added(none);
        one.a_block_is_added(none);
        two.a_block_ends(test);
        decided.an_end_stays(after, self.block);
        dying.a_block_stays(released, rest as int);
        assert(freed.has_block() && freed.block == released.block
            && freed.function.unwrap().blocks[rest as int]
            == released.function.unwrap().blocks[rest as int]) by {
            reveal(Lowering::pushed);
        }
        freed.kept_code_is_part(after);
        freed.a_block_ends(jump);
        if released.is_running() {
            released.pushing_does(free, Type::unit());
            jumped.an_end_stays(after, released.block);
        }
        assert(freed.block_count() == released.block_count()) by {
            reveal(Lowering::pushed);
        }
        assert(jumped.block_count() == freed.block_count());
        assert(last.has_block());
        assert(!last.is_terminated());
        last.a_block_ends(end);
        ((zero, counted), (dying, released), (gone, freed))
    }
}

/// The steps of a release that goes on along a chain.
pub struct ChainSteps {
    /// What stands for no handle, the slot of the next handle, and that of the current one.
    pub null: Value,
    pub next_slot: Value,
    pub cur_slot: Value,
    /// The states in which these are there one after the other, and the one at the start of each
    /// round.
    pub nulled: Lowering,
    pub halfway: Lowering,
    pub ready: Lowering,
    pub round: Lowering,
    /// The current handle, and whether its count reached zero, with the states behind that.
    pub cur: Value,
    pub loaded: Lowering,
    pub zero: Value,
    pub counted: Lowering,
    /// The states around the release of what the cell holds, and behind the free.
    pub dying: Lowering,
    pub cleared: Lowering,
    pub released: Lowering,
    pub freed: Lowering,
    /// The next handle, its number, and whether there is none, with the states behind that.
    pub next: Value,
    pub found: Lowering,
    pub number: Value,
    pub converted: Lowering,
    pub is_null: Value,
    pub tested: Lowering,
    /// The state in which the release goes on.
    pub advancing: Lowering,
}

impl Lowering {
    /// A release that goes on starts with the handle it was given. In each round it counts the cell
    /// of the current handle down and ends where the count did not reach zero. Where it did, it
    /// forgets the next handle, releases what the cell holds but for the last handle of its own
    /// type, which becomes the next one, and frees the cell. It ends where there is no next handle,
    /// and otherwise goes on with it.
    pub proof fn law_a_chain_is_released_link_by_link(
        self,
        handle: Value,
        typ: TCType,
        args: Seq<TCType>,
    ) -> (steps: ChainSteps)
        requires
            self.is_running(),
            self.release_chain(handle, typ, args).is_numbered(),
        ensures
            ({
                let after = self.release_chain(handle, typ, args);
                let zero_number = Value::Integer(IntConstant::Usz(0));
                &&& self.does(Operation::Transmute(zero_number), steps.null, steps.nulled)
                &&& steps.nulled.does(
                    Operation::StackAlloc(steps.null),
                    steps.next_slot,
                    steps.halfway,
                )
                &&& steps.halfway.does(
                    Operation::StackAlloc(handle),
                    steps.cur_slot,
                    steps.ready,
                )
                &&& after.always_goes(self.block, steps.round.block)
                &&& steps.round.is_at_a_start()
                &&& steps.round.does(Operation::Deref(steps.cur_slot), steps.cur, steps.loaded)
                &&& steps.loaded.does(
                    Operation::RcDecrement(steps.cur),
                    steps.zero,
                    steps.counted,
                )
                &&& after.branches(
                    steps.round.block,
                    steps.zero,
                    steps.dying.block,
                    after.block,
                )
                &&& steps.dying.is_at_a_start()
                &&& exists|gone: Value| #[trigger]
                    steps.dying.does(
                        Operation::Store { pointer: steps.next_slot, value: steps.null },
                        gone,
                        steps.cleared,
                    )
                &&& steps.released == steps.cleared.cell_released(
                    steps.cur,
                    typ,
                    args,
                    Some(steps.next_slot),
                )
                &&& steps.released.is_running() ==> {
                    &&& exists|gone: Value| #[trigger]
                        steps.released.does(Operation::FreeShared(steps.cur), gone, steps.freed)
                    &&& steps.freed.does(
                        Operation::Deref(steps.next_slot),
                        steps.next,
                        steps.found,
                    )
                    &&& steps.found.does(
                        Operation::Transmute(steps.next),
                        steps.number,
                        steps.converted,
                    )
                    &&& steps.converted.does(
                        Operation::EqInt(steps.number, zero_number),
                        steps.is_null,
                        steps.tested,
                    )
                    &&& after.branches(
                        steps.released.block,
                        steps.is_null,
                        after.block,
                        steps.advancing.block,
                    )
                    &&& steps.advancing.is_at_a_start()
                    &&& exists|gone: Value, done: Lowering| #[trigger]
                        steps.advancing.does(
                            Operation::Store { pointer: steps.cur_slot, value: steps.next },
                            gone,
                            done,
                        ) && done.is_part_of(after)
                    &&& after.always_goes(steps.advancing.block, steps.round.block)
                }
                &&& after.end_of(after.block) == Some(Terminator::Return(Value::Unit))
            }),
    {
        broadcast use {kept_is_reflexive, kept_is_transitive, keeps_switched_to, keeps_pushed};

        reveal(Lowering::release_chain);
        reveal(Lowering::chain_advanced);
        let after = self.release_chain(handle, typ, args);
        let none = Seq::<Type>::empty();
        let zero_number = Value::Integer(IntConstant::Usz(0));
        let op = Operation::Transmute(zero_number);
        self.pushing_does(op, Type::pointer());
        let (null, one) = self.pushed(op, Type::pointer());
        one.pushing_does(Operation::StackAlloc(null), Type::pointer());
        let (next_slot, two) = one.pushed(Operation::StackAlloc(null), Type::pointer());
        two.pushing_does(Operation::StackAlloc(handle), Type::pointer());
        let (cur_slot, ready) = two.pushed(Operation::StackAlloc(handle), Type::pointer());
        let (header, with_header) = ready.with_block(none);
        let (glue, with_glue) = with_header.with_block(none);
        let (advance, with_advance) = with_glue.with_block(none);
        let (exit, opened) = with_advance.with_block(none);
        keeps_with_block(ready, none);
        keeps_with_block(with_header, none);
        keeps_with_block(with_glue, none);
        keeps_with_block(with_advance, none);
        let entry = Terminator::Jmp(header, None);
        let entered = opened.terminated(entry);
        keeps_terminated(opened, entry);
        let round = entered.switched_to(header);
        let (cur, loaded) = round.pushed(Operation::Deref(cur_slot), Type::pointer());
        let (zero, counted) = loaded.pushed(Operation::RcDecrement(cur), Type::boolean());
        let test = Terminator::If { cond: zero, then: glue, else_: exit, end: exit };
        let decided = counted.terminated(test);
        keeps_terminated(counted, test);
        let dying = decided.switched_to(glue);
        let forget = Operation::Store { pointer: next_slot, value: null };
        let (gone, cleared) = dying.pushed(forget, Type::unit());
        let released = cleared.cell_released(cur, typ, args, Some(next_slot));
        keeps_cell_released(cleared, cur, typ, args, Some(next_slot));
        let free = Operation::FreeShared(cur);
        let (gone_too, freed) = released.pushed(free, Type::unit());
        let number_type = Type::Primitive(PrimitiveType::Int(IntegerKind::Usz));
        let (next, next_loaded) = freed.pushed(Operation::Deref(next_slot), Type::pointer());
        let (number, converted) = next_loaded.pushed(Operation::Transmute(next), number_type);
        let compare = Operation::EqInt(number, zero_number);
        let (is_null, tested) = converted.pushed(compare, Type::boolean());
        let choice = Terminator::If { cond: is_null, then: exit, else_: advance, end: exit };
        let chosen = tested.terminated(choice);
        keeps_terminated(tested, choice);
        let advancing = chosen.switched_to(advance);
        let store = Operation::Store { pointer: cur_slot, value: next };
        let (stored_value, stored) = advancing.pushed(store, Type::unit());
        let looped = stored.terminated(entry);
        keeps_terminated(stored, entry);
        let last = looped.switched_to(exit);
        let end = Terminator::Return(Value::Unit);
        keeps_terminated(last, end);
        counting_up(ready, after);
        counting_up(with_header, after);
        counting_up(with_glue, after);
        counting_up(with_advance, after);
        counting_up(opened, after);
        counting_up(counted, after);
        counting_up(released, after);
        counting_up(tested, after);
        counting_up(stored, after);
        ready.a_block_is_added(none);
        with_header.a_block_is_added(none);
        with_glue.a_block_is_added(none);
        with_advance.a_block_is_added(none);
        opened.a_block_ends(entry);
        entered.an_end_stays(after, self.block);
        round.pushing_does(Operation::Deref(cur_slot), Type::pointer());
        loaded.pushing_does(Operation::RcDecrement(cur), Type::boolean());
        counted.a_block_ends(test);
        decided.an_end_stays(after, header);
        dying.pushing_does(forget, Type::unit());
        cleared.a_block_stays(released, advance as int);
        cleared.a_block_stays(released, exit as int);
        assert(released.block != advance && released.block != exit);
        released.pushing_stays(free, Type::unit());
        freed.pushing_stays(Operation::Deref(next_slot), Type::pointer());
        next_loaded.pushing_stays(Operation::Transmute(next), number_type);
        converted.pushing_stays(compare, Type::boolean());
        tested.a_block_ends(choice);
        if released.is_running() {
            released.pushing_does(free, Type::unit());
            freed.pushing_does(Operation::Deref(next_slot), Type::pointer());
            next_loaded.pushing_does(Operation::Transmute(next), number_type);
            converted.pushing_does(compare, Type::boolean());
            chosen.an_end_stays(after, released.block);
        }
        advancing.pushing_does(store, Type::unit());
        stored.kept_code_is_part(after);
        stored.a_block_ends(entry);
        looped.an_end_stays(after, advance);
        assert(last.has_block());
        assert(!last.is_terminated());
        last.a_block_ends(end);
        ChainSteps {
            null,
            next_slot,
            cur_slot,
            nulled: one,
            halfway: two,
            ready,
            round,
            cur,
            loaded,
            zero,
            counted,
            dying,
            cleared,
            released,
            freed,
            next,
            found: next_loaded,
            number,
            converted,
            is_null,
            tested,
            advancing,
        }
    }

    /// Pushing goes on in the current block, and leaves the others alone.
    proof fn pushing_stays(self, operation: Operation, typ: Type)
        requires
            self.has_block(),
        ensures
            ({
                let after = self.pushed(operation, typ).1;
                &&& after.has_block()
                &&& after.block == self.block
                &&& after.block_count() == self.block_count()
                &&& forall|i: int|
                    0 <= i < self.block_count() && i != self.block
                        ==> #[trigger] after.function.unwrap().blocks[i]
                        == self.function.unwrap().blocks[i]
            }),
    {
        reveal(Lowering::pushed);
    }
}

} // verus!

//! What operations depend on, and when a retain and its release can go.

#[allow(unused_imports)]
use crate::ids::{BlockId, DefinitionId, InstructionId, ENTRY_BLOCK};
#[allow(unused_imports)]
use crate::mir::elide_borrow_pairs::{ArgClass, Fact};
#[allow(unused_imports)]
use crate::mir::{DefinitionState, HandlerCase, Operation, Pair, Program, Terminator, Value};
use vstd::prelude::*;

verus! {

proof fn two_values(first: Value, second: Value, value: Value)
    ensures
        seq![first, second].contains(value) <==> value == first || value == second,
        seq![first].contains(value) <==> value == first,
{
    if value == first {
        assert(seq![first, second][0] == value);
        assert(seq![first][0] == value);
    }
    if value == second {
        assert(seq![first, second][1] == value);
    }
}

proof fn one_in_front(first: Value, rest: Seq<Value>, value: Value)
    ensures
        (seq![first] + rest).contains(value) <==> value == first || rest.contains(value),
{
    let all = seq![first] + rest;
    if value == first {
        assert(all[0] == value);
    }
    if rest.contains(value) {
        let i = choose|i: int| 0 <= i < rest.len() && rest[i] == value;
        assert(all[i + 1] == value);
    }
    if all.contains(value) {
        let i = choose|i: int| 0 <= i < all.len() && all[i] == value;
        if i > 0 {
            assert(rest[i - 1] == value);
        }
    }
}

impl Operation {
    /// What the operation does depends on the value.
    pub open spec fn depends_on(self, used: Value) -> bool {
        match self {
            Operation::Call { function, arguments } => used == function || arguments.contains(used),
            Operation::CallClosure { closure, arguments } => used == closure || arguments.contains(
                used,
            ),
            Operation::PackClosure { function, environment } => used == function || used
                == environment,
            Operation::IndexTuple { tuple, .. } => used == tuple,
            Operation::MakeTuple(values) => values.contains(used),
            Operation::MakeArray(values) => values.contains(used),
            Operation::GetFieldPtr { struct_ptr, .. } => used == struct_ptr,
            Operation::StackAlloc(value) => used == value,
            Operation::Store { pointer, value } => used == pointer || used == value,
            Operation::Deref(value) => used == value,
            Operation::Transmute(value) => used == value,
            Operation::Id(value) => used == value,
            Operation::AddInt(a, b) => used == a || used == b,
            Operation::EqInt(a, b) => used == a || used == b,
            Operation::LessSigned(a, b) => used == a || used == b,
            Operation::LessUnsigned(a, b) => used == a || used == b,
            Operation::AllocShared(value) => used == value,
            Operation::FreeShared(value) => used == value,
            Operation::RcRetain(value) => used == value,
            Operation::RcDecrement(value) => used == value,
            Operation::RetainClosureEnv(value) => used == value,
            Operation::ReleaseClosureEnv(value) => used == value,
            Operation::Handle { body, cases } => used == body || exists|i: int|
                0 <= i < cases.len() && (#[trigger] cases[i]).handler == used,
            Operation::Intrinsic { arguments, .. } => arguments.contains(used),
            Operation::MakeBytes(_) => false,
            Operation::Instantiate(_, _) => false,
            Operation::Extern(_) => false,
            Operation::Capability => false,
        }
    }

    /// The values of an operation are all that it depends on.
    pub proof fn law_an_operation_refers_to_what_it_depends_on(self, used: Value)
        ensures
            self.values().contains(used) <==> self.depends_on(used),
    {
        match self {
            Operation::Call { function, arguments } => {
                one_in_front(function, arguments, used);
            },
            Operation::CallClosure { closure, arguments } => {
                one_in_front(closure, arguments, used);
            },
            Operation::PackClosure { function, environment } => {
                two_values(function, environment, used);
            },
            Operation::IndexTuple { tuple, .. } => {
                two_values(tuple, tuple, used);
            },
            Operation::GetFieldPtr { struct_ptr, .. } => {
                two_values(struct_ptr, struct_ptr, used);
            },
            Operation::StackAlloc(value)
            | Operation::Deref(value)
            | Operation::Transmute(value)
            | Operation::Id(value)
            | Operation::AllocShared(value)
            | Operation::FreeShared(value)
            | Operation::RcRetain(value)
            | Operation::RcDecrement(value)
            | Operation::RetainClosureEnv(value)
            | Operation::ReleaseClosureEnv(value) => {
                two_values(value, value, used);
            },
            Operation::Store { pointer, value } => {
                two_values(pointer, value, used);
            },
            Operation::AddInt(a, b)
            | Operation::EqInt(a, b)
            | Operation::LessSigned(a, b)
            | Operation::LessUnsigned(a, b) => {
                two_values(a, b, used);
            },
            Operation::Handle { body, cases } => {
                let handlers = cases.map_values(|case: HandlerCase| case.handler);
                one_in_front(body, handlers, used);
                if handlers.contains(used) {
                    let i = choose|i: int| 0 <= i < handlers.len() && handlers[i] == used;
                    assert(cases[i].handler == used);
                }
                if exists|i: int| 0 <= i < cases.len() && (#[trigger] cases[i]).handler == used {
                    let i = choose|i: int|
                        0 <= i < cases.len() && (#[trigger] cases[i]).handler == used;
                    assert(handlers[i] == used);
                }
            },
            _ => {},
        }
    }
}

impl Terminator {
    /// Where the block goes, or what it hands over, depends on the value.
    pub open spec fn depends_on(self, used: Value) -> bool {
        match self {
            Terminator::Jmp(_, argument) => argument == Some(used),
            Terminator::If { cond, .. } => used == cond,
            Terminator::Switch { int_value, cases, otherwise, .. } => {
                ||| used == int_value
                ||| exists|i: int| 0 <= i < cases.len() && (#[trigger] cases[i]).1.1 == Some(used)
                ||| otherwise.1 == Some(used)
            },
            Terminator::Unreachable => false,
            Terminator::Return(value) => used == value,
            Terminator::Result(value) => used == value,
        }
    }

    proof fn cases_hand_over(cases: Seq<(u32, (BlockId, Option<Value>))>, used: Value)
        ensures
            Terminator::case_values(cases).contains(used) <==> exists|i: int|
                0 <= i < cases.len() && (#[trigger] cases[i]).1.1 == Some(used),
        decreases cases.len(),
    {
        if cases.len() > 0 {
            let earlier = cases.drop_last();
            Terminator::cases_hand_over(earlier, used);
            let before = Terminator::case_values(earlier);
            let all = Terminator::case_values(cases);
            if before.contains(used) {
                let i = choose|i: int| 0 <= i < before.len() && before[i] == used;
                assert(all[i] == used);
                let k = choose|k: int|
                    0 <= k < earlier.len() && (#[trigger] earlier[k]).1.1 == Some(used);
                assert(cases[k].1.1 == Some(used));
            }
            if cases.last().1.1 == Some(used) {
                assert(all[before.len() as int] == used);
                assert(cases[cases.len() - 1].1.1 == Some(used));
            }
            if all.contains(used) {
                let i = choose|i: int| 0 <= i < all.len() && all[i] == used;
                if i < before.len() {
                    assert(before[i] == used);
                }
            }
            if exists|i: int| 0 <= i < cases.len() && (#[trigger] cases[i]).1.1 == Some(used) {
                let i = choose|i: int|
                    0 <= i < cases.len() && (#[trigger] cases[i]).1.1 == Some(used);
                if i < cases.len() - 1 {
                    assert(earlier[i].1.1 == Some(used));
                }
            }
        }
    }

    /// The values of the end of a block are all that it depends on.
    pub proof fn law_an_end_refers_to_what_it_depends_on(self, used: Value)
        ensures
            self.values().contains(used) <==> self.depends_on(used),
    {
        match self {
            Terminator::Jmp(_, Some(value)) => {
                two_values(value, value, used);
            },
            Terminator::If { cond, .. } => {
                two_values(cond, cond, used);
            },
            Terminator::Switch { int_value, cases, otherwise, .. } => {
                Terminator::cases_hand_over(cases, used);
                let handed = Terminator::case_values(cases);
                one_in_front(int_value, handed, used);
                let values = seq![int_value] + handed;
                match otherwise.1 {
                    Some(value) => {
                        let all = values.push(value);
                        if values.contains(used) {
                            let i = choose|i: int| 0 <= i < values.len() && values[i] == used;
                            assert(all[i] == used);
                        }
                        if value == used {
                            assert(all[values.len() as int] == used);
                        }
                        if all.contains(used) {
                            let i = choose|i: int| 0 <= i < all.len() && all[i] == used;
                            if i < values.len() {
                                assert(values[i] == used);
                            }
                        }
                    },
                    None => {},
                }
            },
            Terminator::Return(value) | Terminator::Result(value) => {
                two_values(value, value, used);
            },
            _ => {},
        }
    }
}

impl Program {
    /// The argument cannot suspend: it comes to a definition, or it is a parameter of the function
    /// for which nothing is ever passed that can.
    pub open spec fn cannot_suspend(self, caller: DefinitionState, argument: Value) -> bool {
        ||| caller.target(argument) is Some
        ||| argument matches Value::Parameter(block, index) && block == ENTRY_BLOCK
            && !self.impure((caller.id, index))
    }

    /// An argument is pure if and only if it cannot suspend.
    pub proof fn law_what_is_pure_cannot_suspend(self, caller: DefinitionState, argument: Value)
        ensures
            caller.is_pure(self, argument) <==> self.cannot_suspend(caller, argument),
    {
    }

    /// For a parameter that is not impure, every call of its function that is in the program passes
    /// something that cannot suspend.
    pub proof fn law_what_is_passed_for_a_pure_parameter_cannot_suspend(
        self,
        fact: Fact,
        key: DefinitionId,
        call: int,
        position: int,
    )
        requires
            !self.impure(fact),
            self.definitions.contains_key(key),
            0 <= call < self.definitions[key].instructions.len(),
            self.definitions[key].instructions[call] matches Operation::Call { function, arguments }
                && self.definitions[key].target(function) == Some(fact.0) && 0 <= position
                < arguments.len() && position as u32 == fact.1,
        ensures
            self.cannot_suspend(
                self.definitions[key],
                self.definitions[key].instructions[call]->Call_arguments[position],
            ),
    {
        let caller = self.definitions[key];
        let argument = caller.instructions[call]->Call_arguments[position];
        assert(caller.passes(call, position, argument, fact));
        match caller.class_of(argument) {
            ArgClass::Impure => {
                assert(self.passes_impure(key, call, position, argument, fact));
                assert(self.impure_in(fact, 0));
                assert(self.impure(fact));
            },
            ArgClass::Param(index) => {
                let from = (caller.id, index);
                if self.impure(from) {
                    assert(self.passes_parameter(key, call, position, argument, from, fact));
                    assert(self.flows(from, fact));
                    let steps = choose|steps: nat| #[trigger] self.impure_in(from, steps);
                    assert(self.impure_in(from, ((steps + 1) - 1) as nat));
                    assert(self.impure_in(fact, steps + 1));
                    assert(self.impure(fact));
                }
            },
            ArgClass::Pure => {},
        }
    }

    /// The parameters of a function whose value is used other than to be called are all impure: it
    /// may be called from anywhere.
    pub proof fn law_a_function_that_is_used_as_a_value_is_called_from_anywhere(
        self,
        id: DefinitionId,
        key: DefinitionId,
        user: DefinitionId,
        instruction: int,
        index: u32,
    )
        requires
            self.definitions.contains_key(key),
            self.definitions[key].id == id,
            index < self.definitions[key].parameter_count(),
            self.definitions.contains_key(user),
            0 <= instruction < self.definitions[user].instructions.len(),
            match self.definitions[user].instructions[instruction] {
                Operation::Call { arguments, .. } => arguments.contains(Value::Definition(id)),
                Operation::Id(_) => false,
                other => other.depends_on(Value::Definition(id)),
            },
        ensures
            self.impure((id, index)),
    {
        let own = self.definitions[user];
        let value = Value::Definition(id);
        own.instructions[instruction].law_an_operation_refers_to_what_it_depends_on(value);
        assert(own.instruction_uses(instruction, value));
        assert(own.uses(value));
        assert(own.escapes_in(value, 0));
        assert(own.escapes(value));
        assert(self.definitions.contains_key(user) && self.definitions[user].escapes(value));
        assert(self.escaping(id));
        assert(self.parameter_escapes(key, (id, index)));
        assert(self.impure_at_once((id, index)));
        assert(self.impure_in((id, index), 0));
    }
}

impl DefinitionState {
    /// The retain and the release of a pair go if and only if both are still there, and so is the
    /// call between them, and none of the implicit arguments of the call can suspend.
    pub proof fn law_a_pair_goes_if_its_call_cannot_suspend(self, program: Program, pair: Pair)
        ensures
            self.can_elide(program, pair) <==> {
                &&& exists|block: int| #[trigger] self.block_has(block, pair.retain)
                &&& exists|block: int| #[trigger] self.block_has(block, pair.release_call)
                &&& exists|block: int| #[trigger] self.block_has(block, pair.call)
                &&& pair.call < self.instructions.len()
                &&& self.instructions[pair.call as int] is Call
                &&& forall|i: int|
                    0 <= i < pair.implicit_args.len() ==> {
                        let arguments = self.instructions[pair.call as int]->Call_arguments;
                        let place = #[trigger] pair.implicit_args[i];
                        place < arguments.len() && program.cannot_suspend(
                            self,
                            arguments[place as int],
                        )
                    }
            },
    {
        if pair.call < self.instructions.len() && self.instructions[pair.call as int] is Call {
            let arguments = self.instructions[pair.call as int]->Call_arguments;
            assert forall|i: int| 0 <= i < pair.implicit_args.len() && (
            #[trigger] pair.implicit_args[i]) < arguments.len() implies self.is_pure(
                program,
                arguments[pair.implicit_args[i] as int],
            ) == program.cannot_suspend(self, arguments[pair.implicit_args[i] as int]) by {
                program.law_what_is_pure_cannot_suspend(
                    self,
                    arguments[pair.implicit_args[i] as int],
                );
            }
        }
    }
}

} // verus!

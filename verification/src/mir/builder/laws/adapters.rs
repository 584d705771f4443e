//! How functions are adapted to the evidence they are given.

#[allow(unused_imports)]
use crate::ids::{DefinitionId, ExprId, NESTING_LIMIT};
#[allow(unused_imports)]
use crate::mir::builder::state::Lowering;
#[allow(unused_imports)]
use crate::mir::{Operation, Terminator, Type, Value};
use vstd::prelude::*;

verus! {

impl Lowering {
    /// Parameters are taken in turn, behind those that the block has.
    pub proof fn law_parameters_are_taken_in_turn(self, types: Seq<Type>, count: int)
        requires
            self.has_block(),
            0 <= count <= types.len(),
        ensures
            ({
                let (values, after) = self.with_parameters(types, count);
                let own = self.current().parameter_types;
                &&& values.len() == count
                &&& forall|i: int|
                    0 <= i < count ==> #[trigger] values[i] == Value::Parameter(
                        self.block,
                        (own.len() + i) as u32,
                    )
                &&& after.has_block()
                &&& after.block == self.block
                &&& after.current().parameter_types == own + types.take(count)
                &&& after.current().terminator == self.current().terminator
            }),
        decreases count,
    {
        reveal_with_fuel(Lowering::with_parameters, 2);
        let own = self.current().parameter_types;
        if count > 0 {
            self.law_parameters_are_taken_in_turn(types, count - 1);
            reveal(Lowering::with_capability_parameter);
            reveal(Lowering::with_parameter);
            assert(own + types.take(count) =~= (own + types.take(count - 1)).push(types[count - 1]));
        } else {
            assert(own + types.take(0) =~= own);
        }
    }

    /// An adapter passes on its parameters but for the last, which is its evidence. In the place of
    /// that it passes the part of it that is needed, and behind it its environment if it has one. It
    /// gives what comes back. Gives the steps to that.
    pub proof fn law_an_adapter_passes_on_what_it_is_given(
        self,
        expected: Seq<Type>,
        needed: Type,
        environment: Option<Type>,
        target: (DefinitionId, Option<Seq<Type>>),
        target_type: Type,
        return_type: Type,
    ) -> (stages: ((Seq<Value>, Seq<Value>, Lowering), (Value, Lowering), (Value, Lowering), (
        Value,
        Lowering,
    )))
        requires
            self.is_running(),
            expected.len() > 0,
        ensures
            ({
                let ((params, inner, ready), (evidence, projected), (function, named), (
                    result,
                    called,
                )) = stages;
                let after = self.adapter_body(
                    expected,
                    needed,
                    environment,
                    target,
                    target_type,
                    return_type,
                );
                let own = self.current().parameter_types.len();
                let count = expected.len() as int;
                &&& params.len() == count
                &&& forall|i: int|
                    0 <= i < count ==> #[trigger] params[i] == Value::Parameter(
                        self.block,
                        (own + i) as u32,
                    )
                &&& environment is None ==> inner.len() == 0
                &&& environment is Some ==> inner == seq![
                    Value::Parameter(self.block, (own + count) as u32),
                ]
                &&& (evidence, projected) == ready.evidence_projected(
                    params[count - 1],
                    expected[count - 1],
                    needed,
                )
                &&& (function, named) == projected.target_value(target.0, target.1, target_type)
                &&& named.is_running() ==> {
                    &&& named.does(
                        Operation::Call {
                            function,
                            arguments: params.take(count - 1).push(evidence) + inner,
                        },
                        result,
                        called,
                    )
                    &&& after.end_of(named.block) == Some(Terminator::Return(result))
                }
            }),
    {
        reveal(Lowering::adapter_body);
        reveal(Lowering::with_capability_parameter);
        reveal(Lowering::with_parameter);
        let count = expected.len() as int;
        self.law_parameters_are_taken_in_turn(expected, count);
        let (params, made) = self.with_parameters(expected, count);
        let (inner, ready) = match environment {
            Some(typ) => {
                let (value, made) = made.with_capability_parameter(typ);
                (seq![value], made)
            },
            None => (Seq::empty(), made),
        };
        let (evidence, projected) = ready.evidence_projected(
            params.last(),
            expected.last(),
            needed,
        );
        let (function, named) = projected.target_value(target.0, target.1, target_type);
        let arguments = params.drop_last().push(evidence) + inner;
        assert(params.drop_last() =~= params.take(count - 1));
        let call = Operation::Call { function, arguments };
        let (result, called) = named.pushed(call, return_type);
        if named.is_running() {
            named.pushing_does(call, return_type);
            called.a_block_ends(Terminator::Return(result));
        }
        ((params, inner, ready), (evidence, projected), (function, named), (result, called))
    }

    /// An adapter of a function that is only known as a value calls it as its environment, with its
    /// own parameters and the part of the evidence that is needed. Gives the steps to that.
    pub proof fn law_a_value_is_adapted_as_an_environment(
        self,
        expected: Seq<Type>,
        needed: Type,
        inner_type: Type,
        return_type: Type,
    ) -> (stages: ((Seq<Value>, Value, Lowering), (Value, Lowering), (Value, Lowering)))
        requires
            self.is_running(),
            expected.len() > 0,
        ensures
            ({
                let ((params, inner, ready), (evidence, projected), (result, called)) = stages;
                let after = self.dynamic_adapter_body(expected, needed, inner_type, return_type);
                let own = self.current().parameter_types.len();
                let count = expected.len() as int;
                let arguments = params.take(count - 1).push(evidence);
                &&& params.len() == count
                &&& forall|i: int|
                    0 <= i < count ==> #[trigger] params[i] == Value::Parameter(
                        self.block,
                        (own + i) as u32,
                    )
                &&& inner == Value::Parameter(self.block, (own + count) as u32)
                &&& (evidence, projected) == ready.evidence_projected(
                    params[count - 1],
                    expected[count - 1],
                    needed,
                )
                &&& projected.is_running() ==> {
                    &&& projected.does(
                        if inner_type.is_closure() {
                            Operation::CallClosure { closure: inner, arguments }
                        } else {
                            Operation::Call { function: inner, arguments }
                        },
                        result,
                        called,
                    )
                    &&& after.end_of(projected.block) == Some(Terminator::Return(result))
                }
            }),
    {
        reveal(Lowering::dynamic_adapter_body);
        reveal(Lowering::with_capability_parameter);
        reveal(Lowering::with_parameter);
        let count = expected.len() as int;
        self.law_parameters_are_taken_in_turn(expected, count);
        let (params, made) = self.with_parameters(expected, count);
        let (inner, ready) = made.with_capability_parameter(inner_type);
        let (evidence, projected) = ready.evidence_projected(
            params.last(),
            expected.last(),
            needed,
        );
        let arguments = params.drop_last().push(evidence);
        assert(params.drop_last() =~= params.take(count - 1));
        let call = if inner_type.is_closure() {
            Operation::CallClosure { closure: inner, arguments }
        } else {
            Operation::Call { function: inner, arguments }
        };
        let (result, called) = projected.pushed(call, return_type);
        if projected.is_running() {
            projected.pushing_does(call, return_type);
            called.a_block_ends(Terminator::Return(result));
        }
        ((params, inner, ready), (evidence, projected), (result, called))
    }

    /// Evidence that is needed as it is provided is passed as it is, and where none is needed there
    /// is none.
    pub proof fn law_evidence_that_fits_is_passed_as_it_is(
        self,
        provided: Value,
        typ: Type,
        needed: Type,
        depth: nat,
    )
        requires
            self.is_running(),
            depth > 0,
        ensures
            ({
                let (value, after) = self.projected(provided, typ, needed, depth);
                &&& typ == needed ==> value == Some(provided) && after == self
                &&& typ != needed && needed.fields() is Some ==> {
                    let fields = needed.fields().unwrap();
                    &&& fields.len() == 0 ==> value is Some && self.does(
                        Operation::MakeTuple(Seq::empty()),
                        value->0,
                        after,
                    )
                    &&& fields.len() == 2 ==> (value, after) == self.searched(
                        provided,
                        typ,
                        needed,
                        (depth - 1) as nat,
                    )
                    &&& fields.len() == 1 || fields.len() > 2 ==> value is None && after == self
                }
                &&& typ != needed && needed.fields() is None ==> value is None && after == self
            }),
    {
        self.pushing_does(Operation::MakeTuple(Seq::empty()), Type::tuple(Seq::empty()));
    }

    /// The part of evidence that is needed is found by its first capability: where that comes first
    /// in what is provided too, it is taken, and what else is needed is taken from the rest; where
    /// it does not, all is taken from the rest. Gives the capability, the rest, and the states then.
    pub proof fn law_evidence_is_searched_for_its_first_capability(
        self,
        provided: Value,
        typ: Type,
        needed: Type,
        depth: nat,
    ) -> (stages: ((Value, Lowering), (Value, Lowering), (Option<Value>, Lowering)))
        requires
            self.is_running(),
            depth > 0,
            needed.fields() matches Some(wanted) && wanted.len() == 2,
            typ.fields() matches Some(fields) && fields.len() == 2,
        ensures
            ({
                let ((capability, taken), (rest, at_rest), (more, ready)) = stages;
                let wanted = needed.fields().unwrap();
                let fields = typ.fields().unwrap();
                let (value, after) = self.searched(provided, typ, needed, depth);
                let inner = (depth - 1) as nat;
                if fields[0] == wanted[0] {
                    &&& self.does(
                        Operation::IndexTuple { tuple: provided, index: 0 },
                        capability,
                        taken,
                    )
                    &&& taken.does(
                        Operation::IndexTuple { tuple: provided, index: 1 },
                        rest,
                        at_rest,
                    )
                    &&& (more, ready) == at_rest.projected(rest, fields[1], wanted[1], inner)
                    &&& more is None ==> value is None
                    &&& more is Some && ready.is_running() ==> value is Some && ready.does(
                        Operation::MakeTuple(seq![capability, more->0]),
                        value->0,
                        after,
                    )
                } else {
                    &&& self.does(
                        Operation::IndexTuple { tuple: provided, index: 1 },
                        rest,
                        at_rest,
                    )
                    &&& (value, after) == at_rest.searched(rest, fields[1], needed, inner)
                }
            }),
    {
        reveal_with_fuel(Lowering::searched, 2);
        let wanted = needed.fields().unwrap();
        let fields = typ.fields().unwrap();
        let inner = (depth - 1) as nat;
        let first = Operation::IndexTuple { tuple: provided, index: 0 };
        let second = Operation::IndexTuple { tuple: provided, index: 1 };
        if fields[0] == wanted[0] {
            let (capability, taken) = self.pushed(first, fields[0]);
            self.pushing_does(first, fields[0]);
            let (rest, at_rest) = taken.pushed(second, fields[1]);
            taken.pushing_does(second, fields[1]);
            let (more, ready) = at_rest.projected(rest, fields[1], wanted[1], inner);
            if more is Some && ready.is_running() {
                ready.pushing_does(Operation::MakeTuple(seq![capability, more->0]), needed);
            }
            ((capability, taken), (rest, at_rest), (more, ready))
        } else {
            let (rest, at_rest) = self.pushed(second, fields[1]);
            self.pushing_does(second, fields[1]);
            ((rest, at_rest), (rest, at_rest), (None, at_rest))
        }
    }

    /// An argument is adapted if and only if it is a function, the callee takes a function there,
    /// and the two differ in the last parameter alone. Any other argument is passed as it is.
    pub proof fn law_only_functions_that_differ_in_evidence_are_adapted(
        self,
        value: Value,
        function: Value,
        callee: ExprId,
        index: int,
    )
        ensures
            ({
                let differs = match (self.value_type(function), self.value_type(value)) {
                    (Type::Function(taking), Type::Function(own)) => {
                        let parameters = taking.parameters.items();
                        0 <= index < parameters.len() && match parameters[index] {
                            Type::Function(expected) => {
                                let left = own.parameters.items();
                                let right = expected.parameters.items();
                                &&& left.len() > 0 && right.len() > 0
                                &&& left.drop_last() == right.drop_last()
                                &&& left.last() != right.last()
                                &&& own.return_type == expected.return_type
                            },
                            _ => false,
                        }
                    },
                    _ => false,
                };
                !differs ==> self.coerced(value, function, callee, index) == (value, self)
            }),
    {
        reveal(Lowering::coerced);
        match (self.value_type(function), self.value_type(value)) {
            (Type::Function(taking), Type::Function(own)) => {
                let parameters = taking.parameters.items();
                if 0 <= index < parameters.len() {
                    match parameters[index] {
                        Type::Function(expected) => {
                            let left = own.parameters.items();
                            let right = expected.parameters.items();
                            if left.len() > 0 && right.len() > 0 && left.drop_last()
                                == right.drop_last() && left.last() == right.last() {
                                assert(left =~= left.drop_last().push(left.last()));
                                assert(right =~= right.drop_last().push(right.last()));
                            }
                        },
                        _ => {},
                    }
                }
            },
            _ => {},
        }
    }

    /// The function that an operation is as a value takes the capability from the front of its
    /// evidence, which is its last parameter, and calls the operation with the parameters before
    /// that. Gives the steps to that.
    pub proof fn law_an_operation_as_a_value_takes_its_capability_from_its_evidence(
        self,
        parameters: Seq<Type>,
        return_type: Type,
        index: u32,
    ) -> (stages: ((Seq<Value>, Lowering), (Value, Lowering), (Value, Lowering), (Value, Lowering)))
        requires
            self.is_running(),
            parameters.len() > 0,
            parameters.last().fields() matches Some(fields) && fields.len() > 0,
        ensures
            ({
                let ((params, ready), (capability, taken), (method, found), (result, called)) =
                    stages;
                let after = self.operation_wrapper_body(parameters, return_type, index);
                let own = self.current().parameter_types.len();
                let count = parameters.len() as int;
                &&& params.len() == count
                &&& forall|i: int|
                    0 <= i < count ==> #[trigger] params[i] == Value::Parameter(
                        self.block,
                        (own + i) as u32,
                    )
                &&& ready.does(
                    Operation::IndexTuple { tuple: params[count - 1], index: 0 },
                    capability,
                    taken,
                )
                &&& (method, found) == taken.method_of(capability, index)
                &&& found.is_running() ==> {
                    &&& found.does(
                        Operation::CallClosure {
                            closure: method,
                            arguments: params.take(count - 1),
                        },
                        result,
                        called,
                    )
                    &&& after.end_of(found.block) == Some(Terminator::Return(result))
                }
            }),
    {
        reveal(Lowering::operation_wrapper_body);
        let count = parameters.len() as int;
        self.law_parameters_are_taken_in_turn(parameters, count);
        let (params, ready) = self.with_parameters(parameters, count);
        let fields = parameters.last().fields().unwrap();
        let take = Operation::IndexTuple { tuple: params.last(), index: 0 };
        ready.pushing_does(take, fields[0]);
        let (capability, taken) = ready.pushed(take, fields[0]);
        let (method, found) = taken.method_of(capability, index);
        assert(params.drop_last() =~= params.take(count - 1));
        let call = Operation::CallClosure { closure: method, arguments: params.drop_last() };
        let (result, called) = found.pushed(call, return_type);
        if found.is_running() {
            found.pushing_does(call, return_type);
            called.a_block_ends(Terminator::Return(result));
        }
        ((params, ready), (capability, taken), (method, found), (result, called))
    }

    /// The wrapper of a function of the target calls it with all its parameters but the evidence,
    /// which is the last one. Gives the steps to that.
    pub proof fn law_a_wrapper_leaves_out_the_evidence(
        self,
        target: DefinitionId,
        parameters: Seq<Type>,
        return_type: Type,
    ) -> (stages: ((Seq<Value>, Lowering), (Value, Lowering)))
        requires
            self.is_running(),
            parameters.len() > 0,
        ensures
            ({
                let ((params, ready), (result, called)) = stages;
                let after = self.extern_wrapper_body(target, parameters, return_type);
                let own = self.current().parameter_types.len();
                let count = parameters.len() as int;
                &&& params.len() == count
                &&& forall|i: int|
                    0 <= i < count ==> #[trigger] params[i] == Value::Parameter(
                        self.block,
                        (own + i) as u32,
                    )
                &&& ready.does(
                    Operation::Call {
                        function: Value::Definition(target),
                        arguments: params.take(count - 1),
                    },
                    result,
                    called,
                )
                &&& after.end_of(self.block) == Some(Terminator::Return(result))
            }),
    {
        reveal(Lowering::extern_wrapper_body);
        let count = parameters.len() as int;
        self.law_parameters_are_taken_in_turn(parameters, count);
        let (params, ready) = self.with_parameters(parameters, count);
        assert(params.drop_last() =~= params.take(count - 1));
        let call = Operation::Call {
            function: Value::Definition(target),
            arguments: params.drop_last(),
        };
        ready.pushing_does(call, return_type);
        let (result, called) = ready.pushed(call, return_type);
        called.a_block_ends(Terminator::Return(result));
        ((params, ready), (result, called))
    }

    /// A value comes to a definition if it is one, or if it was made by instantiating or naming one.
    pub proof fn law_a_value_comes_to_the_definition_it_was_made_of(self, value: Value)
        ensures
            self.static_function(value) == match value {
                Value::Definition(id) => Some((id, None::<Seq<Type>>)),
                _ => match self.operation_of(value) {
                    Some(Operation::Instantiate(id, types)) => Some((id, Some(types))),
                    Some(Operation::Id(inner)) => match inner {
                        Value::Definition(id) => Some((id, None)),
                        _ => None,
                    },
                    _ => None,
                },
            },
    {
        reveal(Lowering::static_function);
    }
}

} // verus!

//! What closures hold, and how what they hold is found again when they are called.

#[allow(unused_imports)]
use crate::cst::{ExprForm, HandleForm, Parameter};
#[allow(unused_imports)]
use crate::ids::{DefinitionId, ExprId, NameId};
#[allow(unused_imports)]
use crate::mir::builder::expressions::Lower;
#[allow(unused_imports)]
use crate::mir::builder::lambdas::{Captured, LambdaRole, LambdaShape};
#[allow(unused_imports)]
use crate::mir::builder::state::Lowering;
#[allow(unused_imports)]
use crate::mir::{HandlerCase, Operation, Terminator, Type, Value};
#[allow(unused_imports)]
use crate::types::Type as TCType;
use vstd::prelude::*;

verus! {

impl Lowering {
    /// What an environment holds of the variable, and the state then: of one that can be written to
    /// its slot, or what is in the slot if the closure moves it; of one that is borrowed a new slot
    /// with the value; of a handle to a shared cell the handle, which is retained; and of any other
    /// the value.
    pub open spec fn is_packed(
        self,
        name: NameId,
        is_move: bool,
        is_borrowed: bool,
        packed: Value,
        after: Lowering,
    ) -> bool {
        let value = self.locals[name];
        if self.mutable_locals.contains(name) {
            if is_move {
                self.does(Operation::Deref(value), packed, after)
            } else {
                packed == value && after == self
            }
        } else if is_borrowed && !is_move {
            self.does(Operation::StackAlloc(value), packed, after)
        } else if self.shared_target(self.name_type(name)) is Some {
            packed == value && exists|gone: Value| #[trigger]
                self.does(Operation::RcRetain(value), gone, after)
        } else {
            packed == value && after == self
        }
    }

    /// Each captured variable is packed at its place. Gives the state before the last.
    pub proof fn law_each_capture_is_packed_at_its_place(
        self,
        names: Seq<NameId>,
        is_move: bool,
        borrowed: Seq<NameId>,
        count: int,
    ) -> (before: Lowering)
        requires
            0 < count <= names.len(),
        ensures
            ({
                let (earlier, made) = self.names_packed(names, is_move, borrowed, count - 1);
                let (values, after) = self.names_packed(names, is_move, borrowed, count);
                let name = names[count - 1];
                &&& before == made
                &&& values.len() == count
                &&& values.drop_last() == earlier
                &&& before.is_running() && before.locals.contains_key(name) ==> before.is_packed(
                    name,
                    is_move,
                    borrowed.contains(name),
                    values[count - 1],
                    after,
                )
            }),
        decreases count,
    {
        reveal_with_fuel(Lowering::names_packed, 2);
        reveal(Lowering::name_packed);
        if count > 1 {
            self.law_each_capture_is_packed_at_its_place(names, is_move, borrowed, count - 1);
        }
        let (earlier, before) = self.names_packed(names, is_move, borrowed, count - 1);
        let (values, after) = self.names_packed(names, is_move, borrowed, count);
        assert(values.drop_last() =~= earlier);
        let name = names[count - 1];
        if before.is_running() && before.locals.contains_key(name) {
            let value = before.locals[name];
            let load = before.layout(before.name_type(name));
            before.pushing_does(Operation::Deref(value), load);
            before.pushing_does(Operation::StackAlloc(value), Type::pointer());
            before.pushing_does(Operation::RcRetain(value), Type::unit());
            let (gone, retained) = before.pushed(Operation::RcRetain(value), Type::unit());
            assert(before.does(Operation::RcRetain(value), gone, retained));
        }
        before
    }

    /// An environment holds the captured variables in their order, and behind them what else is
    /// captured. It is put into a new cell if the closure is called with a pointer to it. Gives what
    /// the variables give, what is packed, and the states before and behind that.
    pub proof fn law_an_environment_holds_variables_and_then_capabilities(
        self,
        names: Seq<NameId>,
        captured: Seq<Value>,
        is_move: bool,
        borrowed: Seq<NameId>,
        environment: Type,
    ) -> (stages: ((Seq<Value>, Lowering), (Value, Lowering)))
        requires
            names.len() + captured.len() > 0,
        ensures
            ({
                let ((values, ready), (tuple, packed)) = stages;
                let (value, after) = self.env_packed(
                    names,
                    captured,
                    is_move,
                    borrowed,
                    environment,
                );
                &&& (values, ready) == self.names_packed(
                    names,
                    is_move,
                    borrowed,
                    names.len() as int,
                )
                &&& ready.is_running() ==> {
                    &&& ready.does(Operation::MakeTuple(values + captured), tuple, packed)
                    &&& if environment == Type::pointer() {
                        packed.does(Operation::AllocShared(tuple), value, after)
                    } else {
                        (value, after) == (tuple, packed)
                    }
                }
            }),
    {
        reveal(Lowering::env_packed);
        let (values, ready) = self.names_packed(names, is_move, borrowed, names.len() as int);
        let all = values + captured;
        let typ = Type::tuple(ready.types_of_values(all));
        let (tuple, packed) = ready.pushed(Operation::MakeTuple(all), typ);
        if ready.is_running() {
            ready.pushing_does(Operation::MakeTuple(all), typ);
            packed.pushing_does(Operation::AllocShared(tuple), Type::pointer());
        }
        ((values, ready), (tuple, packed))
    }

    /// Each captured variable is bound to the field of the environment at its place. Gives the state
    /// before the last.
    pub proof fn law_each_capture_is_read_from_its_place(
        self,
        environment: Value,
        fields: Seq<Type>,
        names: Seq<NameId>,
        count: int,
    ) -> (stages: (Lowering, Value, Lowering))
        requires
            0 < count <= names.len(),
        ensures
            ({
                let (before, value, taken) = stages;
                let after = self.names_unpacked(environment, fields, names, count);
                &&& before == self.names_unpacked(environment, fields, names, count - 1)
                &&& before.is_running() ==> {
                    &&& before.does(
                        Operation::IndexTuple { tuple: environment, index: (count - 1) as u32 },
                        value,
                        taken,
                    )
                    &&& after.function == taken.function && after.block == taken.block
                    &&& after.locals == before.locals.insert(names[count - 1], value)
                    &&& after.mutable_locals == before.mutable_locals
                }
            }),
    {
        reveal_with_fuel(Lowering::names_unpacked, 2);
        let before = self.names_unpacked(environment, fields, names, count - 1);
        let take = Operation::IndexTuple { tuple: environment, index: (count - 1) as u32 };
        let (value, taken) = before.pushed(take, fields[count - 1]);
        if before.is_running() {
            before.pushing_does(take, fields[count - 1]);
        }
        (before, value, taken)
    }

    /// Each captured capability is read from the field of the environment at its place behind the
    /// variables, and found under its effect. Gives the state before the last.
    pub proof fn law_each_capability_is_read_from_behind_the_variables(
        self,
        environment: Value,
        fields: Seq<Type>,
        skipped: int,
        needed: Seq<(TCType, Value)>,
        count: int,
    ) -> (stages: (Lowering, Value, Lowering))
        requires
            0 < count <= needed.len(),
        ensures
            ({
                let (before, value, taken) = stages;
                let after = self.captured_unpacked(environment, fields, skipped, needed, count);
                &&& before == self.captured_unpacked(
                    environment,
                    fields,
                    skipped,
                    needed,
                    count - 1,
                )
                &&& before.is_running() ==> {
                    &&& before.does(
                        Operation::IndexTuple {
                            tuple: environment,
                            index: (skipped + count - 1) as u32,
                        },
                        value,
                        taken,
                    )
                    &&& after == (Lowering {
                        effects: before.effects.push((needed[count - 1].0, value)),
                        ..taken
                    })
                }
            }),
    {
        reveal_with_fuel(Lowering::captured_unpacked, 2);
        let before = self.captured_unpacked(environment, fields, skipped, needed, count - 1);
        let index = skipped + count - 1;
        let take = Operation::IndexTuple { tuple: environment, index: index as u32 };
        let (value, taken) = before.pushed(take, fields[index]);
        if before.is_running() {
            before.pushing_does(take, fields[index]);
        }
        (before, value, taken)
    }

    /// The variables of a closure are read first, then its capabilities, and the evidence it passes
    /// on is the last field of the environment. Gives the state before that field is read.
    pub proof fn law_evidence_that_is_passed_on_lies_last(
        self,
        environment: Value,
        fields: Seq<Type>,
        names: Seq<NameId>,
        captured: Captured,
    ) -> (stages: (Lowering, Value, Lowering))
        ensures
            ({
                let (before, value, taken) = stages;
                let after = self.fields_unpacked(environment, fields, names, captured);
                let count = names.len() as int;
                &&& before == self.names_unpacked(
                    environment,
                    fields,
                    names,
                    count,
                ).captured_unpacked(
                    environment,
                    fields,
                    count,
                    captured.needed,
                    captured.needed.len() as int,
                )
                &&& captured.bundle_type is None ==> after == before
                &&& captured.bundle_type is Some && before.is_running() ==> {
                    &&& before.does(
                        Operation::IndexTuple {
                            tuple: environment,
                            index: (names.len() + captured.needed.len()) as u32,
                        },
                        value,
                        taken,
                    )
                    &&& after == (Lowering { bundle: Some(value), ..taken })
                }
            }),
    {
        reveal(Lowering::fields_unpacked);
        let before = self.names_unpacked(
            environment,
            fields,
            names,
            names.len() as int,
        ).captured_unpacked(
            environment,
            fields,
            names.len() as int,
            captured.needed,
            captured.needed.len() as int,
        );
        let index = names.len() + captured.needed.len();
        let take = Operation::IndexTuple { tuple: environment, index: index as u32 };
        let (value, taken) = before.pushed(take, fields[index as int]);
        if before.is_running() {
            before.pushing_does(take, fields[index as int]);
        }
        (before, value, taken)
    }

    /// An environment that a closure is called with a pointer to is loaded before it is read.
    pub proof fn law_an_environment_on_the_heap_is_loaded(
        self,
        names: Seq<NameId>,
        captured: Captured,
        environment: Value,
    ) -> (stages: (Value, Lowering))
        requires
            self.is_running(),
        ensures
            ({
                let (value, loaded) = stages;
                let after = self.env_unpacked(names, captured, environment);
                let count = names.len() + captured.needed.len() + if captured.bundle_type is Some {
                    1int
                } else {
                    0int
                };
                &&& if self.value_type(environment) == Type::pointer() {
                    self.does(Operation::Deref(environment), value, loaded)
                } else {
                    (value, loaded) == (environment, self)
                }
                &&& loaded.value_type(value).fields() matches Some(fields) ==> if fields.len()
                    == count {
                    after == loaded.fields_unpacked(value, fields, names, captured)
                } else {
                    after.failed
                }
            }),
    {
        reveal(Lowering::env_unpacked);
        let typ = Type::tuple(self.heap_fields(names, captured));
        self.pushing_does(Operation::Deref(environment), typ);
        if self.value_type(environment) == Type::pointer() {
            self.pushed(Operation::Deref(environment), typ)
        } else {
            (environment, self)
        }
    }

    /// A parameter of a lambda is bound to the parameter at its place, and one that can be assigned
    /// is moved to a slot with its value. Gives the state before the last, the one in which its
    /// pattern is bound, and its slot.
    pub proof fn law_each_parameter_is_bound_at_its_place(
        self,
        parameters: Seq<Parameter>,
        types: Seq<Type>,
        count: int,
    ) -> (stages: (Lowering, Lowering, (Value, Lowering)))
        requires
            0 < count <= parameters.len(),
        ensures
            ({
                let (before, bound, (slot, placed)) = stages;
                let after = self.parameters_bound(parameters, types, count);
                let parameter = parameters[count - 1];
                let value = Value::Parameter(before.block, (count - 1) as u32);
                &&& before == self.parameters_bound(parameters, types, count - 1)
                &&& bound == before.with_parameter(types[count - 1]).pattern_bound(
                    parameter.pattern,
                    value,
                )
                &&& match bound.pattern_name(parameter.pattern) {
                    Some(name) => if parameter.is_mutable {
                        bound.is_running() ==> {
                            &&& bound.does(Operation::StackAlloc(value), slot, placed)
                            &&& after.function == placed.function && after.block == placed.block
                            &&& after.locals == bound.locals.insert(name, slot)
                            &&& after.mutable_locals == bound.mutable_locals.insert(name)
                        }
                    } else {
                        after == bound
                    },
                    None => after == bound,
                }
            }),
    {
        reveal_with_fuel(Lowering::parameters_bound, 2);
        let before = self.parameters_bound(parameters, types, count - 1);
        let value = Value::Parameter(before.block, (count - 1) as u32);
        let bound = before.with_parameter(types[count - 1]).pattern_bound(
            parameters[count - 1].pattern,
            value,
        );
        let alloc = Operation::StackAlloc(value);
        if bound.is_running() {
            bound.pushing_does(alloc, Type::pointer());
        }
        (before, bound, bound.pushed(alloc, Type::pointer()))
    }

    /// A lambda returns the value of its body.
    pub proof fn law_a_lambda_returns_the_value_of_its_body(self, lower: Lower, body: ExprId)
        ensures
            ({
                let (value, done) = lower(self, body);
                let after = self.lambda_body(lower, body);
                done.is_running() ==> after.end_of(done.block) == Some(Terminator::Return(value))
            }),
    {
        reveal(Lowering::lambda_body);
        let (value, done) = lower(self, body);
        if done.is_running() {
            done.a_block_ends(Terminator::Return(value));
        }
    }

    /// A lambda that captures something is a closure of its function and its environment, and one
    /// that captures nothing is the function, unless it is expected to have an environment: then
    /// that is null. Gives the function, the state then, and the environment.
    pub proof fn law_a_closure_is_a_function_and_an_environment(
        self,
        shape: LambdaShape,
        text: Seq<char>,
        id: DefinitionId,
        captured: Captured,
        environment: Type,
        typ: Type,
    ) -> (stages: ((Value, Lowering), (Value, Lowering)))
        requires
            self.is_running(),
        ensures
            ({
                let ((function, named), (packed, ready)) = stages;
                let (value, after) = self.closure_made(
                    shape,
                    text,
                    id,
                    captured,
                    environment,
                    typ,
                );
                let context = self.answers.context@;
                let holds = context.closure_environments.contains_key(shape.expr)
                    || captured.needed.len() > 0 || captured.bundle is Some;
                let names = if context.closure_environments.contains_key(shape.expr) {
                    context.closure_environments[shape.expr]
                } else {
                    Seq::empty()
                };
                let borrowed = if context.borrowed_captures.contains_key(shape.expr) {
                    context.borrowed_captures[shape.expr]
                } else {
                    Seq::empty()
                };
                &&& shape.is_global || self.generics.len() == 0 ==> function == Value::Definition(id)
                &&& holds ==> {
                    &&& (packed, ready) == named.env_packed(
                        names,
                        captured.values(),
                        context.move_closures.contains(shape.expr),
                        borrowed,
                        environment,
                    )
                    &&& ready.is_running() ==> ready.does(
                        Operation::PackClosure { function, environment: packed },
                        value,
                        after,
                    )
                }
                &&& !holds && environment == Type::pointer() ==> {
                    &&& named.does(Operation::Transmute(Value::Unit), packed, ready)
                    &&& ready.does(
                        Operation::PackClosure { function, environment: packed },
                        value,
                        after,
                    )
                }
                &&& !holds && environment != Type::pointer() ==> (value, after) == (function, named)
            }),
    {
        reveal(Lowering::closure_made);
        reveal(Lowering::definition_value);
        reveal(Lowering::packed_without_env);
        let (own, made) = self.definition_value(id, text, typ);
        let instantiate = Operation::Instantiate(
            id,
            crate::mir::builder::lambdas::own_generics(made.generics.len() as int),
        );
        made.pushing_does(instantiate, typ);
        let (function, named) = if !shape.is_global && made.generics.len() > 0 {
            made.pushed(instantiate, typ)
        } else {
            (own, made)
        };
        let names = crate::mir::builder::lambdas::names_or_none(self.environment_of(shape.expr));
        let (packed, ready) = if self.has_captures(shape.expr, captured) {
            named.env_packed(
                names,
                captured.values(),
                self.moves(shape.expr),
                self.borrowed_by(shape.expr),
                environment,
            )
        } else {
            named.pushed(Operation::Transmute(Value::Unit), Type::pointer())
        };
        named.pushing_does(Operation::Transmute(Value::Unit), Type::pointer());
        let pack = Operation::PackClosure { function, environment: packed };
        if ready.is_running() {
            ready.pushing_does(pack, typ);
        }
        ((function, named), (packed, ready))
    }

    /// A closure that does not move its captures shares the slots of what can be written to, and of
    /// what it borrows: these are read through their slots in its body. One that moves them has
    /// values of its own.
    pub proof fn law_a_closure_shares_the_slots_it_does_not_move(
        self,
        names: Seq<NameId>,
        count: int,
        name: NameId,
    )
        requires
            0 <= count <= names.len(),
        ensures
            self.mutable_among(names, count).contains(name) <==> names.take(count).contains(name)
                && self.mutable_locals.contains(name),
            self.with_mutable_locals(names, count).mutable_locals.contains(name)
                <==> self.mutable_locals.contains(name) || names.take(count).contains(name),
            self.with_mutable_locals(names, count).locals == self.locals,
            self.with_mutable_locals(names, count).function == self.function,
        decreases count,
    {
        reveal_with_fuel(Lowering::mutable_among, 2);
        reveal_with_fuel(Lowering::with_mutable_locals, 2);
        if count > 0 {
            self.law_a_closure_shares_the_slots_it_does_not_move(names, count - 1, name);
            let earlier = names.take(count - 1);
            let now = names.take(count);
            let before = self.mutable_among(names, count - 1);
            let all = self.mutable_among(names, count);
            assert(now =~= earlier.push(names[count - 1]));
            assert(now.contains(name) <==> earlier.contains(name) || name == names[count - 1]) by {
                if earlier.contains(name) {
                    let i = choose|i: int| 0 <= i < earlier.len() && earlier[i] == name;
                    assert(now[i] == name);
                }
                if name == names[count - 1] {
                    assert(now[count - 1] == name);
                }
            }
            if before.contains(name) {
                let i = choose|i: int| 0 <= i < before.len() && before[i] == name;
                assert(all[i] == name);
            }
            if all.contains(name) {
                let i = choose|i: int| 0 <= i < all.len() && all[i] == name;
                if i < before.len() {
                    assert(before[i] == name);
                }
            }
            if self.mutable_locals.contains(names[count - 1]) && name == names[count - 1] {
                assert(all[before.len() as int] == name);
            }
        }
    }

    /// A `handle` runs its body under its handlers, each of which is the branch for its operation,
    /// in their order. Gives the body, the cases and the state then.
    pub proof fn law_a_handle_runs_its_body_under_its_handlers(self, lower: Lower, expr: ExprId) -> (
    stages: ((Value, Lowering), (Seq<HandlerCase>, Lowering)))
        requires
            self.answers.context@.expr(expr) is Handle,
        ensures
            ({
                let ((body, at_body), (cases, ready)) = stages;
                let form = self.answers.context@.expr(expr);
                let handlers = form->Handle_handlers;
                let (value, after) = self.inner_lowered(lower, expr);
                &&& (body, at_body) == self.handler_lambda(
                    lower,
                    form->Handle_expression,
                    LambdaRole::HandleBody(form->Handle_handler_name),
                )
                &&& (cases, ready) == at_body.handlers_lowered(
                    lower,
                    handlers,
                    handlers.len() as int,
                )
                &&& ready.is_running() ==> ready.does(
                    Operation::Handle { body, cases },
                    value,
                    after,
                )
            }),
    {
        reveal(Lowering::inner_lowered);
        reveal(Lowering::handle_lowered);
        let form = self.answers.context@.expr(expr);
        let handlers = form->Handle_handlers;
        let (body, at_body) = self.handler_lambda(
            lower,
            form->Handle_expression,
            LambdaRole::HandleBody(form->Handle_handler_name),
        );
        let (cases, ready) = at_body.handlers_lowered(lower, handlers, handlers.len() as int);
        if ready.is_running() {
            ready.pushing_does(
                Operation::Handle { body, cases },
                self.layout(self.expr_type(expr)),
            );
        }
        ((body, at_body), (cases, ready))
    }

    /// A handler is the branch that is written for it, under the operation that it names. Gives the
    /// state before the last of several.
    pub proof fn law_each_handler_is_the_branch_for_its_operation(
        self,
        lower: Lower,
        handlers: Seq<HandleForm>,
        count: int,
    ) -> (before: Lowering)
        requires
            0 < count <= handlers.len(),
        ensures
            ({
                let (earlier, made) = self.handlers_lowered(lower, handlers, count - 1);
                let (cases, after) = self.handlers_lowered(lower, handlers, count);
                let handler = handlers[count - 1];
                let (method, found) = before.ability_method(handler.function);
                &&& before == made
                &&& cases.len() == count
                &&& cases.drop_last() == earlier
                &&& method matches Some((operation, index, _)) ==> {
                    let (branch, done) = found.with_op_index(operation, index).handler_lambda(
                        lower,
                        handler.branch,
                        LambdaRole::HandlerBranch,
                    );
                    &&& cases[count - 1].effect_op == operation
                    &&& cases[count - 1].handler == branch
                    &&& after == done
                }
                &&& method is None ==> after.failed
            }),
        decreases count,
    {
        reveal_with_fuel(Lowering::handlers_lowered, 2);
        reveal(Lowering::handler_lowered);
        if count > 1 {
            self.law_each_handler_is_the_branch_for_its_operation(lower, handlers, count - 1);
        }
        let (earlier, before) = self.handlers_lowered(lower, handlers, count - 1);
        let (cases, _) = self.handlers_lowered(lower, handlers, count);
        assert(cases.drop_last() =~= earlier);
        before
    }
}

} // verus!

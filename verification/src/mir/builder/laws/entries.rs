//! What a lambda finds when it is entered, and how it is laid out.

#[allow(unused_imports)]
use crate::cst::Parameter;
#[allow(unused_imports)]
use crate::ids::{DefinitionId, ExprId, NameId, NESTING_LIMIT};
#[allow(unused_imports)]
use crate::collections::{law_put, lookup};
#[allow(unused_imports)]
use crate::mir::builder::expressions::Lower;
#[allow(unused_imports)]
use crate::mir::builder::lambdas::{env_extended, Captured, LambdaRole, LambdaShape};
#[allow(unused_imports)]
use crate::mir::builder::state::Lowering;
#[allow(unused_imports)]
use crate::mir::{Operation, Type, Types, Value};
#[allow(unused_imports)]
use crate::types::{FunctionType as TCFunctionType, Type as TCType};
use vstd::prelude::*;

verus! {

impl Lowering {
    /// A lambda binds its parameters first, then its evidence unless it is part of a `handle`, then
    /// what it captured if it has an environment, then the capability of its handler, and its own
    /// name last. Gives the states between these.
    pub proof fn law_a_lambda_is_entered_in_order(
        self,
        shape: LambdaShape,
        parameters: Seq<Parameter>,
        parameter_types: Seq<Type>,
        effects: TCType,
        captured: Captured,
        mutable: Seq<NameId>,
        environment: Type,
        typ: Type,
    ) -> (stages: (Lowering, Lowering, Lowering, Lowering))
        requires
            parameters.len() < u32::MAX,
        ensures
            ({
                let (bound, given, taken, handled) = stages;
                let after = self.lambda_entered(
                    shape,
                    parameters,
                    parameter_types,
                    effects,
                    captured,
                    mutable,
                    environment,
                    typ,
                );
                let is_plain = shape.role == LambdaRole::Plain;
                let place = (parameters.len() + if is_plain {
                    1int
                } else {
                    0int
                }) as u32;
                let holds = self.answers.context@.closure_environments.contains_key(shape.expr)
                    || captured.needed.len() > 0 || captured.bundle is Some;
                let has_environment = holds || environment == Type::pointer();
                &&& bound == self.parameters_bound(
                    parameters,
                    parameter_types,
                    parameters.len() as int,
                )
                &&& given == if is_plain {
                    bound.evidence_unpacked(effects)
                } else {
                    bound
                }
                &&& taken == if has_environment {
                    given.environment_taken(shape.expr, captured, mutable, environment, place)
                } else {
                    given
                }
                &&& handled == match shape.role {
                    LambdaRole::HandleBody(name) => taken.handler_bound(name, shape.expr),
                    _ => taken,
                }
                &&& after == match shape.name_id {
                    Some(name) => handled.self_bound(name, has_environment, place, typ),
                    None => handled,
                }
            }),
    {
        reveal(Lowering::lambda_entered);
        let index = Lowering::env_index(parameters, shape.role);
        let bound = self.parameters_bound(parameters, parameter_types, parameters.len() as int);
        let given = if shape.role.is_plain() {
            bound.evidence_unpacked(effects)
        } else {
            bound
        };
        let needs = self.has_captures(shape.expr, captured) || environment == Type::pointer();
        let taken = if needs {
            given.environment_taken(shape.expr, captured, mutable, environment, index)
        } else {
            given
        };
        let handled = match shape.role.handler() {
            Some(name) => taken.handler_bound(name, shape.expr),
            None => taken,
        };
        (bound, given, taken, handled)
    }

    /// An environment is one more parameter, if there is one. What was captured is read from the
    /// parameter at its place, and what the closure shares with its surroundings is read through
    /// slots.
    pub proof fn law_what_is_captured_is_read_from_the_environment(
        self,
        expr: ExprId,
        captured: Captured,
        mutable: Seq<NameId>,
        environment: Type,
        index: u32,
    ) -> (stages: (Lowering, Lowering))
        ensures
            ({
                let (ready, unpacked) = stages;
                let context = self.answers.context@;
                let after = self.environment_taken(expr, captured, mutable, environment, index);
                let holds = context.closure_environments.contains_key(expr)
                    || captured.needed.len() > 0 || captured.bundle is Some;
                let names = if context.closure_environments.contains_key(expr) {
                    context.closure_environments[expr]
                } else {
                    Seq::empty()
                };
                let borrowed = if context.borrowed_captures.contains_key(expr) {
                    context.borrowed_captures[expr]
                } else {
                    Seq::empty()
                };
                &&& ready == if environment == Type::no_env() {
                    self
                } else {
                    self.with_parameter(environment)
                }
                &&& !holds ==> after == ready
                &&& holds ==> {
                    &&& unpacked == ready.env_unpacked(
                        names,
                        captured,
                        Value::Parameter(ready.block, index),
                    )
                    &&& context.move_closures.contains(expr) ==> after == unpacked
                    &&& !context.move_closures.contains(expr) ==> {
                        &&& after.locals == unpacked.locals
                        &&& after.function == unpacked.function
                        &&& forall|name: NameId| #[trigger]
                            after.mutable_locals.contains(name)
                                <==> unpacked.mutable_locals.contains(name) || mutable.contains(
                                name,
                            ) || borrowed.contains(name)
                    }
                }
            }),
    {
        reveal(Lowering::environment_taken);
        let ready = if environment == Type::no_env() {
            self
        } else {
            self.with_parameter(environment)
        };
        let names = crate::mir::builder::lambdas::names_or_none(self.environment_of(expr));
        let unpacked = ready.env_unpacked(names, captured, Value::Parameter(ready.block, index));
        let borrowed = self.borrowed_by(expr);
        let shared = unpacked.with_mutable_locals(mutable, mutable.len() as int);
        let after = shared.with_mutable_locals(borrowed, borrowed.len() as int);
        assert(mutable.take(mutable.len() as int) =~= mutable);
        assert(borrowed.take(borrowed.len() as int) =~= borrowed);
        assert forall|name: NameId| #[trigger]
            after.mutable_locals.contains(name) <==> unpacked.mutable_locals.contains(name)
                || mutable.contains(name) || borrowed.contains(name) by {
            unpacked.law_a_closure_shares_the_slots_it_does_not_move(
                mutable,
                mutable.len() as int,
                name,
            );
            shared.law_a_closure_shares_the_slots_it_does_not_move(
                borrowed,
                borrowed.len() as int,
                name,
            );
        }
        unpacked.law_a_closure_shares_the_slots_it_does_not_move(mutable, mutable.len() as int, 0);
        shared.law_a_closure_shares_the_slots_it_does_not_move(borrowed, borrowed.len() as int, 0);
        (ready, unpacked)
    }

    /// A lambda is known in its own body: as the definition that it is, or as a closure of that and
    /// of the environment it was called with.
    pub proof fn law_a_lambda_is_known_in_its_body(
        self,
        name: NameId,
        has_environment: bool,
        index: u32,
        typ: Type,
    ) -> (stages: (Value, Lowering))
        requires
            self.is_running(),
        ensures
            ({
                let (closure, made) = stages;
                let own = Value::Definition(self.function.unwrap().id);
                let after = self.self_bound(name, has_environment, index, typ);
                if has_environment {
                    &&& self.does(
                        Operation::PackClosure {
                            function: own,
                            environment: Value::Parameter(self.block, index),
                        },
                        closure,
                        made,
                    )
                    &&& after == (Lowering { locals: made.locals.insert(name, closure), ..made })
                } else {
                    after == (Lowering { locals: self.locals.insert(name, own), ..self })
                }
            }),
    {
        reveal(Lowering::self_bound);
        let pack = Operation::PackClosure {
            function: Value::Definition(self.function.unwrap().id),
            environment: Value::Parameter(self.block, index),
        };
        self.pushing_does(pack, typ);
        self.pushed(pack, typ)
    }

    /// The body of a `handle` has a new capability, under the name of the handler and for the effect
    /// it is of.
    pub proof fn law_a_handle_makes_a_capability(self, name: NameId, expr: ExprId) -> (stages: (
        Value,
        Lowering,
    ))
        requires
            self.is_running(),
        ensures
            ({
                let (capability, made) = stages;
                let typ = self.name_type(name).substituted(
                    self.answers.bindings@,
                    NESTING_LIMIT as nat,
                );
                let after = self.handler_bound(name, expr);
                &&& self.does(Operation::Capability, capability, made)
                &&& after.function == made.function
                &&& after.locals == self.locals.insert(name, capability)
                &&& lookup(after.handles, expr) == Some((typ, capability))
                &&& forall|other: ExprId| other != expr ==> #[trigger] lookup(after.handles, other)
                    == lookup(self.handles, other)
            }),
    {
        reveal(Lowering::handler_bound);
        let typ = self.name_type(name).substituted(self.answers.bindings@, NESTING_LIMIT as nat);
        let layout = self.capability_layout(typ);
        self.pushing_does(Operation::Capability, layout);
        let (capability, made) = self.pushed(Operation::Capability, layout);
        let after = self.handler_bound(name, expr);
        law_put(self.handles, expr, (typ, capability), expr);
        assert forall|other: ExprId| other != expr implies #[trigger] lookup(after.handles, other)
            == lookup(self.handles, other) by {
            law_put(self.handles, expr, (typ, capability), other);
        }
        (capability, made)
    }

    /// The layout of each parameter is that of its type. What resumes an operation, the last
    /// parameter of a branch of a `handle`, takes no evidence.
    pub proof fn law_each_parameter_has_the_layout_of_its_type(
        self,
        parameters: Seq<Parameter>,
        role: LambdaRole,
        count: int,
        index: int,
    )
        requires
            0 <= index < count <= parameters.len(),
        ensures
            ({
                let layouts = self.parameter_layouts(parameters, role, count);
                let typ = self.pattern_type(parameters[index].pattern);
                &&& layouts.len() == count
                &&& layouts[index] == if role == LambdaRole::HandlerBranch && index
                    == parameters.len() - 1 {
                    self.c_layout(typ)
                } else {
                    self.layout(typ)
                }
            }),
        decreases count,
    {
        reveal_with_fuel(Lowering::parameter_layouts, 2);
        if index < count - 1 {
            self.law_each_parameter_has_the_layout_of_its_type(
                parameters,
                role,
                count - 1,
                index,
            );
        } else if count > 1 {
            self.law_each_parameter_has_the_layout_of_its_type(parameters, role, count - 1, 0);
        }
    }

    /// A lambda takes its parameters, behind them its evidence unless it is part of a `handle`, and
    /// gives what its type says.
    pub proof fn law_a_lambda_takes_its_evidence_last(
        self,
        typ: TCFunctionType,
        parameter_types: Seq<Type>,
        role: LambdaRole,
        environment: Type,
    )
        ensures
            self.lambda_layout(typ, parameter_types, role, environment) matches Type::Function(
                function,
            ) && {
                &&& function.parameters.items() == if role == LambdaRole::Plain {
                    parameter_types + seq![self.evidence_layout(typ.effects)]
                } else {
                    parameter_types
                }
                &&& function.environment == environment
                &&& function.return_type == self.layout(typ.return_type)
            },
    {
        reveal(Lowering::lambda_layout);
        let all = parameter_types.push(self.evidence_layout(typ.effects));
        assert(all =~= parameter_types + seq![self.evidence_layout(typ.effects)]);
        Types::law_items_of(all);
        Types::law_items_of(parameter_types);
    }

    /// The environment of a lambda has a field for each variable, then one for each capability, and
    /// then one for the evidence it passes on. One that captures none of these is as its type says.
    pub proof fn law_an_environment_has_a_field_for_each_capture(
        self,
        typ: TCFunctionType,
        captured: Captured,
    )
        ensures
            ({
                let own = self.layout(typ.environment);
                let environment = self.lambda_environment(typ, captured);
                let variables = match own.fields() {
                    Some(fields) => fields,
                    None => Seq::empty(),
                };
                let capabilities = Seq::new(
                    captured.needed.len(),
                    |i: int| self.value_type(captured.needed[i].1),
                );
                let last = match captured.bundle_type {
                    Some(typ) => seq![typ],
                    None => Seq::empty(),
                };
                &&& captured.needed.len() == 0 && captured.bundle_type is None ==> environment == own
                &&& captured.needed.len() > 0 || captured.bundle_type is Some
                    ==> environment.fields() == Some(variables + capabilities + last)
            }),
    {
        reveal(Lowering::lambda_environment);
        let own = self.layout(typ.environment);
        let variables = match own.fields() {
            Some(fields) => fields,
            None => Seq::empty(),
        };
        let values = captured.needed.map_values(|effect: (TCType, Value)| effect.1);
        let types = self.types_of_values(values);
        let capabilities = Seq::new(
            captured.needed.len(),
            |i: int| self.value_type(captured.needed[i].1),
        );
        assert(types =~= capabilities);
        Types::law_items_of(variables + types);
        let first = if captured.needed.len() == 0 {
            variables
        } else {
            variables + types
        };
        assert(first =~= variables + capabilities);
        match captured.bundle_type {
            Some(typ) => {
                Types::law_items_of(first + seq![typ]);
            },
            None => {
                assert(variables + capabilities + Seq::<Type>::empty() =~= variables
                    + capabilities);
            },
        }
    }

    /// An ordinary lambda captures no capabilities: it is given evidence when it is called. One that
    /// is part of a `handle` captures those for the effects it performs and does not handle, and the
    /// evidence it passes on where its row is open.
    pub proof fn law_only_parts_of_a_handle_capture_capabilities(
        self,
        effects: TCType,
        role: LambdaRole,
    )
        ensures
            ({
                let (captured, after) = self.captured(effects, role);
                if role == LambdaRole::Plain {
                    &&& captured.needed.len() == 0 && captured.bundle is None
                        && captured.bundle_type is None
                    &&& after == self
                } else {
                    let needed = self.captured_effects(
                        effects,
                        match role {
                            LambdaRole::HandleBody(name) => Some(name),
                            _ => None,
                        },
                    );
                    &&& (captured.needed, after) == self.capabilities_taken(
                        needed,
                        needed.len() as int,
                    )
                    &&& captured.bundle == if self.row(effects).1 {
                        after.bundle
                    } else {
                        None
                    }
                    &&& captured.bundle is Some <==> captured.bundle_type is Some
                    &&& captured.bundle is Some ==> captured.bundle_type == Some(
                        after.value_type(captured.bundle->0),
                    )
                }
            }),
    {
        reveal(Lowering::captured);
    }

    /// Each captured capability is the one for its effect. Gives the state before the last.
    pub proof fn law_each_captured_capability_is_for_its_effect(
        self,
        effects: Seq<TCType>,
        count: int,
    ) -> (before: Lowering)
        requires
            0 < count <= effects.len(),
        ensures
            ({
                let (earlier, made) = self.capabilities_taken(effects, count - 1);
                let (taken, after) = self.capabilities_taken(effects, count);
                let (value, found) = before.capability_taken(effects[count - 1]);
                &&& before == made
                &&& taken.len() == count
                &&& taken.drop_last() == earlier
                &&& taken[count - 1] == (effects[count - 1], value)
                &&& after == found
            }),
        decreases count,
    {
        reveal_with_fuel(Lowering::capabilities_taken, 2);
        if count > 1 {
            self.law_each_captured_capability_is_for_its_effect(effects, count - 1);
        }
        let (earlier, before) = self.capabilities_taken(effects, count - 1);
        let (taken, _) = self.capabilities_taken(effects, count);
        assert(taken.drop_last() =~= earlier);
        before
    }

    /// The effects that are left to others are those of the row whose keys are not among those of
    /// what the handler handles.
    pub proof fn law_a_handler_handles_its_own_effects(
        self,
        effects: TCType,
        handler: Option<NameId>,
        effect: TCType,
    )
        ensures
            ({
                let concretes = self.row(effects).0;
                let handled = match handler {
                    None => false,
                    Some(name) => match self.name_type(name).substituted(
                        self.answers.bindings@,
                        NESTING_LIMIT as nat,
                    ) {
                        TCType::Effects(own, _) => exists|i: int|
                            0 <= i < own.items().len() && self.capability_key(
                                #[trigger] own.items()[i],
                            ) == self.capability_key(effect),
                        other => self.capability_key(other) == self.capability_key(effect),
                    },
                };
                self.captured_effects(effects, handler).contains(effect) <==> concretes.contains(
                    effect,
                ) && !handled
            }),
    {
        reveal(Lowering::captured_effects);
        reveal(Lowering::handled_keys);
        let concretes = self.row(effects).0;
        let excluded = match handler {
            Some(name) => self.handled_keys(name),
            None => Seq::empty(),
        };
        self.law_effects_that_are_not_handled_are_captured(
            concretes,
            excluded,
            concretes.len() as int,
            effect,
        );
        assert(concretes.take(concretes.len() as int) =~= concretes);
        let key = self.capability_key(effect);
        match handler {
            Some(name) => match self.name_type(name).substituted(
                self.answers.bindings@,
                NESTING_LIMIT as nat,
            ) {
                TCType::Effects(own, _) => {
                    let items = own.items();
                    if excluded.contains(key) {
                        let i = choose|i: int| 0 <= i < excluded.len() && excluded[i] == key;
                        assert(self.capability_key(items[i]) == key);
                    }
                    if exists|i: int|
                        0 <= i < items.len() && self.capability_key(#[trigger] items[i]) == key {
                        let i = choose|i: int|
                            0 <= i < items.len() && self.capability_key(#[trigger] items[i]) == key;
                        assert(excluded[i] == key);
                    }
                },
                other => {
                    if self.capability_key(other) == key {
                        assert(excluded[0] == key);
                    }
                },
            },
            None => {},
        }
    }

    /// The value of a lambda is a closure of the definition it is lowered to, which is lowered before
    /// that, out of the loops and the scope it is written in. Gives what it captures besides
    /// variables, and the states before and behind its definition.
    pub proof fn law_a_lambda_is_defined_and_then_closed(
        self,
        lower: Lower,
        shape: LambdaShape,
        parameters: Seq<Parameter>,
        text: Seq<char>,
    ) -> (stages: (Captured, Lowering, (DefinitionId, Lowering)))
        requires
            self.follow(self.expr_type(shape.expr)) is Function,
        ensures
            ({
                let (captured, ready, (id, defined)) = stages;
                let function = *self.follow(self.expr_type(shape.expr))->Function_0;
                let types = ready.parameter_layouts(
                    parameters,
                    shape.role,
                    parameters.len() as int,
                );
                let environment = ready.lambda_environment(function, captured);
                let typ = ready.lambda_layout(function, types, shape.role, environment);
                &&& (captured, ready) == self.captured(function.effects, shape.role)
                &&& (id, defined) == ready.lambda_defined(
                    lower,
                    shape,
                    parameters,
                    text,
                    function.effects,
                    types,
                    captured,
                    environment,
                    typ,
                )
                &&& self.lambda_lowered(lower, shape, parameters, text) == defined.closure_made(
                    shape,
                    text,
                    id,
                    captured,
                    environment,
                    typ,
                )
                &&& defined.locals == ready.locals
                &&& defined.mutable_locals == ready.mutable_locals
                &&& defined.effects == ready.effects
                &&& defined.handles == ready.handles
                &&& defined.bundle == ready.bundle
                &&& defined.loop_targets == ready.loop_targets
            }),
    {
        reveal(Lowering::lambda_lowered);
        reveal(Lowering::lambda_defined);
        let function = *self.follow(self.expr_type(shape.expr))->Function_0;
        let (captured, ready) = self.captured(function.effects, shape.role);
        let types = ready.parameter_layouts(parameters, shape.role, parameters.len() as int);
        let environment = ready.lambda_environment(function, captured);
        let typ = ready.lambda_layout(function, types, shape.role, environment);
        let defined = ready.lambda_defined(
            lower,
            shape,
            parameters,
            text,
            function.effects,
            types,
            captured,
            environment,
            typ,
        );
        (captured, ready, defined)
    }
}

} // verus!

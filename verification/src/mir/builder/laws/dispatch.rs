//! How calls find what they call, and what is left behind them.

#[allow(unused_imports)]
use crate::collections::lookup;
#[allow(unused_imports)]
use crate::cst::{Argument, Definition, ExprForm};
#[allow(unused_imports)]
use crate::database::{AbilityKind, ItemKind};
#[allow(unused_imports)]
use crate::ids::{
    DefinitionId, ExprId, NameId, Origin, PathId, TopLevelName, NESTING_LIMIT, PRELUDE,
};
#[allow(unused_imports)]
use crate::mir::builder::expressions::Lower;
#[allow(unused_imports)]
use crate::mir::builder::state::Lowering;
#[allow(unused_imports)]
use crate::mir::{FunctionType, Operation, Terminator, Type, Value};
#[allow(unused_imports)]
use crate::types::Type as TCType;
use vstd::prelude::*;

verus! {

impl Lowering {
    /// A call of a method of an ability evaluates its arguments, calls the method, and then frees
    /// what the capabilities of a drop left behind. What is extracted is retained. A call that does
    /// not come back leaves nothing behind it. Gives the arguments, what is left to free, and the
    /// states around the call.
    pub proof fn law_what_a_drop_made_is_freed_behind_it(self, lower: Lower, expr: ExprId) -> (stages: (
        (Seq<Value>, Seq<Value>, Lowering),
        Lowering,
    ))
        requires
            !self.answers.intrinsics@.contains_key(expr),
            self.answers.context@.expr(expr) matches ExprForm::Call { function, .. }
                && self.answers.context@.expr(function) matches ExprForm::Variable(path)
                && self.ability_method(path).0 is Some,
        ensures
            ({
                let context = self.answers.context@;
                let form = context.expr(expr);
                let callee = form->Call_function;
                let arguments = form->Call_arguments;
                let path = context.expr(callee)->Variable_0;
                let (method, found) = self.ability_method(path);
                let (operation, index, kind) = method.unwrap();
                let ((values, frees, ready), called) = stages;
                let (value, after) = self.inner_lowered(lower, expr);
                let diverges = self.callee_diverges(callee);
                let typ = if diverges {
                    Type::unit()
                } else {
                    self.layout(self.expr_type(expr))
                };
                let is_drop = kind == AbilityKind::Trait && match context.path_origin(path) {
                    Some(Origin::TopLevelDefinition(name)) => found.is_prelude_drop(
                        name.top_level_item,
                    ),
                    _ => false,
                };
                &&& (values, frees, ready) == found.method_arguments(
                    lower,
                    arguments,
                    is_drop,
                    arguments.len() as int,
                )
                &&& kind == AbilityKind::Trait ==> (value, called) == ready.trait_method_called(
                    callee,
                    operation,
                    index,
                    values,
                    typ,
                    diverges,
                )
                &&& kind == AbilityKind::Effect ==> (value, called) == ready.operation_called(
                    callee,
                    operation,
                    index,
                    values,
                    typ,
                    diverges,
                )
                &&& after == if diverges {
                    called
                } else {
                    let freed = called.all_freed(frees, frees.len() as int);
                    if found.is_extract_method(path) {
                        freed.value_retained(value, freed.follow(freed.expr_type(expr)))
                    } else {
                        freed
                    }
                }
            }),
    {
        reveal(Lowering::inner_lowered);
        reveal(Lowering::call_lowered);
        reveal(Lowering::method_call_lowered);
        let context = self.answers.context@;
        let form = context.expr(expr);
        let callee = form->Call_function;
        let arguments = form->Call_arguments;
        let path = context.expr(callee)->Variable_0;
        let (method, found) = self.ability_method(path);
        let (operation, index, kind) = method.unwrap();
        assert(found.answers == self.answers) by {
            reveal(Lowering::ability_method);
            reveal(Lowering::id_of);
        }
        let (values, frees, ready) = found.method_arguments(
            lower,
            arguments,
            found.is_drop_method(path, kind),
            arguments.len() as int,
        );
        let diverges = self.callee_diverges(callee);
        let typ = if diverges {
            Type::unit()
        } else {
            self.layout(self.expr_type(expr))
        };
        let called = match kind {
            AbilityKind::Trait => ready.trait_method_called(
                callee,
                operation,
                index,
                values,
                typ,
                diverges,
            ).1,
            AbilityKind::Effect => ready.operation_called(
                callee,
                operation,
                index,
                values,
                typ,
                diverges,
            ).1,
            AbilityKind::NotAbility => ready.fails(),
        };
        ((values, frees, ready), called)
    }

    /// The environments of a capability are those of its methods that are closures, each taken out of
    /// the closure it belongs to. Gives the state before the last method, and the closure.
    pub proof fn law_the_environments_of_a_capability_are_those_of_its_closures(
        self,
        capability: Value,
        fields: Seq<Type>,
        environments: Seq<Value>,
        count: int,
    ) -> (stages: (Lowering, (Value, Lowering), Value))
        requires
            0 < count <= fields.len(),
        ensures
            ({
                let (before, (closure, taken), environment) = stages;
                let (earlier, made) = self.capability_environments(
                    capability,
                    fields,
                    environments,
                    count - 1,
                );
                let (found, after) = self.capability_environments(
                    capability,
                    fields,
                    environments,
                    count,
                );
                &&& before == made
                &&& fields[count - 1].is_closure() && before.is_running() ==> {
                    &&& before.does(
                        Operation::IndexTuple { tuple: capability, index: (count - 1) as u32 },
                        closure,
                        taken,
                    )
                    &&& taken.does(
                        Operation::IndexTuple { tuple: closure, index: 1 },
                        environment,
                        after,
                    )
                    &&& found == earlier + seq![environment]
                }
                &&& !fields[count - 1].is_closure() ==> found == earlier && after == before
            }),
    {
        reveal_with_fuel(Lowering::capability_environments, 2);
        let (earlier, before) = self.capability_environments(
            capability,
            fields,
            environments,
            count - 1,
        );
        let take = Operation::IndexTuple { tuple: capability, index: (count - 1) as u32 };
        let (closure, taken) = before.pushed(take, fields[count - 1]);
        let second = Operation::IndexTuple { tuple: closure, index: 1 };
        let (environment, after) = taken.pushed(second, Type::pointer());
        if before.is_running() {
            before.pushing_does(take, fields[count - 1]);
            taken.pushing_does(second, Type::pointer());
        }
        assert(earlier.push(environment) =~= earlier + seq![environment]);
        (before, (closure, taken), environment)
    }

    /// A capability that an impl makes is that of a call of the impl with the capabilities it asks
    /// for and its evidence, and the environments it made are left to be freed. Gives what is passed,
    /// and the states around the call.
    pub proof fn law_an_impl_makes_a_capability_of_its_own(
        self,
        function: Value,
        callee: ExprId,
        values: Seq<Value>,
        frees: Seq<Value>,
        expr: ExprId,
    ) -> (stages: ((Seq<Value>, Lowering), Lowering))
        ensures
            ({
                let ((passed, ready), called) = stages;
                let (capability, more, after) = self.capability_applied(
                    function,
                    callee,
                    values,
                    frees,
                    expr,
                );
                &&& (passed, ready) == self.with_evidence(callee, function, values)
                &&& (capability, called) == ready.called(
                    function,
                    passed,
                    match ready.value_type(function).returned() {
                        Some(returned) => returned,
                        None => ready.layout(ready.expr_type(expr)),
                    },
                )
                &&& match called.value_type(capability).fields() {
                    Some(fields) => (more, after) == called.capability_environments(
                        capability,
                        fields,
                        frees,
                        fields.len() as int,
                    ),
                    None => (more, after) == (frees, called),
                }
            }),
    {
        reveal(Lowering::capability_applied);
        let (passed, ready) = self.with_evidence(callee, function, values);
        let typ = ready.call_layout(function, ready.layout(ready.expr_type(expr)));
        ((passed, ready), ready.called(function, passed, typ).1)
    }

    /// The capability of a drop is that of the impl where it is a call of one, with the capabilities
    /// it asks for made in the same way and in turn, and what is evaluated anywhere else.
    pub proof fn law_the_capability_of_a_drop_is_made_from_the_inside(
        self,
        lower: Lower,
        expr: ExprId,
        frees: Seq<Value>,
        depth: nat,
    )
        requires
            depth > 0,
        ensures
            ({
                let inner = (depth - 1) as nat;
                match self.answers.context@.expr(expr) {
                    ExprForm::Call { function: callee, arguments } => {
                        let (function, at_function) = lower(self, callee);
                        let (values, more, ready) = at_function.drop_arguments(
                            lower,
                            function,
                            callee,
                            arguments,
                            frees,
                            arguments.len() as int,
                            inner,
                        );
                        self.drop_capability(lower, expr, frees, depth)
                            == ready.capability_applied(function, callee, values, more, expr)
                    },
                    _ => {
                        let (value, after) = lower(self, expr);
                        self.drop_capability(lower, expr, frees, depth) == (value, frees, after)
                    },
                }
            }),
            forall|function: Value, callee: ExprId, arguments: Seq<Argument>, count: int|
                0 < count <= arguments.len() ==> {
                    let (values, more, before) = self.drop_arguments(
                        lower,
                        function,
                        callee,
                        arguments,
                        frees,
                        count - 1,
                        depth,
                    );
                    let (value, all, made) = before.drop_capability(
                        lower,
                        arguments[count - 1].expr,
                        more,
                        depth,
                    );
                    let (passed, after) = made.coerced(value, function, callee, count - 1);
                    #[trigger] self.drop_arguments(
                        lower,
                        function,
                        callee,
                        arguments,
                        frees,
                        count,
                        depth,
                    ) == (values.push(passed), all, after)
                },
    {
    }

    /// A callee borrows if it is a definition for which that is known of some parameter.
    pub proof fn law_only_known_definitions_borrow(self, callee: ExprId, mask: Seq<bool>)
        ensures
            self.callee_mask(callee) == Some(mask) <==> {
                &&& mask.len() > 0
                &&& self.answers.context@.expr(callee) matches ExprForm::Variable(path)
                    && self.answers.context@.path_origin(path) matches Some(
                    Origin::TopLevelDefinition(name),
                ) && lookup(self.answers.borrowed_params@, name) matches Some(known) && known@
                    == mask
            },
    {
    }

    /// The implicit arguments of a call are pure if and only if each of them is a definition that is
    /// no function: an impl without constraints.
    pub proof fn law_impls_without_constraints_are_pure(self, arguments: Seq<Argument>)
        ensures
            self.implicits_are_pure(arguments) <==> forall|i: int|
                0 <= i < arguments.len() && (#[trigger] arguments[i]).is_implicit ==> {
                    &&& match self.answers.context@.expr(arguments[i].expr) {
                        ExprForm::Variable(path) => match self.answers.context@.path_origin(path) {
                            Some(Origin::TopLevelDefinition(_)) => true,
                            _ => false,
                        },
                        _ => false,
                    }
                    &&& !(self.follow(self.expr_type(arguments[i].expr)) is Function)
                },
    {
        if self.implicits_are_pure(arguments) {
            assert forall|i: int| 0 <= i < arguments.len() && (
            #[trigger] arguments[i]).is_implicit implies self.is_pure_static(arguments[i].expr) by {}
        }
    }

    /// The ability of the prelude that drops is the trait that is named so there.
    pub proof fn law_drop_is_a_trait_of_the_prelude(self, item: crate::ids::TopLevelId)
        ensures
            self.is_prelude_drop(item) <==> {
                &&& item.source_file == PRELUDE
                &&& lookup(self.answers.database.items@, item) matches Some(
                    ItemKind::AbilityDefinition(ability),
                ) && ability.kind == AbilityKind::Trait && self.name_of(
                    TopLevelName { top_level_item: item, local_name_id: ability.name },
                ) == "Drop"@
            },
    {
        reveal(Lowering::is_prelude_drop);
    }

    /// A function whose evidence differs is adapted by what is known of it: one that comes to a
    /// definition directly, a closure of such a one with its environment, and any other as a value,
    /// which the callee is then instantiated at as an environment.
    pub proof fn law_a_function_is_adapted_by_what_is_known_of_it(
        self,
        value: Value,
        function: Value,
        callee: ExprId,
        index: int,
        own: FunctionType,
        expected: FunctionType,
    )
        ensures
            ({
                let done = self.adapted(value, function, callee, index, own, expected);
                let (dynamic, made) = self.dynamic_adapter(value, own, expected);
                let as_value = (
                    dynamic,
                    made.environment_patched(function, callee, index, self.value_type(value)),
                );
                match self.static_function(value) {
                    Some(target) => done == self.static_adapter(
                        target,
                        self.value_type(value),
                        None,
                        own,
                        expected,
                    ),
                    None => match self.operation_of(value) {
                        Some(Operation::PackClosure { function: packed, environment }) => {
                            match self.static_function(packed) {
                                Some(target) => done == self.static_adapter(
                                    target,
                                    self.value_type(packed),
                                    Some(environment),
                                    own,
                                    expected,
                                ),
                                None => done == as_value,
                            }
                        },
                        _ => done == as_value,
                    },
                }
            }),
    {
        reveal(Lowering::adapted);
    }

    /// A global that is no function is a definition of its own, whose code ends with its value. It is
    /// kept under its name, and what was lowered around it goes on. Gives the value, and the states
    /// around it.
    pub proof fn law_a_global_ends_with_its_value(
        self,
        lower: Lower,
        definition: Definition,
        name: NameId,
    ) -> (stages: (Lowering, Value, Lowering))
        requires
            self.function is None,
            !(self.answers.context@.expr(definition.rhs) is Lambda),
            self.pattern_name(definition.pattern) == Some(name),
        ensures
            ({
                let (started, value, bound) = stages;
                let (unit, after) = self.definition_lowered(lower, definition, true);
                let scoped = self.with_generics_of(self.generalized(name));
                &&& unit == Value::Unit
                &&& started == scoped.definition_started(
                    self.answers.context@.name(name),
                    Some(name),
                    scoped.generic_count(),
                    scoped.global_layout(definition),
                )
                &&& value == started.definition_value_lowered(
                    lower,
                    definition,
                    Some(name),
                    true,
                ).0
                &&& bound.is_running() ==> {
                    let ended = bound.terminated(Terminator::Result(value));
                    &&& ended.end_of(bound.block) == Some(Terminator::Result(value))
                    &&& after == ended.definition_finished(scoped).1
                }
            }),
    {
        reveal(Lowering::definition_lowered);
        let scoped = self.with_generics_of(self.generalized(name));
        let started = scoped.definition_started(
            self.answers.context@.name(name),
            Some(name),
            scoped.generic_count(),
            scoped.global_layout(definition),
        );
        let (value, made) = started.definition_value_lowered(lower, definition, Some(name), true);
        let bound = made.definition_bound(definition, value);
        if bound.is_running() {
            bound.a_block_ends(Terminator::Result(value));
        }
        (started, value, bound)
    }

    /// The value of a definition is that of its right side, but for an impl of `Copy` for a shared
    /// type, whose one method retains the handle, and for a lambda, which has the name that it is
    /// defined under.
    pub proof fn law_a_definition_has_the_value_of_its_right_side(
        self,
        lower: Lower,
        definition: Definition,
        name_id: Option<NameId>,
        is_global: bool,
    )
        ensures
            ({
                let layout = self.layout(self.pattern_type(definition.pattern));
                let copies = is_global && name_id is Some && self.is_shared_copy(name_id->0)
                    && Lowering::copy_method(layout) is Some;
                let done = self.definition_value_lowered(lower, definition, name_id, is_global);
                &&& copies ==> done == self.copy_impl_made(
                    layout,
                    Lowering::copy_method(layout).unwrap(),
                )
                &&& !copies && !(self.answers.context@.expr(definition.rhs) is Lambda) ==> done
                    == lower(self, definition.rhs)
            }),
    {
        reveal(Lowering::definition_value_lowered);
    }

    /// The impl of `Copy` for a shared type is a pack of one closure, of the function that copies a
    /// handle, with a null environment. Gives the function, and the states around the closure.
    pub proof fn law_the_copy_of_a_shared_type_is_a_closure_without_captures(
        self,
        impl_type: Type,
        method: FunctionType,
    ) -> (stages: ((Value, Lowering), (Value, Lowering), (Value, Lowering)))
        ensures
            ({
                let ((function, named), (environment, ready), (closure, packed)) = stages;
                let (value, after) = self.copy_impl_made(impl_type, method);
                named.is_running() ==> {
                    &&& named.does(Operation::Transmute(Value::Unit), environment, ready)
                    &&& ready.does(
                        Operation::PackClosure { function, environment },
                        closure,
                        packed,
                    )
                    &&& packed.does(Operation::MakeTuple(seq![closure]), value, after)
                }
            }),
    {
        reveal(Lowering::copy_impl_made);
        let parameters = method.parameters.items().push(method.environment);
        let typ = Type::function(parameters, Type::no_env(), method.return_type);
        let (id, made) = self.definition_started(
            "copy_shared"@,
            None,
            self.generic_count(),
            typ,
        ).copy_body(parameters).definition_finished(self);
        let (function, named) = made.definition_value(id, "copy_shared"@, typ);
        let null = Operation::Transmute(Value::Unit);
        let (environment, ready) = named.pushed(null, Type::pointer());
        let pack = Operation::PackClosure { function, environment };
        let (closure, packed) = ready.pushed(pack, Type::Function(Box::new(method)));
        if named.is_running() {
            named.pushing_does(null, Type::pointer());
            ready.pushing_does(pack, Type::Function(Box::new(method)));
            packed.pushing_does(Operation::MakeTuple(seq![closure]), impl_type);
        }
        ((function, named), (environment, ready), (closure, packed))
    }
}

} // verus!

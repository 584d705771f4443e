//! How capabilities are found, passed as evidence and taken apart again.

#[allow(unused_imports)]
use crate::cst::{Argument, ExprForm};
#[allow(unused_imports)]
use crate::database::{AbilityKind, ItemKind};
#[allow(unused_imports)]
use crate::collections::lookup;
#[allow(unused_imports)]
use crate::ids::{DefinitionId, ExprId, NameId, Origin, PathId, NESTING_LIMIT};
#[allow(unused_imports)]
use crate::mir::builder::evidence::{first_generic, first_place};
#[allow(unused_imports)]
use crate::mir::builder::expressions::Lower;
#[allow(unused_imports)]
use crate::mir::builder::state::Lowering;
#[allow(unused_imports)]
use crate::mir::{Operation, Terminator, Type, Value};
#[allow(unused_imports)]
use crate::types::{Generic, PrimitiveType, Type as TCType, TypeList};
use vstd::prelude::*;

verus! {

/// The place of a name is that of the first that is the same, if there is one.
pub proof fn law_the_place_of_a_name_is_its_first(names: Seq<NameId>, name: NameId, count: int)
    requires
        0 <= count <= names.len(),
    ensures
        match first_place(names, name, count) {
            Some(place) => 0 <= place < count && names[place] == name && forall|i: int|
                0 <= i < place ==> names[i] != name,
            None => forall|i: int| 0 <= i < count ==> names[i] != name,
        },
    decreases count,
{
    reveal_with_fuel(first_place, 2);
    if count > 0 {
        law_the_place_of_a_name_is_its_first(names, name, count - 1);
    }
}

/// The place of a generic is that of the first that is the same, if there is one.
pub proof fn law_the_place_of_a_generic_is_its_first(
    generics: Seq<Generic>,
    generic: Generic,
    count: int,
)
    requires
        0 <= count <= generics.len(),
    ensures
        match first_generic(generics, generic, count) {
            Some(place) => 0 <= place < count && generics[place] == generic && forall|i: int|
                0 <= i < place ==> generics[i] != generic,
            None => forall|i: int| 0 <= i < count ==> generics[i] != generic,
        },
    decreases count,
{
    reveal_with_fuel(first_generic, 2);
    if count > 0 {
        law_the_place_of_a_generic_is_its_first(generics, generic, count - 1);
    }
}

impl Lowering {
    /// The effect at `index` of the current function is the first that is told by `key`.
    pub open spec fn is_first_own(self, key: TCType, count: int, index: int) -> bool {
        &&& 0 <= index < count
        &&& self.capability_key(self.effects[index].0) == key
        &&& forall|i: int|
            0 <= i < index ==> self.capability_key((#[trigger] self.effects[i]).0) != key
    }

    /// The enclosing `handle` at `index` is the first whose effect is told by `key`.
    pub open spec fn is_first_handle(self, key: TCType, count: int, index: int) -> bool {
        &&& 0 <= index < count
        &&& self.capability_key(self.handles[index].1.0) == key
        &&& forall|i: int|
            0 <= i < index ==> self.capability_key((#[trigger] self.handles[i]).1.0) != key
    }

    proof fn own_capabilities_are_first(self, key: TCType, count: int)
        requires
            0 <= count <= self.effects.len(),
        ensures
            match self.own_capability(key, count) {
                Some(value) => exists|i: int| #[trigger]
                    self.is_first_own(key, count, i) && value == self.effects[i].1,
                None => forall|i: int|
                    0 <= i < count ==> self.capability_key((#[trigger] self.effects[i]).0) != key,
            },
        decreases count,
    {
        reveal_with_fuel(Lowering::own_capability, 2);
        if count > 0 {
            self.own_capabilities_are_first(key, count - 1);
            match self.own_capability(key, count - 1) {
                Some(value) => {
                    let i = choose|i: int| #[trigger]
                        self.is_first_own(key, count - 1, i) && value == self.effects[i].1;
                    assert(self.is_first_own(key, count, i));
                },
                None => {
                    if self.capability_key(self.effects[count - 1].0) == key {
                        assert(self.is_first_own(key, count, count - 1));
                    }
                },
            }
        }
    }

    proof fn handled_capabilities_are_first(self, key: TCType, count: int)
        requires
            0 <= count <= self.handles.len(),
        ensures
            match self.handled_capability(key, count) {
                Some(value) => exists|i: int| #[trigger]
                    self.is_first_handle(key, count, i) && value == self.handles[i].1.1,
                None => forall|i: int|
                    0 <= i < count ==> self.capability_key((#[trigger] self.handles[i]).1.0) != key,
            },
        decreases count,
    {
        reveal_with_fuel(Lowering::handled_capability, 2);
        if count > 0 {
            self.handled_capabilities_are_first(key, count - 1);
            match self.handled_capability(key, count - 1) {
                Some(value) => {
                    let i = choose|i: int| #[trigger]
                        self.is_first_handle(key, count - 1, i) && value == self.handles[i].1.1;
                    assert(self.is_first_handle(key, count, i));
                },
                None => {
                    if self.capability_key(self.handles[count - 1].1.0) == key {
                        assert(self.is_first_handle(key, count, count - 1));
                    }
                },
            }
        }
    }

    /// The capability for an effect is the first that the current function was given for one that is
    /// told in the same way, and if it was given none, the first that an enclosing `handle` made for
    /// such a one. If there is none either, there is no capability.
    pub proof fn law_a_capability_is_looked_for_in_the_function_first(self, effect: TCType)
        ensures
            ({
                let key = self.capability_key(effect);
                let own = self.effects.len() as int;
                let handled = self.handles.len() as int;
                match self.capability(effect) {
                    Some(value) => {
                        ||| exists|i: int| #[trigger]
                            self.is_first_own(key, own, i) && value == self.effects[i].1
                        ||| (forall|i: int|
                            0 <= i < own ==> self.capability_key((#[trigger] self.effects[i]).0)
                                != key) && exists|i: int| #[trigger]
                            self.is_first_handle(key, handled, i) && value == self.handles[i].1.1
                    },
                    None => {
                        &&& forall|i: int|
                            0 <= i < own ==> self.capability_key((#[trigger] self.effects[i]).0)
                                != key
                        &&& forall|i: int|
                            0 <= i < handled ==> self.capability_key(
                                (#[trigger] self.handles[i]).1.0,
                            ) != key
                    },
                }
            }),
    {
        reveal(Lowering::capability);
        let key = self.capability_key(effect);
        self.own_capabilities_are_first(key, self.effects.len() as int);
        self.handled_capabilities_are_first(key, self.handles.len() as int);
    }

    /// Evidence is made from its end on: the evidence that is passed on where the row is open, or
    /// else nothing; and for each effect a pair of its capability and the evidence for those behind
    /// it. Gives the evidence for those behind the first, the capability of the first, and the
    /// states then.
    pub proof fn law_evidence_is_a_capability_and_the_rest(
        self,
        effects: Seq<TCType>,
        is_open: bool,
        start: int,
    ) -> (stages: ((Value, Lowering), (Value, Lowering)))
        requires
            self.is_running(),
            0 <= start <= effects.len(),
        ensures
            ({
                let ((rest, at_rest), (capability, ready)) = stages;
                let (value, _, after) = self.evidence_from(effects, is_open, start);
                if start == effects.len() {
                    if is_open {
                        self.bundle is Some ==> value == self.bundle.unwrap() && after == self
                    } else {
                        self.does(Operation::MakeTuple(Seq::empty()), value, after)
                    }
                } else {
                    let (own, _, behind) = self.evidence_from(effects, is_open, start + 1);
                    &&& (rest, at_rest) == (own, behind)
                    &&& (capability, ready) == at_rest.capability_taken(effects[start])
                    &&& ready.is_running() ==> ready.does(
                        Operation::MakeTuple(seq![capability, rest]),
                        value,
                        after,
                    )
                }
            }),
    {
        reveal_with_fuel(Lowering::evidence_from, 2);
        reveal(Lowering::end_evidence);
        if start == effects.len() {
            self.pushing_does(
                Operation::MakeTuple(Seq::empty()),
                Type::tuple(Seq::empty()),
            );
            ((Value::Unit, self), (Value::Unit, self))
        } else {
            let (rest, rest_type, at_rest) = self.evidence_from(effects, is_open, start + 1);
            let (capability, ready) = at_rest.capability_taken(effects[start]);
            let typ = Type::tuple(seq![ready.value_type(capability), rest_type]);
            if ready.is_running() {
                ready.pushing_does(Operation::MakeTuple(seq![capability, rest]), typ);
            }
            ((rest, at_rest), (capability, ready))
        }
    }

    /// Evidence is taken apart as it is made: the capability of each effect is the first part of
    /// what is left, and the second part is left behind it. Gives what is left before the last
    /// effect, and the states then.
    pub proof fn law_evidence_is_taken_apart_as_it_is_made(
        self,
        evidence: Value,
        typ: Type,
        effects: Seq<TCType>,
        count: int,
    ) -> (stages: ((Value, Type, Lowering), (Value, Lowering)))
        requires
            0 < count <= effects.len(),
        ensures
            ({
                let ((rest, rest_type, before), (capability, taken)) = stages;
                let (left, _, after) = self.capabilities_unpacked(evidence, typ, effects, count);
                &&& (rest, rest_type, before) == self.capabilities_unpacked(
                    evidence,
                    typ,
                    effects,
                    count - 1,
                )
                &&& count == 1 ==> rest == evidence && before == self
                &&& rest_type.fields() is Some && rest_type.fields().unwrap().len() >= 2
                    && before.is_running() ==> {
                    &&& before.does(
                        Operation::IndexTuple { tuple: rest, index: 0 },
                        capability,
                        taken,
                    )
                    &&& after.effects == before.effects.push((effects[count - 1], capability))
                    &&& Lowering { effects: after.effects, ..taken }.does(
                        Operation::IndexTuple { tuple: rest, index: 1 },
                        left,
                        after,
                    )
                }
            }),
    {
        reveal_with_fuel(Lowering::capabilities_unpacked, 2);
        let (rest, rest_type, before) = self.capabilities_unpacked(
            evidence,
            typ,
            effects,
            count - 1,
        );
        match rest_type.fields() {
            Some(fields) => {
                let take = Operation::IndexTuple { tuple: rest, index: 0 };
                let (capability, taken) = before.pushed(take, fields[0]);
                let noted = Lowering {
                    effects: taken.effects.push((effects[count - 1], capability)),
                    ..taken
                };
                if before.is_running() {
                    before.pushing_does(take, fields[0]);
                    noted.pushing_does(
                        Operation::IndexTuple { tuple: rest, index: 1 },
                        fields[1],
                    );
                }
                ((rest, rest_type, before), (capability, taken))
            },
            None => ((rest, rest_type, before), (rest, before)),
        }
    }

    /// A lambda takes its evidence as a parameter behind its own, and where its row is open, what is
    /// left of the evidence is what it passes on.
    pub proof fn law_what_is_left_of_evidence_is_passed_on(self, effects: TCType) -> (stages: (
        Value,
        Lowering,
    ))
        requires
            self.has_block(),
        ensures
            ({
                let (evidence, ready) = stages;
                let (concretes, is_open) = self.row(effects);
                let after = self.evidence_unpacked(effects);
                let (rest, _, made) = ready.capabilities_unpacked(
                    evidence,
                    self.evidence_layout(effects),
                    concretes,
                    concretes.len() as int,
                );
                &&& evidence == Value::Parameter(
                    self.block,
                    self.current().parameter_types.len() as u32,
                )
                &&& ready == self.with_parameter(self.evidence_layout(effects))
                &&& after == if is_open {
                    Lowering { bundle: Some(rest), ..made }
                } else {
                    made
                }
            }),
    {
        reveal(Lowering::evidence_unpacked);
        reveal(Lowering::with_capability_parameter);
        self.with_capability_parameter(self.evidence_layout(effects))
    }

    /// Evidence is passed behind the other arguments, unless the callee takes no more than those.
    pub proof fn law_evidence_is_passed_where_it_is_taken(
        self,
        callee_expr: ExprId,
        callee: Value,
        arguments: Seq<Value>,
    )
        ensures
            ({
                let (passed, after) = self.with_evidence(callee_expr, callee, arguments);
                let (evidence, made) = self.evidence(self.callee_effects(callee_expr));
                match self.value_type(callee) {
                    Type::Function(function) => if arguments.len()
                        < function.parameters.items().len() {
                        passed == arguments.push(evidence) && after == made
                    } else {
                        passed == arguments && after == self
                    },
                    _ => passed == arguments.push(evidence) && after == made,
                }
            }),
    {
        reveal(Lowering::with_evidence);
    }

    /// A closure is called as one, and any other function as what it is.
    pub proof fn law_a_closure_is_called_as_one(
        self,
        function: Value,
        arguments: Seq<Value>,
        typ: Type,
    )
        requires
            self.is_running(),
        ensures
            ({
                let (value, after) = self.called(function, arguments, typ);
                self.does(
                    if self.value_type(function).is_closure() {
                        Operation::CallClosure { closure: function, arguments }
                    } else {
                        Operation::Call { function, arguments }
                    },
                    value,
                    after,
                )
            }),
    {
        reveal(Lowering::called);
        self.pushing_does(Operation::CallClosure { closure: function, arguments }, typ);
        self.pushing_does(Operation::Call { function, arguments }, typ);
    }

    /// A path names a method of an ability if and only if it names something that an ability
    /// defines, and the place of the method is that among those the ability defines.
    pub proof fn law_a_method_has_its_place_in_the_ability(self, path: PathId)
        ensures
            ({
                let (found, after) = self.ability_method(path);
                match self.answers.context@.path_origin(path) {
                    Some(Origin::TopLevelDefinition(name)) => match lookup(
                        self.answers.database.items@,
                        name.top_level_item,
                    ) {
                        Some(ItemKind::AbilityDefinition(ability)) => {
                            &&& found is Some <==> exists|i: int|
                                0 <= i < ability.body@.len() && #[trigger] ability.body@[i]
                                    == name.local_name_id
                            &&& found matches Some((id, index, kind)) ==> {
                                &&& kind == ability.kind
                                &&& (id, after) == self.id_of(name)
                                &&& ability.body@.len() <= u32::MAX ==> index < ability.body@.len()
                                    && ability.body@[index as int] == name.local_name_id
                            }
                            &&& found is None ==> after == self
                        },
                        _ => found is None && after == self,
                    },
                    _ => found is None && after == self,
                }
            }),
    {
        reveal(Lowering::ability_method);
        match self.answers.context@.path_origin(path) {
            Some(Origin::TopLevelDefinition(name)) => match lookup(
                self.answers.database.items@,
                name.top_level_item,
            ) {
                Some(ItemKind::AbilityDefinition(ability)) => {
                    law_the_place_of_a_name_is_its_first(
                        ability.body@,
                        name.local_name_id,
                        ability.body@.len() as int,
                    );
                },
                _ => {},
            },
            _ => {},
        }
    }

    /// A method is called by taking it out of its capability at its place and passing it the
    /// arguments, with its evidence behind them if it has a callee of its own. Gives the method, what
    /// is passed, and the states then.
    pub proof fn law_a_method_is_called_through_its_capability(
        self,
        callee: Option<ExprId>,
        capability: Value,
        index: u32,
        arguments: Seq<Value>,
        typ: Type,
    ) -> (stages: ((Value, Lowering), (Seq<Value>, Lowering)))
        requires
            self.is_running(),
            self.value_type(capability).fields() matches Some(fields) ==> index < fields.len(),
        ensures
            ({
                let ((method, taken), (passed, ready)) = stages;
                let (value, after) = self.method_called(
                    callee,
                    capability,
                    index,
                    arguments,
                    typ,
                    false,
                );
                &&& self.does(
                    Operation::IndexTuple { tuple: capability, index },
                    method,
                    taken,
                )
                &&& (passed, ready) == match callee {
                    Some(callee) => taken.with_evidence(callee, method, arguments),
                    None => (arguments, taken),
                }
                &&& ready.is_running() ==> ready.does(
                    if taken.value_type(method).is_closure() {
                        Operation::CallClosure { closure: method, arguments: passed }
                    } else {
                        Operation::Call { function: method, arguments: passed }
                    },
                    value,
                    after,
                )
            }),
    {
        reveal(Lowering::method_called);
        reveal(Lowering::method_of);
        let (method, taken) = self.method_of(capability, index);
        let own = match self.value_type(capability).fields() {
            Some(fields) => fields[index as int],
            None => self.value_type(capability),
        };
        self.pushing_does(Operation::IndexTuple { tuple: capability, index }, own);
        let (passed, ready) = match callee {
            Some(callee) => taken.with_evidence(callee, method, arguments),
            None => (arguments, taken),
        };
        if ready.is_running() {
            ready.pushing_does(
                Operation::CallClosure { closure: method, arguments: passed },
                typ,
            );
            ready.pushing_does(Operation::Call { function: method, arguments: passed }, typ);
        }
        ((method, taken), (passed, ready))
    }

    /// A method of a trait is taken from the last argument, and an operation of an effect from the
    /// capability for the effect. Both are noted with their places.
    pub proof fn law_methods_and_operations_have_their_capabilities(
        self,
        callee: ExprId,
        operation: DefinitionId,
        index: u32,
        arguments: Seq<Value>,
        typ: Type,
        diverges: bool,
    )
        ensures
            ({
                let noted = Lowering {
                    op_indices: self.op_indices.insert(operation, index),
                    ..self
                };
                &&& arguments.len() > 0 ==> self.trait_method_called(
                    callee,
                    operation,
                    index,
                    arguments,
                    typ,
                    diverges,
                ) == noted.method_called(
                    Some(callee),
                    arguments[arguments.len() - 1],
                    index,
                    arguments.take(arguments.len() - 1),
                    typ,
                    diverges,
                )
                &&& noted.effect_of_operation(callee) matches Some(effect)
                    ==> self.operation_called(
                    callee,
                    operation,
                    index,
                    arguments,
                    typ,
                    diverges,
                ) == {
                    let (capability, made) = noted.capability_taken(effect);
                    made.method_called(None, capability, index, arguments, typ, diverges)
                }
            }),
    {
        reveal(Lowering::trait_method_called);
        reveal(Lowering::operation_called);
        if arguments.len() > 0 {
            assert(arguments.drop_last() =~= arguments.take(arguments.len() - 1));
        }
    }

    /// The arguments of a method are evaluated in turn, and a value that is read from a place is
    /// retained. What is left of the environments of capabilities is freed behind a drop. Gives the
    /// state before the last argument.
    pub proof fn law_the_arguments_of_a_method_run_in_turn(
        self,
        lower: Lower,
        arguments: Seq<Argument>,
        is_drop: bool,
        count: int,
    ) -> (before: Lowering)
        requires
            0 < count <= arguments.len(),
        ensures
            ({
                let (earlier, old_frees, made) = self.method_arguments(
                    lower,
                    arguments,
                    is_drop,
                    count - 1,
                );
                let (values, frees, after) = self.method_arguments(
                    lower,
                    arguments,
                    is_drop,
                    count,
                );
                let argument = arguments[count - 1];
                &&& before == made
                &&& values.len() == count
                &&& values.drop_last() == earlier
                &&& !(is_drop && argument.is_implicit) ==> {
                    let (value, done) = lower(before, argument.expr);
                    &&& values[count - 1] == value
                    &&& frees == old_frees
                    &&& after == if argument.is_implicit {
                        done
                    } else {
                        done.retained_if_place(argument.expr, value)
                    }
                }
                &&& is_drop && argument.is_implicit ==> (values[count - 1], frees, after)
                    == before.drop_capability(
                    lower,
                    argument.expr,
                    old_frees,
                    NESTING_LIMIT as nat,
                )
            }),
        decreases count,
    {
        reveal_with_fuel(Lowering::method_arguments, 2);
        if count > 1 {
            self.law_the_arguments_of_a_method_run_in_turn(lower, arguments, is_drop, count - 1);
        }
        let (earlier, _, before) = self.method_arguments(lower, arguments, is_drop, count - 1);
        let (values, _, _) = self.method_arguments(lower, arguments, is_drop, count);
        assert(values.drop_last() =~= earlier);
        before
    }

    /// What is left to free is freed in turn. Gives the state before the last.
    pub proof fn law_environments_are_freed_in_turn(self, environments: Seq<Value>, count: int) -> (
    stages: (Lowering, Value))
        requires
            0 < count <= environments.len(),
        ensures
            ({
                let (before, gone) = stages;
                &&& before == self.all_freed(environments, count - 1)
                &&& before.is_running() ==> before.does(
                    Operation::FreeShared(environments[count - 1]),
                    gone,
                    self.all_freed(environments, count),
                )
                &&& self.all_freed(environments, 0) == self
            }),
    {
        reveal_with_fuel(Lowering::all_freed, 2);
        let before = self.all_freed(environments, count - 1);
        let free = Operation::FreeShared(environments[count - 1]);
        if before.is_running() {
            before.pushing_does(free, Type::unit());
        }
        (before, before.pushed(free, Type::unit()).0)
    }

    /// A callee does not return if and only if it is a variable whose type, without what it
    /// quantifies, is a function to the type that has no values.
    pub open spec fn gives_nothing_back(self, typ: TCType, depth: nat) -> bool
        decreases depth,
    {
        depth > 0 && match self.follow(typ) {
            TCType::Function(function) => self.follow(function.return_type) == TCType::Primitive(
                PrimitiveType::Never,
            ),
            TCType::Forall(_, inner) => self.gives_nothing_back(*inner, (depth - 1) as nat),
            _ => false,
        }
    }

    proof fn never_returning_gives_nothing(self, typ: TCType, depth: nat)
        ensures
            self.never_returns(typ, depth) == self.gives_nothing_back(typ, depth),
        decreases depth,
    {
        if depth > 0 {
            match self.follow(typ) {
                TCType::Forall(_, inner) => {
                    self.never_returning_gives_nothing(*inner, (depth - 1) as nat);
                },
                _ => {},
            }
        }
    }

    /// A call diverges if and only if the callee gives nothing back.
    pub proof fn law_a_call_diverges_if_nothing_comes_back(self, callee: ExprId)
        ensures
            self.callee_diverges(callee) <==> match self.answers.context@.expr(callee) {
                ExprForm::Variable(path) => self.answers.path_types@.contains_key(path)
                    && self.gives_nothing_back(
                    self.answers.path_types@[path],
                    NESTING_LIMIT as nat,
                ),
                _ => false,
            },
    {
        reveal(Lowering::callee_diverges);
        match self.answers.context@.expr(callee) {
            ExprForm::Variable(path) => {
                if self.answers.path_types@.contains_key(path) {
                    self.never_returning_gives_nothing(
                        self.answers.path_types@[path],
                        NESTING_LIMIT as nat,
                    );
                }
            },
            _ => {},
        }
    }

    /// The effects that a `handle` leaves to others are those of its body that it does not handle.
    pub proof fn law_effects_that_are_not_handled_are_captured(
        self,
        effects: Seq<TCType>,
        excluded: Seq<TCType>,
        count: int,
        effect: TCType,
    )
        requires
            0 <= count <= effects.len(),
        ensures
            self.effects_besides(effects, excluded, count).contains(effect) <==> effects.take(
                count,
            ).contains(effect) && !excluded.contains(self.capability_key(effect)),
        decreases count,
    {
        reveal_with_fuel(Lowering::effects_besides, 2);
        if count > 0 {
            self.law_effects_that_are_not_handled_are_captured(
                effects,
                excluded,
                count - 1,
                effect,
            );
            let before = self.effects_besides(effects, excluded, count - 1);
            let all = self.effects_besides(effects, excluded, count);
            let earlier = effects.take(count - 1);
            let now = effects.take(count);
            if before.contains(effect) {
                let i = choose|i: int| 0 <= i < before.len() && before[i] == effect;
                assert(all[i] == effect);
            }
            if earlier.contains(effect) {
                let i = choose|i: int| 0 <= i < earlier.len() && earlier[i] == effect;
                assert(now[i] == effect);
            }
            if all.contains(effect) {
                let i = choose|i: int| 0 <= i < all.len() && all[i] == effect;
                if i < before.len() {
                    assert(before[i] == effect);
                } else {
                    assert(now[count - 1] == effect);
                }
            }
            if now.contains(effect) && !excluded.contains(self.capability_key(effect)) {
                let i = choose|i: int| 0 <= i < now.len() && now[i] == effect;
                if i < count - 1 {
                    assert(earlier[i] == effect);
                } else {
                    assert(all[before.len() as int] == effect);
                }
            }
        }
    }
}

} // verus!

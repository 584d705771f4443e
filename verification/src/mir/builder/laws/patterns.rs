//! What patterns bind in lowered code.

#[allow(unused_imports)]
use crate::cst::{ContextState, PatternForm};
#[allow(unused_imports)]
use crate::ids::{NameId, Origin, PatternId, NESTING_LIMIT};
#[allow(unused_imports)]
use crate::mir::builder::state::Lowering;
#[allow(unused_imports)]
use crate::mir::{Operation, Type, Value};
use vstd::prelude::*;

verus! {

proof fn one_more_name(names: Seq<NameId>, last: NameId, name: NameId)
    ensures
        names.push(last).contains(name) <==> names.contains(name) || name == last,
{
    let all = names.push(last);
    if names.contains(name) {
        let i = choose|i: int| 0 <= i < names.len() && names[i] == name;
        assert(all[i] == name);
    }
    if name == last {
        assert(all[names.len() as int] == name);
    }
}

impl Lowering {
    proof fn names_are_declared(
        self,
        names: Seq<NameId>,
        pattern: PatternId,
        name: NameId,
        depth: nat,
    )
        ensures
            self.with_names(names, pattern, depth).contains(name) <==> names.contains(name)
                || self.answers.context@.declares(pattern, name, depth),
        decreases depth, 0nat, 0int,
    {
        if depth > 0 {
            let inner = (depth - 1) as nat;
            match self.answers.context@.pattern(pattern) {
                PatternForm::Variable(own) => {
                    one_more_name(names, own, name);
                },
                PatternForm::MethodName { item_name } => {
                    one_more_name(names, item_name, name);
                },
                PatternForm::TypeAnnotation(part) => {
                    self.names_are_declared(names, part, name, inner);
                },
                PatternForm::Constructor(_, parts) => {
                    self.all_names_are_declared(names, parts, parts.len() as int, name, inner);
                },
                PatternForm::Or(parts) => {
                    if parts.len() > 0 {
                        self.names_are_declared(names, parts[0], name, inner);
                    }
                },
                PatternForm::Alias(own, part) => {
                    one_more_name(names, own, name);
                    self.names_are_declared(names.push(own), part, name, inner);
                },
                PatternForm::Error | PatternForm::Literal => {},
            }
        }
    }

    proof fn all_names_are_declared(
        self,
        names: Seq<NameId>,
        patterns: Seq<PatternId>,
        count: int,
        name: NameId,
        depth: nat,
    )
        requires
            count <= patterns.len(),
        ensures
            self.with_all_names(names, patterns, count, depth).contains(name) <==> names.contains(
                name,
            ) || exists|i: int|
                0 <= i < count && self.answers.context@.declares(
                    #[trigger] patterns[i],
                    name,
                    depth,
                ),
        decreases depth, 1nat, count,
    {
        if count > 0 {
            self.all_names_are_declared(names, patterns, count - 1, name, depth);
            let before = self.with_all_names(names, patterns, count - 1, depth);
            self.names_are_declared(before, patterns[count - 1], name, depth);
            assert(patterns[count - 1] == patterns[count - 1]);
        }
    }

    /// The names of a pattern are those that occur in it as variables, methods or aliases, through
    /// annotations and the arguments of constructors, and in the first alternative of several.
    pub proof fn law_a_pattern_names_what_it_declares(self, pattern: PatternId, name: NameId)
        ensures
            self.pattern_names(pattern).contains(name) <==> self.answers.context@.is_declared(
                pattern,
                name,
            ),
    {
        reveal(Lowering::pattern_names);
        self.names_are_declared(Seq::empty(), pattern, name, NESTING_LIMIT as nat);
    }

    /// The name stands for all that the pattern matches.
    pub open spec fn names_all_of(self, pattern: PatternId, name: NameId, depth: nat) -> bool
        decreases depth,
    {
        depth > 0 && match self.answers.context@.pattern(pattern) {
            PatternForm::Variable(own) => own == name,
            PatternForm::MethodName { item_name } => item_name == name,
            PatternForm::Alias(own, _) => own == name,
            PatternForm::TypeAnnotation(inner) => self.names_all_of(
                inner,
                name,
                (depth - 1) as nat,
            ),
            PatternForm::Or(parts) => parts.len() > 0 && self.names_all_of(
                parts[0],
                name,
                (depth - 1) as nat,
            ),
            _ => false,
        }
    }

    proof fn whole_names_name_all(self, pattern: PatternId, name: NameId, depth: nat)
        ensures
            self.whole_name(pattern, depth) == Some(name) <==> self.names_all_of(
                pattern,
                name,
                depth,
            ),
        decreases depth,
    {
        if depth > 0 {
            match self.answers.context@.pattern(pattern) {
                PatternForm::TypeAnnotation(inner) => {
                    self.whole_names_name_all(inner, name, (depth - 1) as nat);
                },
                PatternForm::Or(parts) => {
                    if parts.len() > 0 {
                        self.whole_names_name_all(parts[0], name, (depth - 1) as nat);
                    }
                },
                _ => {},
            }
        }
    }

    /// The name of a pattern, if it has one, stands for all that the pattern matches.
    pub proof fn law_the_name_of_a_pattern_stands_for_the_whole(
        self,
        pattern: PatternId,
        name: NameId,
    )
        ensures
            self.pattern_name(pattern) == Some(name) <==> self.names_all_of(
                pattern,
                name,
                NESTING_LIMIT as nat,
            ),
    {
        reveal(Lowering::pattern_name);
        self.whole_names_name_all(pattern, name, NESTING_LIMIT as nat);
    }

    /// The fields of a value are taken out of it and bound one after the other: `states` are those
    /// before each of them, and the one behind the last.
    pub open spec fn binds_each_field(
        value: Value,
        patterns: Seq<PatternId>,
        depth: nat,
        states: Seq<Lowering>,
    ) -> bool {
        &&& states.len() == patterns.len() + 1
        &&& forall|i: int|
            #![trigger patterns[i]]
            0 <= i < patterns.len() && states[i].is_running() ==> states[i].binds_field(
                value,
                i as u32,
                patterns[i],
                depth,
                states[i + 1],
            )
    }

    /// The field at `index` is taken out of the value, and bound to the pattern.
    pub open spec fn binds_field(
        self,
        value: Value,
        index: u32,
        pattern: PatternId,
        depth: nat,
        after: Lowering,
    ) -> bool {
        exists|field: Value, taken: Lowering| #[trigger]
            self.does(Operation::IndexTuple { tuple: value, index }, field, taken) && after
                == taken.bound(pattern, field, depth)
    }

    /// The arguments of a constructor are bound to the fields at their places, in turn. Gives the
    /// states around them.
    pub proof fn law_arguments_are_bound_to_the_fields(
        self,
        value: Value,
        fields: Seq<Type>,
        patterns: Seq<PatternId>,
        count: int,
        depth: nat,
    ) -> (states: Seq<Lowering>)
        requires
            0 <= count <= patterns.len(),
        ensures
            Lowering::binds_each_field(value, patterns.take(count), depth, states),
            states[0] == self,
            states.last() == self.fields_bound(value, fields, patterns, count, depth),
        decreases count,
    {
        if count > 0 {
            let states = self.law_arguments_are_bound_to_the_fields(
                value,
                fields,
                patterns,
                count - 1,
                depth,
            );
            let made = self.fields_bound(value, fields, patterns, count - 1, depth);
            let after = self.fields_bound(value, fields, patterns, count, depth);
            let index = (count - 1) as u32;
            let take = Operation::IndexTuple { tuple: value, index };
            let typ = fields[count - 1];
            let (field, taken) = made.pushed(take, typ);
            if made.is_running() {
                made.pushing_does(take, typ);
                assert(made.does(take, field, taken));
                assert(made.binds_field(value, index, patterns[count - 1], depth, after));
            }
            let more = states.push(after);
            let earlier = patterns.take(count - 1);
            let now = patterns.take(count);
            assert forall|i: int|
                #![trigger now[i]]
                0 <= i < now.len() && more[i].is_running() implies more[i].binds_field(
                value,
                i as u32,
                now[i],
                depth,
                more[i + 1],
            ) by {
                if i < count - 1 {
                    assert(earlier[i] == now[i]);
                    assert(states[i] == more[i]);
                }
            }
            more
        } else {
            seq![self]
        }
    }

    /// A pattern is bound by its form: a name to the value, an alias before what it is an alias of,
    /// an annotation as what it annotates, and the arguments of a constructor to the fields of what
    /// the value is or points at, as far as there are any. A literal binds nothing.
    pub proof fn law_a_pattern_is_bound_by_its_form(
        self,
        pattern: PatternId,
        value: Value,
        depth: nat,
        name: NameId,
    )
        requires
            depth > 0,
        ensures
            ({
                let after = self.bound(pattern, value, depth);
                let inner = (depth - 1) as nat;
                let is_local = self.answers.name_origins@.contains_key(name)
                    && self.answers.name_origins@[name] == Origin::Local(name);
                let named = Lowering { locals: self.locals.insert(name, value), ..self };
                match self.answers.context@.pattern(pattern) {
                    PatternForm::Variable(own) => own == name && is_local ==> after == named,
                    PatternForm::MethodName { item_name } => item_name == name && is_local ==> after
                        == named,
                    PatternForm::Alias(own, part) => own == name && is_local ==> after
                        == named.bound(part, value, inner),
                    PatternForm::TypeAnnotation(part) => after == self.bound(part, value, inner),
                    PatternForm::Literal => after == self,
                    PatternForm::Constructor(_, arguments) => {
                        let (whole, opened) = self.dereferenced(value, self.pattern_type(pattern));
                        opened.value_type(whole).fields() is Some ==> {
                            let fields = opened.value_type(whole).fields().unwrap();
                            after == opened.fields_bound(
                                whole,
                                fields,
                                arguments,
                                if fields.len() <= arguments.len() {
                                    fields.len() as int
                                } else {
                                    arguments.len() as int
                                },
                                inner,
                            )
                        }
                    },
                    PatternForm::Or(_) | PatternForm::Error => after.failed,
                }
            }),
    {
        reveal(Lowering::name_bound);
        reveal(Lowering::with_variable);
    }

    /// The variable at the end of `names` is moved to a slot that holds what it was bound to, and
    /// those before it were in the same way. Gives the slot, and the states around that.
    pub proof fn law_a_variable_gets_a_slot_with_its_value(self, names: Seq<NameId>, count: int) -> (
    stages: (Lowering, Value, Lowering))
        requires
            0 < count <= names.len(),
        ensures
            ({
                let (before, slot, placed) = stages;
                let name = names[count - 1];
                let after = self.made_mutable(names, count);
                &&& before == self.made_mutable(names, count - 1)
                &&& before.locals.contains_key(name) && before.is_running() ==> {
                    &&& before.does(Operation::StackAlloc(before.locals[name]), slot, placed)
                    &&& after.function == placed.function && after.block == placed.block
                    &&& after.locals == before.locals.insert(name, slot)
                    &&& after.mutable_locals == before.mutable_locals.insert(name)
                }
                &&& !before.locals.contains_key(name) ==> after.failed
            }),
    {
        reveal_with_fuel(Lowering::made_mutable, 2);
        let before = self.made_mutable(names, count - 1);
        let name = names[count - 1];
        let alloc = Operation::StackAlloc(before.locals[name]);
        let (slot, placed) = before.pushed(alloc, Type::pointer());
        if before.is_running() {
            before.pushing_does(alloc, Type::pointer());
        }
        (before, slot, placed)
    }
}

} // verus!

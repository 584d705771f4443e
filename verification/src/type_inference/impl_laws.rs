//! What holds of `Drop` impls, of aliases and of temporaries.

#[allow(unused_imports)]
use crate::collections::lookup;
#[allow(unused_imports)]
use crate::cst::{Definition, ExprForm, PatternForm};
#[allow(unused_imports)]
use crate::ids::{
    ExprId, Location, NameId, Origin, PatternId, TopLevelId, TopLevelName, NESTING_LIMIT,
};
#[allow(unused_imports)]
use crate::type_inference::affine::{ability_applied, CONSTRAINT_LIMIT};
#[allow(unused_imports)]
use crate::type_inference::checker::{Report, State};
#[allow(unused_imports)]
use crate::types::{FunctionType, Generic, Parameters, PrimitiveType, Type, TypeList};
use vstd::prelude::*;

verus! {

impl Parameters {
    /// The type of the parameter at `index`, if it is an implicit one.
    pub open spec fn implicit_at(self, index: nat) -> Option<Type>
        decreases index,
    {
        match self {
            Parameters::Nil => None,
            Parameters::Cons(implicit, typ, rest) => if index == 0 {
                if implicit {
                    Some(*typ)
                } else {
                    None
                }
            } else {
                rest.implicit_at((index - 1) as nat)
            },
        }
    }
}

impl State {
    /// The implicit parameter at `index` is a `Drop` constraint, if it is there, that holds.
    pub open spec fn meets_drop_constraint(
        self,
        parameters: Parameters,
        bindings: Map<u32, Type>,
        remaining: nat,
        index: nat,
    ) -> bool {
        match parameters.implicit_at(index) {
            None => true,
            Some(typ) => match State::constraint_argument(
                typ,
                self.facts.prelude.drop_type,
                bindings,
            ) {
                None => true,
                Some(argument) => self.is_droppable(argument, remaining),
            },
        }
    }

    /// The constraints of an impl hold if and only if each of its implicit parameters that asks for
    /// a type to be droppable asks for one that is.
    pub proof fn law_each_drop_constraint_has_to_hold(
        self,
        parameters: Parameters,
        bindings: Map<u32, Type>,
        remaining: nat,
    )
        ensures
            self.drop_constraints_hold(parameters, bindings, remaining) <==> forall|index: nat|
                #[trigger]
                self.meets_drop_constraint(parameters, bindings, remaining, index),
        decreases parameters,
    {
        match parameters {
            Parameters::Nil => {
                assert forall|index: nat| #[trigger]
                    self.meets_drop_constraint(parameters, bindings, remaining, index) by {}
            },
            Parameters::Cons(implicit, typ, rest) => {
                self.law_each_drop_constraint_has_to_hold(*rest, bindings, remaining);
                if self.drop_constraints_hold(parameters, bindings, remaining) {
                    assert forall|index: nat| #[trigger]
                        self.meets_drop_constraint(parameters, bindings, remaining, index) by {
                        if index > 0 {
                            assert(self.meets_drop_constraint(
                                *rest,
                                bindings,
                                remaining,
                                (index - 1) as nat,
                            ));
                        }
                    }
                }
                if forall|index: nat| #[trigger]
                    self.meets_drop_constraint(parameters, bindings, remaining, index) {
                    assert(self.meets_drop_constraint(parameters, bindings, remaining, 0));
                    assert forall|index: nat| #[trigger]
                        self.meets_drop_constraint(*rest, bindings, remaining, index) by {
                        assert(self.meets_drop_constraint(
                            parameters,
                            bindings,
                            remaining,
                            index + 1,
                        ));
                        assert(parameters.implicit_at(index + 1) == rest.implicit_at(index));
                    }
                }
            },
        }
    }

    proof fn impls_are_among(
        self,
        wanted: Type,
        candidates: Seq<TopLevelName>,
        count: int,
        remaining: nat,
    )
        requires
            count <= candidates.len(),
        ensures
            self.drop_impl_among(wanted, candidates, count, remaining) <==> exists|i: int|
                0 <= i < count && self.is_drop_impl(#[trigger] candidates[i], wanted, remaining),
        decreases count,
    {
        if count > 0 {
            self.impls_are_among(wanted, candidates, count - 1, remaining);
            assert(candidates[count - 1] == candidates[count - 1]);
            if self.is_drop_impl(candidates[count - 1], wanted, remaining) {
                assert(self.drop_impl_among(wanted, candidates, count, remaining));
            }
        }
    }

    /// A type has a `Drop` impl if and only if an implicit in scope is one, or a definition that is
    /// visible where the current item is: one that is of the wanted type, or a function that returns
    /// it and whose own constraints hold.
    pub proof fn law_an_impl_makes_a_type_droppable(self, typ: Type, remaining: nat)
        ensures
            ({
                let wanted = ability_applied(self.facts.prelude.drop_type, typ);
                let local = exists|i: int|
                    0 <= i < self.implicits_in_scope.len() && self.implicit_is(
                        #[trigger] self.implicits_in_scope[i],
                        wanted,
                    );
                let file = self.current_item->0.source_file;
                let candidates = self.impl_candidates(file, wanted);
                let visible = self.current_item is Some && exists|i: int|
                    0 <= i < candidates.len() && self.is_drop_impl(
                        #[trigger] candidates[i],
                        wanted,
                        remaining,
                    );
                self.has_drop_impl_within(typ, remaining) <==> local || visible
            }),
    {
        let wanted = ability_applied(self.facts.prelude.drop_type, typ);
        match self.current_item {
            Some(item) => {
                let candidates = self.impl_candidates(item.source_file, wanted);
                self.impls_are_among(wanted, candidates, candidates.len() as int, remaining);
            },
            None => {},
        }
    }

    /// A definition is an alias if and only if it binds an immutable variable to an immutable local:
    /// while values are dropped automatically, it owns nothing then.
    pub proof fn law_an_alias_of_an_immutable_local_owns_nothing(
        self,
        definition: Definition,
        bound: NameId,
    )
        ensures
            self.borrowed_alias(definition) == Some(bound) <==> {
                &&& self.elaborates_drops()
                &&& !definition.mutable
                &&& self.context.pattern(definition.pattern) == PatternForm::Variable(bound)
                &&& self.context.expr(definition.rhs) matches ExprForm::Variable(path)
                    && self.context.path_origin(path) matches Some(Origin::Local(source))
                    && !self.mutable_definitions.contains(source)
            },
    {
    }

    /// The type of a release function is one from the type itself, at its own generics, to unit,
    /// with no environment and no effects.
    pub proof fn law_a_release_takes_the_handle_and_gives_nothing(self, item: TopLevelId)
        requires
            self.facts.database.type_definition(item) is Some,
        ensures
            ({
                let definition = self.facts.database.type_definition(item).unwrap();
                let generics = definition.generics@;
                let name = TopLevelName { top_level_item: item, local_name_id: definition.name };
                let own = Type::UserDefined(Origin::TopLevelDefinition(name));
                let typ = self.release_type(item);
                let function = match typ {
                    Type::Forall(_, inner) => *inner,
                    other => other,
                };
                &&& typ is Forall <==> generics.len() > 0
                &&& function matches Type::Function(function) && {
                    &&& function.parameters.types().len() == 1
                    &&& function.parameters.implicit_at(0) is None
                    &&& function.environment == Type::Primitive(PrimitiveType::NoClosureEnv)
                    &&& function.return_type == Type::Primitive(PrimitiveType::Unit)
                    &&& function.effects matches Type::Effects(effects, rest) && *effects
                        == TypeList::Nil && rest is None
                    &&& generics.len() == 0 ==> function.parameters.types()[0] == own
                    &&& generics.len() > 0 ==> (function.parameters.types()[0]
                        matches Type::Application(constructor, args) && *constructor == own
                        && args.items().len() == generics.len() && forall|i: int|
                        0 <= i < generics.len() ==> #[trigger] args.items()[i] == Type::Generic(
                            Generic::Named(Origin::Local(generics[i])),
                        ))
                }
            }),
    {
        let definition = self.facts.database.type_definition(item).unwrap();
        let generics = definition.generics@;
        let types = generics.map_values(
            |name: NameId| Type::Generic(Generic::Named(Origin::Local(name))),
        );
        TypeList::Nil.law_a_list_is_what_it_holds(types);
        reveal_with_fuel(Parameters::types, 3);
    }

    /// A `Drop` impl for a shared type is reported, while values are dropped automatically, and no
    /// other impl is. The target of an impl with constraints is that of what it returns.
    pub proof fn law_a_drop_impl_for_a_shared_type_is_reported(
        self,
        impl_type: Type,
        pattern: PatternId,
    )
        ensures
            ({
                let after = self.shared_drop_impl_rejected(impl_type, pattern);
                let ability = match self.follow(impl_type) {
                    Type::Function(function) => self.follow(function.return_type),
                    other => other,
                };
                let rejected = self.facts.database.auto_drop && match ability {
                    Type::Application(constructor, args) => self.follow(*constructor)
                        == Type::UserDefined(
                        Origin::TopLevelDefinition(self.facts.prelude.drop_type),
                    ) && args.items().len() > 0 && self.is_shared(args.items()[0]),
                    _ => false,
                };
                after.diagnostics == if rejected {
                    self.diagnostics.push(
                        Report::DropImplForSharedType {
                            location: self.context.pattern_location(pattern),
                        },
                    )
                } else {
                    self.diagnostics
                }
            }),
    {
        let ability = match self.follow(impl_type) {
            Type::Function(function) => self.follow(function.return_type),
            other => other,
        };
        match ability {
            Type::Application(_, args) => {
                match *args {
                    TypeList::Cons(first, rest) => {
                        assert(args.items()[0] == *first);
                    },
                    TypeList::Nil => {},
                }
            },
            _ => {},
        }
    }

    /// A value that is referred to in an argument of a call, and that is no place, is bound to a
    /// variable of its own in front of the reference if it needs a drop, and is dropped behind the
    /// call. Otherwise it is referred to as it is.
    pub proof fn law_a_temporary_is_dropped_behind_the_call(
        self,
        rhs: ExprId,
        element: Type,
        location: Location,
    )
        ensures
            ({
                let typ = self.follow(element);
                let (referred, after) = self.autoref_temp_bound(rhs, element, location);
                let name = self.next_name();
                let (drop, made) = self.with_variable("autoref_tmp"@, typ, location).place_dropped(
                    (name, Seq::empty()),
                    typ,
                    location,
                );
                let is_temporary = self.call_argument_depth > 0 && self.elaborates_drops()
                    && self.place_of_expr(rhs) is None && typ != Type::error()
                    && self.is_concrete(typ);
                &&& !is_temporary ==> referred == rhs && after == self
                &&& is_temporary && drop is None ==> referred == rhs && after == made
                &&& is_temporary && drop is Some && made.context.has_room(4) ==> {
                    &&& after.pending_autoref_temp_drops == made.pending_autoref_temp_drops.push(
                        drop->0,
                    )
                    &&& after.context.expr(referred) matches ExprForm::Sequence(items)
                        && items.len() == 2 && after.context.reads(items[1], (name, Seq::empty()))
                        && (after.context.expr(items[0]) matches ExprForm::Definition(definition)
                        && definition.rhs == rhs && !definition.mutable && after.context.pattern(
                        definition.pattern,
                    ) == PatternForm::Variable(name))
                }
            }),
    {
        let typ = self.follow(element);
        let name = self.next_name();
        let place = (name, Seq::<Seq<char>>::empty());
        let (drop, made) = self.with_variable("autoref_tmp"@, typ, location).place_dropped(
            place,
            typ,
            location,
        );
        if drop is Some && made.context.has_room(4) {
            made.law_a_place_is_written_as_it_is_named(place, typ, location);
            let (body, placed) = made.place_expr(place, typ, location);
            let definition = placed.next_expr();
            let bound = placed.with_binding(name, rhs);
            let block = bound.next_expr();
            let done = bound.with_expr(ExprForm::Sequence(seq![definition, body]), typ, location);
            let after = State {
                pending_autoref_temp_drops: done.pending_autoref_temp_drops.push(drop->0),
                ..done
            };
            assert(placed.context.is_grown_into(after.context));
            placed.context.reads_stay(after.context, body, place);
            assert(after.context.expr(block) == ExprForm::Sequence(seq![definition, body]));
            assert(after.context.expr(definition) == ExprForm::Definition(
                Definition { pattern: placed.next_pattern(), rhs, mutable: false },
            ));
        }
    }
}

} // verus!

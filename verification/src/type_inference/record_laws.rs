//! What holds of what is recorded of expressions, and of how names and places are found and
//! written.

#[allow(unused_imports)]
use crate::cst::{ContextState, ExprForm, PatternForm};
#[allow(unused_imports)]
use crate::collections::lookup;
#[allow(unused_imports)]
use crate::database::{named, Database, TypeBody, TypeDefinitionBody};
#[allow(unused_imports)]
use crate::ids::{ExprId, Location, NameId, Origin, PatternId, TopLevelName, NESTING_LIMIT};
#[allow(unused_imports)]
use crate::type_inference::checker::{Report, State};
#[allow(unused_imports)]
use crate::type_inference::moves::{MovePath, MoveTracker, Place};
#[allow(unused_imports)]
use crate::types::{Type, TypeList};
use vstd::prelude::*;

verus! {

/// What a name stands for is what the first entry that reads so does, if there is one.
pub proof fn law_a_name_stands_for_its_first_entry(
    names: Seq<(String, TopLevelName)>,
    name: Seq<char>,
)
    ensures
        match named(names, name) {
            Some(found) => exists|i: int|
                {
                    &&& 0 <= i < names.len()
                    &&& (#[trigger] names[i]).0@ == name
                    &&& names[i].1 == found
                    &&& forall|j: int| 0 <= j < i ==> (#[trigger] names[j]).0@ != name
                },
            None => forall|i: int| 0 <= i < names.len() ==> (#[trigger] names[i]).0@ != name,
        },
    decreases names.len(),
{
    if names.len() > 0 && names[0].0@ != name {
        let rest = names.drop_first();
        law_a_name_stands_for_its_first_entry(rest, name);
        match named(rest, name) {
            Some(found) => {
                let i = choose|i: int|
                    {
                        &&& 0 <= i < rest.len()
                        &&& (#[trigger] rest[i]).0@ == name
                        &&& rest[i].1 == found
                        &&& forall|j: int| 0 <= j < i ==> (#[trigger] rest[j]).0@ != name
                    };
                assert(names[i + 1] == rest[i]);
                assert forall|j: int| 0 <= j < i + 1 implies (#[trigger] names[j]).0@ != name by {
                    if j > 0 {
                        assert(rest[j - 1].0@ != name);
                    }
                }
            },
            None => {
                assert forall|i: int| 0 <= i < names.len() implies (#[trigger] names[i]).0@
                    != name by {
                    if i > 0 {
                        assert(rest[i - 1].0@ != name);
                    }
                }
            },
        }
    } else if names.len() > 0 {
        assert(names[0].0@ == name);
    }
}

impl ContextState {
    /// All that is recorded of an expression is recorded of its copy, and nothing else changes.
    pub proof fn law_a_copy_has_all_that_is_recorded(self, from: ExprId, to: ExprId, other: ExprId)
        requires
            other != to,
        ensures
            ({
                let after = self.with_metadata_copied(from, to);
                &&& self.post_expr_drops.contains_key(from) ==> after.post_expr_drops.contains_key(
                    to,
                ) && after.post_expr_drops[to] == self.post_expr_drops[from]
                &&& self.pre_exit_drops.contains_key(from) ==> after.pre_exit_drops.contains_key(to)
                    && after.pre_exit_drops[to] == self.pre_exit_drops[from]
                &&& self.implicit_else_drops.contains_key(from)
                    ==> after.implicit_else_drops.contains_key(to)
                    && after.implicit_else_drops[to] == self.implicit_else_drops[from]
                &&& self.closure_environments.contains_key(from)
                    ==> after.closure_environments.contains_key(to)
                    && after.closure_environments[to] == self.closure_environments[from]
                &&& self.borrowed_captures.contains_key(from)
                    ==> after.borrowed_captures.contains_key(to) && after.borrowed_captures[to]
                    == self.borrowed_captures[from]
                &&& self.closure_env_slots.contains_key(from)
                    ==> after.closure_env_slots.contains_key(to) && after.closure_env_slots[to]
                    == self.closure_env_slots[from]
                &&& self.member_access_indices.contains_key(from)
                    ==> after.member_access_indices.contains_key(to)
                    && after.member_access_indices[to] == self.member_access_indices[from]
                &&& self.move_closures.contains(from) ==> after.move_closures.contains(to)
                &&& self.escape_retains.contains(from) ==> after.escape_retains.contains(to)
                &&& self.closure_env_releases.contains(from) ==> after.closure_env_releases.contains(
                    to,
                )
                &&& after.post_expr_drops.contains_key(other) == self.post_expr_drops.contains_key(
                    other,
                )
                &&& after.pre_exit_drops.contains_key(other) == self.pre_exit_drops.contains_key(
                    other,
                )
                &&& after.move_closures.contains(other) == self.move_closures.contains(other)
                &&& after.escape_retains.contains(other) == self.escape_retains.contains(other)
                &&& after.exprs == self.exprs
            }),
    {
    }

    /// What is moved to another id runs there and no longer at the one it had.
    pub proof fn law_what_is_moved_runs_where_it_went(self, from: ExprId, to: ExprId)
        requires
            from != to,
        ensures
            ({
                let after = self.with_metadata_copied(from, to).with_drops_cleared(from);
                &&& !after.post_expr_drops.contains_key(from)
                &&& !after.pre_exit_drops.contains_key(from)
                &&& !after.implicit_else_drops.contains_key(from)
                &&& self.post_expr_drops.contains_key(from) ==> after.post_expr_drops.contains_key(
                    to,
                ) && after.post_expr_drops[to] == self.post_expr_drops[from]
                &&& self.pre_exit_drops.contains_key(from) ==> after.pre_exit_drops.contains_key(to)
                    && after.pre_exit_drops[to] == self.pre_exit_drops[from]
                &&& self.implicit_else_drops.contains_key(from)
                    ==> after.implicit_else_drops.contains_key(to)
                    && after.implicit_else_drops[to] == self.implicit_else_drops[from]
            }),
    {
    }

    /// Drops are recorded behind those that are recorded already, of the expression they run at and
    /// of no other.
    pub proof fn law_drops_are_recorded_behind_others(
        self,
        expr: ExprId,
        drops: Seq<ExprId>,
        other: ExprId,
    )
        requires
            other != expr,
        ensures
            ({
                let after = self.with_post_expr_drops(expr, drops);
                let exits = self.with_pre_exit_drops(expr, drops);
                let old_drops = |table: Map<ExprId, Seq<ExprId>>, at: ExprId|
                    if table.contains_key(at) {
                        table[at]
                    } else {
                        Seq::empty()
                    };
                &&& after.post_expr_drops.contains_key(expr)
                &&& after.post_expr_drops[expr] == old_drops(self.post_expr_drops, expr) + drops
                &&& old_drops(after.post_expr_drops, other) == old_drops(
                    self.post_expr_drops,
                    other,
                )
                &&& after.pre_exit_drops == self.pre_exit_drops
                &&& exits.pre_exit_drops.contains_key(expr)
                &&& exits.pre_exit_drops[expr] == old_drops(self.pre_exit_drops, expr) + drops
                &&& old_drops(exits.pre_exit_drops, other) == old_drops(self.pre_exit_drops, other)
                &&& exits.post_expr_drops == self.post_expr_drops
            }),
    {
    }
}

impl State {
    /// The definition binds the name: as its variable or as that of a method, through annotations.
    pub open spec fn is_defined_as(self, pattern: PatternId, name: NameId, depth: nat) -> bool
        decreases depth,
    {
        depth > 0 && match self.context.pattern(pattern) {
            PatternForm::Variable(own) => own == name,
            PatternForm::MethodName { item_name } => item_name == name,
            PatternForm::TypeAnnotation(inner) => self.is_defined_as(
                inner,
                name,
                (depth - 1) as nat,
            ),
            _ => false,
        }
    }

    /// The pattern is the variable, through annotations.
    pub open spec fn is_variable(self, pattern: PatternId, name: NameId, depth: nat) -> bool
        decreases depth,
    {
        depth > 0 && match self.context.pattern(pattern) {
            PatternForm::Variable(own) => own == name,
            PatternForm::TypeAnnotation(inner) => self.is_variable(inner, name, (depth - 1) as nat),
            _ => false,
        }
    }

    /// The name of a definition, and the variable of a pattern, are those that it is, through
    /// annotations, and there is none otherwise.
    pub proof fn law_a_definition_is_named_through_annotations(
        self,
        pattern: PatternId,
        name: NameId,
        depth: nat,
    )
        ensures
            self.binding_name_at(pattern, depth) == Some(name) <==> self.is_defined_as(
                pattern,
                name,
                depth,
            ),
            self.single_variable_at(pattern, depth) == Some(name) <==> self.is_variable(
                pattern,
                name,
                depth,
            ),
        decreases depth,
    {
        if depth > 0 {
            match self.context.pattern(pattern) {
                PatternForm::TypeAnnotation(inner) => {
                    self.law_a_definition_is_named_through_annotations(
                        inner,
                        name,
                        (depth - 1) as nat,
                    );
                },
                _ => {},
            }
        }
    }

    /// A value that dies with no way to drop it is reported once, where it is bound if that is known,
    /// unless reports are held back.
    pub proof fn law_a_missing_drop_is_reported_once(
        self,
        place: Place,
        typ: Type,
        fallback: Location,
    )
        ensures
            ({
                let after = self.missing_drop_reported(place, typ, fallback);
                let again = after.missing_drop_reported(place, typ, fallback);
                let reported = !self.suppress_missing_drop_diagnostic
                    && !self.diagnosed_missing_drops.contains(place);
                &&& again == after
                &&& !reported ==> after == self
                &&& reported ==> {
                    &&& after.diagnostics.len() == self.diagnostics.len() + 1
                    &&& after.diagnostics.last() == (Report::MissingDropConstraint {
                        typ,
                        location: if place.0 < self.context.name_locations.len() {
                            self.context.name_locations[place.0 as int]
                        } else {
                            fallback
                        },
                    })
                    &&& after.diagnosed_missing_drops == self.diagnosed_missing_drops.insert(place)
                }
            }),
    {
    }

    /// The drops of what an edge still owns run behind the expression at its end. Gives the state
    /// before the last edge, and its drops.
    pub proof fn law_an_edge_drops_behind_its_expression(
        self,
        candidates: Seq<NameId>,
        edges: Seq<(ExprId, MoveTracker)>,
        count: int,
    ) -> (stages: (State, Seq<ExprId>, State))
        requires
            0 < count <= edges.len(),
        ensures
            ({
                let (before, drops, made) = stages;
                let expr = edges[count - 1].0;
                let after = self.edges_equalized(candidates, edges, count);
                let earlier = if made.context.post_expr_drops.contains_key(expr) {
                    made.context.post_expr_drops[expr]
                } else {
                    Seq::empty()
                };
                &&& before == self.edges_equalized(candidates, edges, count - 1)
                &&& (drops, made) == before.edge_drops(
                    candidates,
                    candidates.len() as int,
                    edges[count - 1].1@,
                    before.context.expr_location(expr),
                )
                &&& drops.len() == 0 ==> after == made
                &&& drops.len() > 0 ==> after.context.post_expr_drops
                    == made.context.post_expr_drops.insert(expr, earlier + drops)
            }),
    {
        let before = self.edges_equalized(candidates, edges, count - 1);
        let expr = edges[count - 1].0;
        let (drops, made) = before.edge_drops(
            candidates,
            candidates.len() as int,
            edges[count - 1].1@,
            before.context.expr_location(expr),
        );
        (before, drops, made)
    }

    /// A type is bounded by an ability if and only if an implicit in scope is the ability at that
    /// type: one that is the ability at another type does not do, nor one that is another ability.
    pub proof fn law_an_implicit_bounds_its_own_target(
        self,
        target: Type,
        ability: TopLevelName,
        index: int,
        own: TopLevelName,
        arg: Type,
        rest: TypeList,
    )
        requires
            0 <= index < self.implicits_in_scope.len(),
            self.name_types.contains_key(self.implicits_in_scope[index]),
            self.name_types[self.implicits_in_scope[index]] == Type::Application(
                Box::new(Type::UserDefined(Origin::TopLevelDefinition(own))),
                Box::new(TypeList::Cons(Box::new(arg), Box::new(rest))),
            ),
        ensures
            ({
                let name = self.implicits_in_scope[index];
                let of_target = self.follow(
                    arg.substituted(self.bindings, (NESTING_LIMIT - 1) as nat),
                ) == self.follow(target);
                &&& self.is_constraint(name, target, ability) <==> own == ability && of_target
                &&& own == ability && of_target ==> self.constraint_in_scope(target, ability)
            }),
    {
        let name = self.implicits_in_scope[index];
        let constructor = Type::UserDefined(Origin::TopLevelDefinition(own));
        let typ = self.name_types[name];
        assert(self.follow(constructor) == constructor);
        assert(self.follow(typ) == typ);
        let inner = (NESTING_LIMIT - 1) as nat;
        let list = TypeList::Cons(Box::new(arg), Box::new(rest));
        assert(constructor.substituted(self.bindings, inner) == constructor);
        assert(list.substituted(self.bindings, inner) == TypeList::Cons(
            Box::new(arg.substituted(self.bindings, inner)),
            Box::new(rest.substituted(self.bindings, inner)),
        ));
        assert(self.substituted(typ) == Type::Application(
            Box::new(constructor),
            Box::new(list.substituted(self.bindings, inner)),
        ));
        assert(self.could_be(typ, ability) <==> own == ability);
        if self.is_constraint(name, target, ability) {
            assert(self.constraint_in_scope(target, ability));
        }
    }

    /// What is not known yet could be an implicit of any ability, and so could what applies
    /// something that is not. A type that applies a definition could be one of that alone.
    pub proof fn law_what_is_not_known_could_be_anything(
        self,
        typ: Type,
        ability: TopLevelName,
        depth: nat,
    )
        requires
            depth > 0,
        ensures
            match self.follow(typ) {
                Type::Variable(_) => self.could_be_at(typ, ability, depth),
                Type::Generic(_) => self.could_be_at(typ, ability, depth),
                Type::Application(constructor, _) => {
                    let known = self.follow(*constructor);
                    &&& known is Variable || known is Generic ==> self.could_be_at(
                        typ,
                        ability,
                        depth,
                    )
                    &&& known matches Type::UserDefined(Origin::TopLevelDefinition(name)) ==> (
                    self.could_be_at(typ, ability, depth) <==> name == ability)
                },
                Type::Forall(_, inner) => self.could_be_at(typ, ability, depth)
                    == self.could_be_at(*inner, ability, (depth - 1) as nat),
                _ => !self.could_be_at(typ, ability, depth),
            },
    {
        reveal_with_fuel(State::could_be_at, 2);
    }

    /// A type that is an enum is one by its definition: its constructor names the definition, which
    /// declares as many variants as its body at the type's arguments has.
    pub proof fn law_an_enum_is_known_by_its_definition(self, typ: Type)
        ensures
            match self.sum_of(typ) {
                Some((item, names, variants)) => {
                    let (constructor, args) = match typ {
                        Type::Application(constructor, args) => (self.follow(*constructor), *args),
                        _ => (typ, TypeList::Nil),
                    };
                    &&& match constructor {
                        Type::UserDefined(Origin::TopLevelDefinition(name)) => name.top_level_item
                            == item,
                        _ => false,
                    }
                    &&& match lookup(self.facts.database.type_bodies@, (item, args)) {
                        Some(TypeBody::Sum(known)) => known@ == variants,
                        _ => false,
                    }
                    &&& match self.facts.database.type_definition(item) {
                        Some(definition) => match definition.body {
                            TypeDefinitionBody::Enum(declared) => declared@ == names,
                            _ => false,
                        },
                        None => false,
                    }
                    &&& names.len() == variants.len()
                },
                None => true,
            },
    {
    }
}

impl MovePath {
    /// How a place is written is its variable, and a dot and the name of each field behind it.
    pub proof fn law_a_place_is_written_with_dots(
        context: ContextState,
        place: Place,
        field: Seq<char>,
    )
        ensures
            MovePath::displayed(context, (place.0, Seq::empty())) == context.name(place.0),
            MovePath::displayed(context, (place.0, place.1.push(field))) == MovePath::displayed(
                context,
                place,
            ) + "."@ + field,
    {
        assert(place.1.push(field).drop_last() =~= place.1);
    }
}

} // verus!

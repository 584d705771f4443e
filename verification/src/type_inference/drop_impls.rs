//! Which types have a `Drop` impl.

use crate::collections::{map_get, set_contains};
#[allow(unused_imports)]
use crate::collections::lookup;
use crate::ids::{NameId, TopLevelName, NESTING_LIMIT};
use crate::type_inference::affine::{apply_ability, constraint_argument, CONSTRAINT_LIMIT};
#[allow(unused_imports)]
use crate::type_inference::affine::ability_applied;
use crate::type_inference::checker::TypeChecker;
#[allow(unused_imports)]
use crate::type_inference::checker::State;
use crate::types::{Generic, Parameters, Type, TypeBindings};
use vstd::prelude::*;

verus! {

impl State {
    /// The implicit `name` is of the type `wanted`.
    pub open spec fn implicit_is(self, name: NameId, wanted: Type) -> bool {
        &&& self.name_types.contains_key(name)
        &&& self.unifier(self.substituted(self.name_types[name]), wanted) is Some
    }

    /// Some `Drop` impl may be one for the type: one in scope, or one that is visible and whose
    /// own constraints hold. `remaining` bounds the impls on the way to a constraint.
    pub open spec fn has_drop_impl_within(self, typ: Type, remaining: nat) -> bool
        decreases remaining, 2nat, 0int, Parameters::Nil,
    {
        let wanted = ability_applied(self.facts.prelude.drop_type, typ);
        ||| exists|i: int|
            0 <= i < self.implicits_in_scope.len() && self.implicit_is(
                #[trigger] self.implicits_in_scope[i],
                wanted,
            )
        ||| (self.current_item matches Some(item) && {
            let candidates = self.impl_candidates(item.source_file, wanted);
            self.drop_impl_among(wanted, candidates, candidates.len() as int, remaining)
        })
    }

    /// One of the first `count` of `candidates` is a `Drop` impl of the type `wanted`.
    pub open spec fn drop_impl_among(
        self,
        wanted: Type,
        candidates: Seq<TopLevelName>,
        count: int,
        remaining: nat,
    ) -> bool
        decreases remaining, 1nat, count, Parameters::Nil,
    {
        count > 0 && (self.drop_impl_among(wanted, candidates, count - 1, remaining)
            || self.is_drop_impl(candidates[count - 1], wanted, remaining))
    }

    /// The definition is of the type `wanted`, or it is a function that returns it and whose
    /// `Drop` constraints hold.
    pub open spec fn is_drop_impl(self, candidate: TopLevelName, wanted: Type, remaining: nat) -> bool
        decreases remaining, 0nat, 0int, Parameters::Nil,
    {
        match lookup(self.facts.top_level_types@, candidate) {
            None => false,
            Some(typ) => self.unifier(typ, wanted) is Some || match typ {
                Type::Function(function) => match self.unifier(function.return_type, wanted) {
                    None => false,
                    Some(more) => remaining > 0 && self.drop_constraints_hold(
                        function.parameters,
                        self.with_unifier(more),
                        (remaining - 1) as nat,
                    ),
                },
                _ => false,
            },
        }
    }

    /// The `Drop` constraints among implicit parameters hold. Other constraints are taken to hold.
    pub open spec fn drop_constraints_hold(
        self,
        parameters: Parameters,
        bindings: Map<u32, Type>,
        remaining: nat,
    ) -> bool
        decreases remaining, 4nat, 0int, parameters,
    {
        match parameters {
            Parameters::Nil => true,
            Parameters::Cons(implicit, typ, rest) => {
                let argument = State::constraint_argument(
                    *typ,
                    self.facts.prelude.drop_type,
                    bindings,
                );
                &&& implicit && argument is Some ==> self.is_droppable(argument.unwrap(), remaining)
                &&& self.drop_constraints_hold(*rest, bindings, remaining)
            },
        }
    }

    /// A `Drop` constraint on the type holds. A number has an impl whatever it turns out to be.
    pub open spec fn is_droppable(self, typ: Type, remaining: nat) -> bool
        decreases remaining, 3nat, 0int, Parameters::Nil,
    {
        match typ {
            Type::Variable(id) => self.is_literal(id) || self.constraint_in_scope(
                typ,
                self.facts.prelude.drop_type,
            ),
            Type::Generic(_) => self.constraint_in_scope(typ, self.facts.prelude.drop_type),
            _ => self.has_drop_impl_within(typ, remaining),
        }
    }

    /// Some `Drop` impl may be one for the type.
    pub open spec fn has_drop_impl(self, typ: Type) -> bool {
        self.has_drop_impl_within(typ, CONSTRAINT_LIMIT as nat)
    }

    /// A generic that is still free is known to be droppable: a number is, and one that a
    /// constraint in scope names.
    pub open spec fn is_bounded(self, generic: Generic) -> bool {
        match generic {
            Generic::Inferred(id) => self.integer_literal_vars.contains(id)
                || self.float_literal_vars.contains(id) || self.constraint_in_scope(
                Type::Variable(id),
                self.facts.prelude.drop_type,
            ),
            Generic::Named(_) => self.constraint_in_scope(
                Type::Generic(generic),
                self.facts.prelude.drop_type,
            ),
        }
    }

    pub open spec fn all_bounded(self, generics: Seq<Generic>) -> bool {
        forall|i: int| 0 <= i < generics.len() ==> self.is_bounded(#[trigger] generics[i])
    }
}

impl<'a> TypeChecker<'a> {
    fn implicit_is(&self, name: NameId, wanted: &Type) -> (matches: bool)
        ensures
            matches == self@.implicit_is(name, *wanted),
    {
        match map_get(&self.name_types, name) {
            Some(name_type) => {
                let name_type = name_type.substitute(&self.bindings, NESTING_LIMIT);
                self.try_unify(&name_type, wanted).is_some()
            },
            None => false,
        }
    }

    fn has_drop_impl_within(&self, typ: &Type, remaining: u32) -> (found: bool)
        ensures
            found == self@.has_drop_impl_within(*typ, remaining as nat),
        decreases remaining, 2nat, 0int, Parameters::Nil,
    {
        let wanted = apply_ability(self.facts.prelude.drop_type, typ);
        let mut i: usize = 0;
        while i < self.implicits_in_scope.len()
            invariant
                i <= self.implicits_in_scope.len(),
                wanted == ability_applied(self@.facts.prelude.drop_type, *typ),
                forall|j: int|
                    0 <= j < i ==> !self@.implicit_is(
                        #[trigger] self@.implicits_in_scope[j],
                        wanted,
                    ),
            decreases self.implicits_in_scope.len() - i,
        {
            if self.implicit_is(self.implicits_in_scope[i], &wanted) {
                assert(self@.implicit_is(self@.implicits_in_scope[i as int], wanted));
                return true;
            }
            i += 1;
        }
        let item = match self.current_item {
            Some(item) => item,
            None => {
                return false;
            },
        };
        let candidates = self.find_impl_candidates(item.source_file, &wanted);
        let mut found = false;
        let mut i: usize = 0;
        while i < candidates.len()
            invariant
                i <= candidates.len(),
                found == self@.drop_impl_among(wanted, candidates@, i as int, remaining as nat),
            decreases candidates.len() - i,
        {
            found = found || self.is_drop_impl(candidates[i], &wanted, remaining);
            i += 1;
        }
        found
    }

    fn is_drop_impl(&self, candidate: TopLevelName, wanted: &Type, remaining: u32) -> (matches: bool)
        ensures
            matches == self@.is_drop_impl(candidate, *wanted, remaining as nat),
        decreases remaining, 0nat, 0int, Parameters::Nil,
    {
        let typ = match self.facts.top_level_types.get(&candidate) {
            Some(typ) => typ,
            None => {
                return false;
            },
        };
        if self.try_unify(typ, wanted).is_some() {
            return true;
        }
        match typ {
            Type::Function(function) => match self.try_unify(&function.return_type, wanted) {
                Some(more) => {
                    if remaining == 0 {
                        return false;
                    }
                    let merged = self.merged_bindings(more);
                    self.drop_impl_constraints_hold(&function.parameters, &merged, remaining - 1)
                },
                None => false,
            },
            _ => false,
        }
    }

    /// Whether the `Drop` constraints of an impl can be met, by another impl or by what is in
    /// scope. Other constraints are taken to hold.
    fn drop_impl_constraints_hold(
        &self,
        parameters: &Parameters,
        bindings: &TypeBindings,
        remaining: u32,
    ) -> (hold: bool)
        ensures
            hold == self@.drop_constraints_hold(*parameters, bindings@, remaining as nat),
        decreases remaining, 4nat, 0int, parameters,
    {
        match parameters {
            Parameters::Nil => true,
            Parameters::Cons(implicit, typ, rest) => {
                if *implicit {
                    match constraint_argument(typ, self.facts.prelude.drop_type, bindings) {
                        Some(argument) => {
                            if !self.is_droppable(&argument, remaining) {
                                return false;
                            }
                        },
                        None => {},
                    }
                }
                self.drop_impl_constraints_hold(rest, bindings, remaining)
            },
        }
    }

    fn is_droppable(&self, typ: &Type, remaining: u32) -> (droppable: bool)
        ensures
            droppable == self@.is_droppable(*typ, remaining as nat),
        decreases remaining, 3nat, 0int, Parameters::Nil,
    {
        match typ {
            Type::Variable(id) => self.is_literal_variable(*id)
                || self.constraint_in_scope_for_generic(typ, self.facts.prelude.drop_type),
            Type::Generic(_) => self.constraint_in_scope_for_generic(
                typ,
                self.facts.prelude.drop_type,
            ),
            _ => self.has_drop_impl_within(typ, remaining),
        }
    }

    /// Whether some `Drop` impl may be one for the type. Where none can be, no drop is asked for:
    /// that can leak a value and never drops one twice.
    pub fn type_has_drop_impl(&self, typ: &Type) -> (found: bool)
        ensures
            found == self@.has_drop_impl(*typ),
    {
        self.has_drop_impl_within(typ, CONSTRAINT_LIMIT)
    }

    pub fn is_bounded(&self, generic: Generic) -> (bounded: bool)
        ensures
            bounded == self@.is_bounded(generic),
    {
        match generic {
            Generic::Inferred(id) => set_contains(&self.integer_literal_vars, id) || set_contains(
                &self.float_literal_vars,
                id,
            ) || self.constraint_in_scope_for_variable(id, self.facts.prelude.drop_type),
            Generic::Named(_) => self.constraint_in_scope_for_generic(
                &Type::Generic(generic),
                self.facts.prelude.drop_type,
            ),
        }
    }

    pub fn all_bounded(&self, generics: &Vec<Generic>) -> (bounded: bool)
        ensures
            bounded == self@.all_bounded(generics@),
    {
        let mut i: usize = 0;
        while i < generics.len()
            invariant
                i <= generics.len(),
                forall|j: int| 0 <= j < i ==> self@.is_bounded(#[trigger] generics@[j]),
            decreases generics.len() - i,
        {
            if !self.is_bounded(generics[i]) {
                assert(!self@.is_bounded(generics@[i as int]));
                return false;
            }
            i += 1;
        }
        true
    }

    /// The name of the `Drop` ability of the prelude.
    pub fn get_drop_type_name(&self) -> (name: TopLevelName)
        ensures
            name == self@.facts.prelude.drop_type,
    {
        self.facts.prelude.drop_type
    }
}

} // verus!

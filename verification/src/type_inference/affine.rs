//! Which types are `Copy`, and whether values that are not are used once.

use crate::collections::{
    map_get, map_insert, place_entries, place_set_contains, place_set_insert, set_contains,
    set_items, Table,
};
#[allow(unused_imports)]
use crate::collections::{lookup, put};
use crate::cst::Expr;
#[allow(unused_imports)]
use crate::cst::ExprForm;
use crate::database::AbilityKind;
#[allow(unused_imports)]
use crate::definition_collection::visible_implicits::ids_of;
use crate::definition_collection::visible_implicits::{visible_implicits_impl, VisibleImplicits};
use crate::ids::{
    ExprId, Location, NameId, Origin, TopLevelId, TopLevelName, TypeVariableId, NESTING_LIMIT,
};
use crate::type_inference::checker::{Diagnostic, RepeatedContext, TypeChecker};
#[allow(unused_imports)]
use crate::type_inference::checker::{Report, State};
use crate::type_inference::moves::MovePath;
#[allow(unused_imports)]
use crate::type_inference::moves::{field_of, is_under, Moves, Place};
use crate::types::{FunctionType, Parameters, PrimitiveType, Type, TypeBindings, TypeList};
use rustc_hash::FxHashSet;
use vstd::prelude::*;

verus! {

broadcast use vstd::seq_lib::group_seq_properties;

/// What searches for `Copy` found.
pub type Cache = Seq<((u32, Type), bool)>;

/// How many impls a search for an impl goes through on the way to a constraint.
pub const CONSTRAINT_LIMIT: u32 = 8;

/// `ability typ`.
pub open spec fn ability_applied(ability: TopLevelName, typ: Type) -> Type {
    Type::apply(Type::UserDefined(Origin::TopLevelDefinition(ability)), typ)
}

/// `bindings` with the first `count` of `more`.
pub open spec fn extended(
    bindings: Map<TypeVariableId, Type>,
    more: Seq<(TypeVariableId, Type)>,
    count: int,
) -> Map<TypeVariableId, Type>
    decreases count,
{
    if count <= 0 {
        bindings
    } else {
        extended(bindings, more, count - 1).insert(more[count - 1].0, more[count - 1].1)
    }
}

impl State {
    /// The bindings that make `a` and `b` equal, if they unify.
    pub open spec fn unifier(self, a: Type, b: Type) -> Option<Seq<(TypeVariableId, Type)>> {
        match lookup(self.facts.unifications@, (a, b)) {
            Some(bindings) => Some(bindings@),
            None => None,
        }
    }

    pub open spec fn with_unifier(self, more: Seq<(TypeVariableId, Type)>) -> Map<
        TypeVariableId,
        Type,
    > {
        extended(self.bindings, more, more.len() as int)
    }

    /// Whether the type is a trait or an effect, applied or not.
    pub open spec fn is_ability_at(self, typ: Type, depth: nat) -> bool
        decreases depth,
    {
        depth > 0 && match self.follow(typ) {
            Type::Application(constructor, _) => self.is_ability_at(
                *constructor,
                (depth - 1) as nat,
            ),
            Type::UserDefined(Origin::TopLevelDefinition(name)) => self.facts.database.ability_kind_of(
                name.top_level_item,
            ) != AbilityKind::NotAbility,
            _ => false,
        }
    }

    pub open spec fn is_ability(self, typ: Type) -> bool {
        self.is_ability_at(typ, NESTING_LIMIT as nat)
    }

    /// The item that defines the type, applied or not.
    pub open spec fn defining_item_at(self, typ: Type, depth: nat) -> Option<TopLevelId>
        decreases depth,
    {
        if depth == 0 {
            None
        } else {
            match self.follow(typ) {
                Type::Application(constructor, _) => self.defining_item_at(
                    *constructor,
                    (depth - 1) as nat,
                ),
                Type::UserDefined(Origin::TopLevelDefinition(name)) => Some(name.top_level_item),
                _ => None,
            }
        }
    }

    pub open spec fn defining_item(self, typ: Type) -> Option<TopLevelId> {
        self.defining_item_at(typ, NESTING_LIMIT as nat)
    }

    /// Whether the type is defined as shared, and whether as mutable.
    pub open spec fn shared_flags(self, typ: Type) -> Option<(bool, bool)> {
        match self.defining_item(typ) {
            Some(item) => match self.facts.database.type_definition(item) {
                Some(definition) => Some((definition.shared, definition.mutable)),
                None => None,
            },
            None => None,
        }
    }

    pub open spec fn is_shared(self, typ: Type) -> bool {
        match self.shared_flags(typ) {
            Some((shared, _)) => shared,
            None => false,
        }
    }

    /// The item that defines the type, if it defines it as shared.
    pub open spec fn shared_item(self, typ: Type) -> Option<TopLevelId> {
        match self.defining_item(typ) {
            Some(item) => if self.facts.database.is_shared_type(item) {
                Some(item)
            } else {
                None
            },
            None => None,
        }
    }

    /// The type is one of closures whose environment is a counted cell.
    pub open spec fn has_heap_env(self, typ: Type) -> bool {
        match self.follow(typ) {
            Type::Function(function) => self.follow(function.environment) == Type::Primitive(
                PrimitiveType::Pointer,
            ),
            _ => false,
        }
    }

    /// The variable stands for a number in the end: it is one of a literal, or what one of a
    /// literal was bound to.
    pub open spec fn is_literal(self, id: TypeVariableId) -> bool {
        ||| self.integer_literal_vars.contains(id)
        ||| self.float_literal_vars.contains(id)
        ||| exists|literal: TypeVariableId|
            (self.integer_literal_vars.contains(literal) || self.float_literal_vars.contains(
                literal,
            )) && #[trigger] self.follow(Type::Variable(literal)) == Type::Variable(id)
    }

    /// The variable is a generic of the signature of the current item.
    pub open spec fn is_signature(self, id: TypeVariableId) -> bool {
        ||| self.signature_type_vars.contains(id)
        ||| exists|variable: TypeVariableId|
            self.signature_type_vars.contains(variable) && #[trigger] self.follow(
                Type::Variable(variable),
            ) == Type::Variable(id)
    }

    /// Whether a value of type `typ` may be one of `ability`, for all its head tells.
    pub open spec fn could_be_at(self, typ: Type, ability: TopLevelName, depth: nat) -> bool
        decreases depth,
    {
        depth > 0 && match self.follow(typ) {
            Type::Application(constructor, _) => match self.follow(*constructor) {
                Type::UserDefined(Origin::TopLevelDefinition(name)) => name == ability,
                Type::Variable(_) | Type::Generic(_) => true,
                _ => false,
            },
            Type::Variable(_) | Type::Generic(_) => true,
            Type::Forall(_, inner) => self.could_be_at(*inner, ability, (depth - 1) as nat),
            _ => false,
        }
    }

    pub open spec fn could_be(self, typ: Type, ability: TopLevelName) -> bool {
        self.could_be_at(typ, ability, NESTING_LIMIT as nat)
    }

    pub open spec fn substituted(self, typ: Type) -> Type {
        typ.substituted(self.bindings, NESTING_LIMIT as nat)
    }

    /// The implicit `name` is `ability target`, with exactly that target.
    pub open spec fn is_constraint(self, name: NameId, target: Type, ability: TopLevelName) -> bool {
        &&& self.name_types.contains_key(name)
        &&& self.could_be(self.name_types[name], ability)
        &&& match self.substituted(self.name_types[name]) {
            Type::Application(constructor, args) => {
                &&& self.follow(*constructor) == Type::UserDefined(
                    Origin::TopLevelDefinition(ability),
                )
                &&& match args.head() {
                    Some(arg) => self.follow(arg) == self.follow(target),
                    None => false,
                }
            },
            _ => false,
        }
    }

    /// An implicit `ability target` is in scope.
    pub open spec fn constraint_in_scope(self, target: Type, ability: TopLevelName) -> bool {
        exists|i: int|
            0 <= i < self.implicits_in_scope.len() && self.is_constraint(
                #[trigger] self.implicits_in_scope[i],
                target,
                ability,
            )
    }

    /// The implicit `name` is of the type `wanted`, which is one of `ability`.
    pub open spec fn local_matches(self, name: NameId, wanted: Type, ability: TopLevelName) -> bool {
        &&& self.name_types.contains_key(name)
        &&& self.could_be(self.name_types[name], ability)
        &&& self.unifier(self.substituted(self.name_types[name]), wanted) is Some
    }

    /// An implicit of the type `wanted` is in scope.
    pub open spec fn local_impl(self, wanted: Type, ability: TopLevelName) -> bool {
        exists|i: int|
            0 <= i < self.implicits_in_scope.len() && self.local_matches(
                #[trigger] self.implicits_in_scope[i],
                wanted,
                ability,
            )
    }

    /// The definitions visible in `file` that may be implicits of the type `wanted`.
    pub open spec fn impl_candidates(self, file: u32, wanted: Type) -> Seq<TopLevelName> {
        ids_of(self.facts.database.implicits_of(file).listed_for(wanted))
    }

    /// No variable and no generic occurs in the type.
    pub open spec fn is_concrete(self, typ: Type) -> bool {
        typ.free_in(self.bindings, NESTING_LIMIT as nat).len() == 0
    }

    /// What a constraint `ability arg` of an impl asks of `arg`, if the type is such a constraint.
    pub open spec fn constraint_argument(
        typ: Type,
        ability: TopLevelName,
        bindings: Map<TypeVariableId, Type>,
    ) -> Option<Type> {
        match typ.substituted(bindings, NESTING_LIMIT as nat) {
            Type::Application(constructor, args) => if constructor.followed(bindings)
                == Type::UserDefined(Origin::TopLevelDefinition(ability)) {
                match args.head() {
                    Some(arg) => Some(arg.substituted(bindings, NESTING_LIMIT as nat)),
                    None => None,
                }
            } else {
                None
            },
            _ => None,
        }
    }

    /// Whether the type is `Copy`, and what is known of searches for `Copy` then. `guard` counts
    /// the impls on the way here.
    pub open spec fn copy_at(self, cache: Cache, typ: Type, guard: u32, depth: nat) -> (bool, Cache)
        decreases depth, 0nat, 0int, typ,
    {
        if depth == 0 {
            (false, cache)
        } else {
            let typ = self.follow(typ);
            let copy = self.facts.prelude.copy_type;
            let automatic = self.facts.database.auto_drop;
            match typ {
                Type::Primitive(_) | Type::Function(_) => (true, cache),
                Type::Tuple(elements) => self.all_copy_at(
                    cache,
                    *elements,
                    guard,
                    (depth - 1) as nat,
                ),
                _ => if self.is_ability(typ) || self.is_shared(typ) {
                    (true, cache)
                } else if automatic && (typ matches Type::Variable(id) && (self.is_literal(id)
                    || self.constraint_in_scope(typ, copy))) {
                    (true, cache)
                } else if automatic && (typ matches Type::Variable(id) && self.is_signature(id)) {
                    (false, cache)
                } else if self.local_impl(ability_applied(copy, typ), copy) {
                    (true, cache)
                } else {
                    match self.current_item {
                        None => (false, cache),
                        Some(item) => match lookup(cache, (item.source_file, typ)) {
                            Some(hit) => (hit, cache),
                            None => {
                                let wanted = ability_applied(copy, typ);
                                let (found, cache) = self.copy_impl_from(
                                    cache,
                                    wanted,
                                    self.impl_candidates(item.source_file, wanted),
                                    0,
                                    guard,
                                    (depth - 1) as nat,
                                );
                                if self.is_concrete(typ) {
                                    (found, put(cache, (item.source_file, typ), found))
                                } else {
                                    (found, cache)
                                }
                            },
                        },
                    }
                },
            }
        }
    }

    /// Whether all types of the list are `Copy`. The search ends at the first that is not.
    pub open spec fn all_copy_at(
        self,
        cache: Cache,
        types: TypeList,
        guard: u32,
        depth: nat,
    ) -> (bool, Cache)
        decreases depth, 1nat, 0int, types,
    {
        match types {
            TypeList::Nil => (true, cache),
            TypeList::Cons(first, rest) => {
                let (copy, cache) = self.copy_at(cache, *first, guard, depth);
                if copy {
                    self.all_copy_at(cache, *rest, guard, depth)
                } else {
                    (false, cache)
                }
            },
        }
    }

    /// Whether one of `candidates` from `start` on is an impl of the type `wanted`: it is of that
    /// type, or a function that returns it. While values are dropped automatically, the `Copy`
    /// constraints of such a function have to hold too.
    pub open spec fn copy_impl_from(
        self,
        cache: Cache,
        wanted: Type,
        candidates: Seq<TopLevelName>,
        start: int,
        guard: u32,
        depth: nat,
    ) -> (bool, Cache)
        decreases depth, 3nat, candidates.len() - start, wanted,
    {
        if start < 0 || start >= candidates.len() {
            (false, cache)
        } else {
            let (matches, cache) = self.copy_candidate(
                cache,
                wanted,
                candidates[start],
                guard,
                depth,
            );
            if matches {
                (true, cache)
            } else {
                self.copy_impl_from(cache, wanted, candidates, start + 1, guard, depth)
            }
        }
    }

    pub open spec fn copy_candidate(
        self,
        cache: Cache,
        wanted: Type,
        candidate: TopLevelName,
        guard: u32,
        depth: nat,
    ) -> (bool, Cache)
        decreases depth, 3nat, 0int, wanted,
    {
        match lookup(self.facts.top_level_types@, candidate) {
            None => (false, cache),
            Some(typ) => if self.unifier(typ, wanted) is Some {
                (true, cache)
            } else {
                match typ {
                    Type::Function(function) => match self.unifier(function.return_type, wanted) {
                        None => (false, cache),
                        Some(more) => if !self.facts.database.auto_drop {
                            (true, cache)
                        } else if guard >= CONSTRAINT_LIMIT {
                            (false, cache)
                        } else {
                            self.copy_constraints_at(
                                cache,
                                function.parameters,
                                self.with_unifier(more),
                                (guard + 1) as u32,
                                depth,
                            )
                        },
                    },
                    _ => (false, cache),
                }
            },
        }
    }

    /// Whether the `Copy` constraints among implicit parameters hold. Other constraints are taken
    /// to hold.
    pub open spec fn copy_constraints_at(
        self,
        cache: Cache,
        parameters: Parameters,
        bindings: Map<TypeVariableId, Type>,
        guard: u32,
        depth: nat,
    ) -> (bool, Cache)
        decreases depth, 2nat, 0int, parameters,
    {
        match parameters {
            Parameters::Nil => (true, cache),
            Parameters::Cons(implicit, typ, rest) => {
                let argument = State::constraint_argument(
                    *typ,
                    self.facts.prelude.copy_type,
                    bindings,
                );
                if implicit && argument is Some {
                    let (copy, cache) = self.copy_at(cache, argument.unwrap(), guard, depth);
                    if copy {
                        self.copy_constraints_at(cache, *rest, bindings, guard, depth)
                    } else {
                        (false, cache)
                    }
                } else {
                    self.copy_constraints_at(cache, *rest, bindings, guard, depth)
                }
            },
        }
    }

    /// This state with nothing known of searches for `Copy`.
    pub open spec fn unasked(self) -> State {
        State { copy_search_cache: Seq::empty(), ..self }
    }

    /// Whether the type is `Copy`, and what is known of searches for `Copy` then.
    pub open spec fn copy_answer(self, typ: Type) -> (bool, Cache) {
        self.unasked().copy_at(self.copy_search_cache, typ, 0, NESTING_LIMIT as nat)
    }

    /// Whether the type is `Copy`.
    pub open spec fn is_copy(self, typ: Type) -> bool {
        self.copy_answer(typ).0
    }

    /// This state with what is known once it was asked whether the type is `Copy`.
    pub open spec fn copy_asked(self, typ: Type) -> State {
        State { copy_search_cache: self.copy_answer(typ).1, ..self }
    }
}

impl<'a> TypeChecker<'a> {
    /// The bindings that make `a` and `b` equal, if they unify.
    pub fn try_unify(&self, a: &Type, b: &Type) -> (bindings: Option<&Vec<(TypeVariableId, Type)>>)
        ensures
            match bindings {
                Some(bindings) => self@.unifier(*a, *b) == Some(bindings@),
                None => self@.unifier(*a, *b) is None,
            },
    {
        let key = (a.clone(), b.clone());
        self.facts.unifications.get(&key)
    }

    /// The current bindings, and `more`.
    pub fn merged_bindings(&self, more: &Vec<(TypeVariableId, Type)>) -> (merged: TypeBindings)
        ensures
            merged@ == self@.with_unifier(more@),
    {
        let mut merged: TypeBindings = self.bindings.clone();
        let mut i: usize = 0;
        while i < more.len()
            invariant
                i <= more.len(),
                merged@ == extended(self@.bindings, more@, i as int),
            decreases more.len() - i,
        {
            map_insert(&mut merged, more[i].0, more[i].1.clone());
            i += 1;
        }
        merged
    }

    fn is_ability_at(&self, typ: &Type, depth: u64) -> (ability: bool)
        ensures
            ability == self@.is_ability_at(*typ, depth as nat),
        decreases depth,
    {
        if depth == 0 {
            return false;
        }
        match self.follow_type(typ) {
            Type::Application(constructor, _) => self.is_ability_at(constructor, depth - 1),
            Type::UserDefined(Origin::TopLevelDefinition(name)) => {
                self.facts.database.ability_kind(name.top_level_item) != AbilityKind::NotAbility
            },
            _ => false,
        }
    }

    /// Whether the type is a trait or an effect, applied or not.
    pub fn is_ability(&self, typ: &Type) -> (ability: bool)
        ensures
            ability == self@.is_ability(*typ),
    {
        self.is_ability_at(typ, NESTING_LIMIT)
    }

    fn defining_item_at(&self, typ: &Type, depth: u64) -> (item: Option<TopLevelId>)
        ensures
            item == self@.defining_item_at(*typ, depth as nat),
        decreases depth,
    {
        if depth == 0 {
            return None;
        }
        match self.follow_type(typ) {
            Type::Application(constructor, _) => self.defining_item_at(constructor, depth - 1),
            Type::UserDefined(Origin::TopLevelDefinition(name)) => Some(name.top_level_item),
            _ => None,
        }
    }

    /// Whether the type is defined as shared, and whether as mutable.
    pub fn shared_type_flags(&self, typ: &Type) -> (flags: Option<(bool, bool)>)
        ensures
            flags == self@.shared_flags(*typ),
    {
        match self.defining_item_at(typ, NESTING_LIMIT) {
            Some(item) => match self.facts.database.get_type_definition(item) {
                Some(definition) => Some((definition.shared, definition.mutable)),
                None => None,
            },
            None => None,
        }
    }

    pub fn is_shared_user_defined(&self, typ: &Type) -> (shared: bool)
        ensures
            shared == self@.is_shared(*typ),
    {
        match self.shared_type_flags(typ) {
            Some((shared, _)) => shared,
            None => false,
        }
    }

    pub fn is_shared_mut_user_defined(&self, typ: &Type) -> (shared: bool)
        ensures
            shared == (self@.shared_flags(*typ) == Some((true, true))),
    {
        match self.shared_type_flags(typ) {
            Some((shared, mutable)) => shared && mutable,
            None => false,
        }
    }

    /// The item that defines the type, if it defines it as shared. Both a release and the call of
    /// one are named by it.
    pub fn shared_type_top_level_id(&self, typ: &Type) -> (item: Option<TopLevelId>)
        ensures
            item == self@.shared_item(*typ),
    {
        match self.defining_item_at(typ, NESTING_LIMIT) {
            Some(item) => {
                if self.facts.database.defines_shared_type(item) {
                    Some(item)
                } else {
                    None
                }
            },
            None => None,
        }
    }

    /// Whether the type is one of closures whose environment is a bare pointer, which is a
    /// counted cell: a copy of the closure retains it, and a death releases it.
    pub fn is_heap_env_closure(&self, typ: &Type) -> (heap: bool)
        ensures
            heap == self@.has_heap_env(*typ),
    {
        match self.follow_type(typ) {
            Type::Function(function) => match self.follow_type(&function.environment) {
                Type::Primitive(PrimitiveType::Pointer) => true,
                _ => false,
            },
            _ => false,
        }
    }

    /// Whether one of `variables` was bound to the variable `id`.
    fn some_follows_to(&self, variables: &FxHashSet<TypeVariableId>, id: TypeVariableId) -> (found:
        bool)
        ensures
            found == exists|variable: TypeVariableId|
                variables@.contains(variable) && #[trigger] self@.follow(Type::Variable(variable))
                    == Type::Variable(id),
    {
        let items = set_items(variables);
        let mut i: usize = 0;
        while i < items.len()
            invariant
                i <= items.len(),
                items@.to_set() == variables@,
                forall|j: int|
                    0 <= j < i ==> self@.follow(Type::Variable(#[trigger] items@[j]))
                        != Type::Variable(id),
            decreases items.len() - i,
        {
            assert(items@.to_set().contains(items@[i as int]));
            let variable = Type::Variable(items[i]);
            match self.follow_type(&variable) {
                Type::Variable(end) => {
                    if *end == id {
                        return true;
                    }
                },
                _ => {},
            }
            i += 1;
        }
        assert forall|variable: TypeVariableId| variables@.contains(
            variable,
        ) implies #[trigger] self@.follow(Type::Variable(variable)) != Type::Variable(id) by {
            assert(items@.to_set().contains(variable));
            let j = choose|j: int| 0 <= j < items@.len() && items@[j] == variable;
            assert(self@.follow(Type::Variable(items@[j])) != Type::Variable(id));
        }
        false
    }

    /// Whether the variable stands for a number in the end.
    pub fn is_literal_variable(&self, id: TypeVariableId) -> (literal: bool)
        ensures
            literal == self@.is_literal(id),
    {
        set_contains(&self.integer_literal_vars, id) || set_contains(&self.float_literal_vars, id)
            || self.some_follows_to(&self.integer_literal_vars, id) || self.some_follows_to(
            &self.float_literal_vars,
            id,
        )
    }

    /// Whether the variable is a generic of the signature of the current item.
    pub fn is_signature_variable(&self, id: TypeVariableId) -> (signature: bool)
        ensures
            signature == self@.is_signature(id),
    {
        set_contains(&self.signature_type_vars, id) || self.some_follows_to(
            &self.signature_type_vars,
            id,
        )
    }

    fn could_be_at(&self, typ: &Type, ability: TopLevelName, depth: u64) -> (could: bool)
        ensures
            could == self@.could_be_at(*typ, ability, depth as nat),
        decreases depth,
    {
        if depth == 0 {
            return false;
        }
        match self.follow_type(typ) {
            Type::Application(constructor, _) => match self.follow_type(constructor) {
                Type::UserDefined(Origin::TopLevelDefinition(name)) => *name == ability,
                Type::Variable(_) => true,
                Type::Generic(_) => true,
                _ => false,
            },
            Type::Variable(_) => true,
            Type::Generic(_) => true,
            Type::Forall(_, inner) => self.could_be_at(inner, ability, depth - 1),
            _ => false,
        }
    }

    /// Whether an implicit of this type could be `ability _`: only an application headed by the
    /// ability can, or what unification may still bind. The head is all that is looked at.
    pub fn implicit_could_be_ability(&self, typ: &Type, ability: TopLevelName) -> (could: bool)
        ensures
            could == self@.could_be(*typ, ability),
    {
        self.could_be_at(typ, ability, NESTING_LIMIT)
    }

    /// Whether an implicit `ability target` is in scope, for exactly this generic. Unification
    /// would be too loose: it would bind the generic instead of matching it.
    pub fn constraint_in_scope_for_generic(&self, target: &Type, ability: TopLevelName) -> (found:
        bool)
        ensures
            found == self@.constraint_in_scope(*target, ability),
    {
        let mut i: usize = 0;
        while i < self.implicits_in_scope.len()
            invariant
                i <= self.implicits_in_scope.len(),
                forall|j: int|
                    0 <= j < i ==> !self@.is_constraint(
                        #[trigger] self@.implicits_in_scope[j],
                        *target,
                        ability,
                    ),
            decreases self.implicits_in_scope.len() - i,
        {
            if self.is_constraint(self.implicits_in_scope[i], target, ability) {
                assert(self@.is_constraint(self@.implicits_in_scope[i as int], *target, ability));
                return true;
            }
            i += 1;
        }
        false
    }

    fn is_constraint(&self, name: NameId, target: &Type, ability: TopLevelName) -> (found: bool)
        ensures
            found == self@.is_constraint(name, *target, ability),
    {
        let name_type = match map_get(&self.name_types, name) {
            Some(name_type) => name_type,
            None => {
                return false;
            },
        };
        if !self.implicit_could_be_ability(name_type, ability) {
            return false;
        }
        match name_type.substitute(&self.bindings, NESTING_LIMIT) {
            Type::Application(constructor, args) => {
                let matches_ability = match self.follow_type(&constructor) {
                    Type::UserDefined(Origin::TopLevelDefinition(name)) => *name == ability,
                    _ => false,
                };
                if !matches_ability {
                    return false;
                }
                match args.first() {
                    Some(arg) => *self.follow_type(arg) == *self.follow_type(target),
                    None => false,
                }
            },
            _ => false,
        }
    }

    pub fn constraint_in_scope_for_variable(
        &self,
        variable: TypeVariableId,
        ability: TopLevelName,
    ) -> (found: bool)
        ensures
            found == self@.constraint_in_scope(Type::Variable(variable), ability),
    {
        self.constraint_in_scope_for_generic(&Type::Variable(variable), ability)
    }

    /// Whether an implicit of the type `wanted`, which is one of `ability`, is in scope.
    pub fn has_local_impl(&self, wanted: &Type, ability: TopLevelName) -> (found: bool)
        ensures
            found == self@.local_impl(*wanted, ability),
    {
        let mut i: usize = 0;
        while i < self.implicits_in_scope.len()
            invariant
                i <= self.implicits_in_scope.len(),
                forall|j: int|
                    0 <= j < i ==> !self@.local_matches(
                        #[trigger] self@.implicits_in_scope[j],
                        *wanted,
                        ability,
                    ),
            decreases self.implicits_in_scope.len() - i,
        {
            match map_get(&self.name_types, self.implicits_in_scope[i]) {
                Some(name_type) => {
                    // Most implicits in scope are of other abilities.
                    if self.implicit_could_be_ability(name_type, ability) {
                        let name_type = name_type.substitute(&self.bindings, NESTING_LIMIT);
                        if self.try_unify(&name_type, wanted).is_some() {
                            assert(self@.local_matches(
                                self@.implicits_in_scope[i as int],
                                *wanted,
                                ability,
                            ));
                            return true;
                        }
                    }
                },
                None => {},
            }
            i += 1;
        }
        false
    }

    /// The definitions visible in `file` that may be implicits of the type `wanted`.
    pub fn find_impl_candidates(&self, file: u32, wanted: &Type) -> (ids: Vec<TopLevelName>)
        ensures
            ids@ == self@.impl_candidates(file, *wanted),
    {
        let implicits = visible_implicits_impl(&VisibleImplicits(file), &self.facts.database);
        implicits.possibly_matching_ids(wanted)
    }

    pub fn type_is_concrete(&self, typ: &Type) -> (concrete: bool)
        ensures
            concrete == self@.is_concrete(*typ),
    {
        typ.free_variables(&self.bindings, NESTING_LIMIT).len() == 0
    }
}

/// `ability typ`.
pub fn apply_ability(ability: TopLevelName, typ: &Type) -> (applied: Type)
    ensures
        applied == ability_applied(ability, *typ),
{
    Type::Application(
        Box::new(Type::UserDefined(Origin::TopLevelDefinition(ability))),
        Box::new(TypeList::Cons(Box::new(typ.clone()), Box::new(TypeList::Nil))),
    )
}

/// What a constraint `ability arg` asks of `arg`, if the type is such a constraint.
pub fn constraint_argument(typ: &Type, ability: TopLevelName, bindings: &TypeBindings) -> (argument:
    Option<Type>)
    ensures
        argument == State::constraint_argument(*typ, ability, bindings@),
{
    match typ.substitute(bindings, NESTING_LIMIT) {
        Type::Application(constructor, args) => {
            let is_constraint = match constructor.follow(bindings) {
                Type::UserDefined(Origin::TopLevelDefinition(name)) => *name == ability,
                _ => false,
            };
            if !is_constraint {
                return None;
            }
            match args.first() {
                Some(arg) => Some(arg.substitute(bindings, NESTING_LIMIT)),
                None => None,
            }
        },
        _ => None,
    }
}

impl<'a> TypeChecker<'a> {
    fn copy_at(
        &self,
        cache: &mut Table<(u32, Type), bool>,
        typ: &Type,
        guard: u32,
        depth: u64,
    ) -> (copy: bool)
        ensures
            (copy, final(cache)@) == self@.copy_at(old(cache)@, *typ, guard, depth as nat),
        decreases depth, 0nat, 0int, typ,
    {
        if depth == 0 {
            return false;
        }
        let typ = self.follow_type(typ);
        let copy_name = self.facts.prelude.copy_type;
        match typ {
            Type::Primitive(_) => {
                return true;
            },
            Type::Function(_) => {
                return true;
            },
            Type::Tuple(elements) => {
                return self.all_copy_at(cache, elements, guard, depth - 1);
            },
            _ => {},
        }
        // What an ability captures is `Copy`, and so is a handle to a shared cell.
        if self.is_ability(typ) || self.is_shared_user_defined(typ) {
            return true;
        }
        // A variable would unify with the target of any impl. It is `Copy` if it stands for a
        // number, or if a constraint says so of exactly this variable. One that is still being
        // inferred is searched for below: taking it for affine would reject uses of values that
        // turn out to be `Copy`.
        if self.facts.database.auto_drop {
            match typ {
                Type::Variable(id) => {
                    if self.is_literal_variable(*id) || self.constraint_in_scope_for_variable(
                        *id,
                        copy_name,
                    ) {
                        return true;
                    }
                    if self.is_signature_variable(*id) {
                        return false;
                    }
                },
                _ => {},
            }
        }
        let wanted = apply_ability(copy_name, typ);
        if self.has_local_impl(&wanted, copy_name) {
            return true;
        }
        let item = match self.current_item {
            Some(item) => item,
            None => {
                return false;
            },
        };
        let key = (item.source_file, typ.clone());
        match cache.get(&key) {
            Some(hit) => {
                return *hit;
            },
            None => {},
        }
        let candidates = self.find_impl_candidates(item.source_file, &wanted);
        let ghost before = cache@;
        let mut found = false;
        let mut i: usize = 0;
        while i < candidates.len() && !found
            invariant
                i <= candidates.len(),
                depth > 0,
                !found ==> self@.copy_impl_from(
                    before,
                    wanted,
                    candidates@,
                    0,
                    guard,
                    (depth - 1) as nat,
                ) == self@.copy_impl_from(
                    cache@,
                    wanted,
                    candidates@,
                    i as int,
                    guard,
                    (depth - 1) as nat,
                ),
                found ==> self@.copy_impl_from(
                    before,
                    wanted,
                    candidates@,
                    0,
                    guard,
                    (depth - 1) as nat,
                ) == (true, cache@),
            decreases candidates.len() - i,
        {
            found = self.copy_candidate(cache, &wanted, candidates[i], guard, depth - 1);
            i += 1;
        }
        // What a search finds for a concrete type does not change later.
        if self.type_is_concrete(typ) {
            cache.put(key, found);
        }
        found
    }

    fn all_copy_at(
        &self,
        cache: &mut Table<(u32, Type), bool>,
        types: &TypeList,
        guard: u32,
        depth: u64,
    ) -> (copy: bool)
        ensures
            (copy, final(cache)@) == self@.all_copy_at(old(cache)@, *types, guard, depth as nat),
        decreases depth, 1nat, 0int, types,
    {
        match types {
            TypeList::Nil => true,
            TypeList::Cons(first, rest) => {
                if self.copy_at(cache, first, guard, depth) {
                    self.all_copy_at(cache, rest, guard, depth)
                } else {
                    false
                }
            },
        }
    }

    /// Whether `candidate` is an impl of the type `wanted`.
    fn copy_candidate(
        &self,
        cache: &mut Table<(u32, Type), bool>,
        wanted: &Type,
        candidate: TopLevelName,
        guard: u32,
        depth: u64,
    ) -> (found: bool)
        ensures
            (found, final(cache)@) == self@.copy_candidate(
                old(cache)@,
                *wanted,
                candidate,
                guard,
                depth as nat,
            ),
        decreases depth, 3nat, 0int, wanted,
    {
        let typ = match self.facts.top_level_types.get(&candidate) {
            Some(typ) => typ,
            None => {
                return false;
            },
        };
        if self.try_unify(typ, wanted).is_some() {
            return true;
        }
        match typ {
            Type::Function(function) => match self.try_unify(&function.return_type, wanted) {
                Some(more) => {
                    if !self.facts.database.auto_drop {
                        return true;
                    }
                    self.copy_impl_constraints_hold(cache, function, more, guard, depth)
                },
                None => false,
            },
            _ => false,
        }
    }

    /// Whether the `Copy` constraints of a candidate impl hold under the bindings its return type
    /// was matched with. Where too many impls led here the answer is no: the value is then tracked
    /// and dropped, not duplicated.
    fn copy_impl_constraints_hold(
        &self,
        cache: &mut Table<(u32, Type), bool>,
        function: &FunctionType,
        more: &Vec<(TypeVariableId, Type)>,
        guard: u32,
        depth: u64,
    ) -> (hold: bool)
        ensures
            (hold, final(cache)@) == (if guard >= CONSTRAINT_LIMIT {
                (false, old(cache)@)
            } else {
                self@.copy_constraints_at(
                    old(cache)@,
                    function.parameters,
                    self@.with_unifier(more@),
                    (guard + 1) as u32,
                    depth as nat,
                )
            }),
        decreases depth, 2nat, 1int, function.parameters,
    {
        if guard >= CONSTRAINT_LIMIT {
            return false;
        }
        let merged = self.merged_bindings(more);
        self.copy_constraints_at(cache, &function.parameters, &merged, guard + 1, depth)
    }

    fn copy_constraints_at(
        &self,
        cache: &mut Table<(u32, Type), bool>,
        parameters: &Parameters,
        bindings: &TypeBindings,
        guard: u32,
        depth: u64,
    ) -> (hold: bool)
        ensures
            (hold, final(cache)@) == self@.copy_constraints_at(
                old(cache)@,
                *parameters,
                bindings@,
                guard,
                depth as nat,
            ),
        decreases depth, 2nat, 0int, parameters,
    {
        match parameters {
            Parameters::Nil => true,
            Parameters::Cons(implicit, typ, rest) => {
                if *implicit {
                    match constraint_argument(typ, self.facts.prelude.copy_type, bindings) {
                        Some(argument) => {
                            if !self.copy_at(cache, &argument, guard, depth) {
                                return false;
                            }
                        },
                        None => {},
                    }
                }
                self.copy_constraints_at(cache, rest, bindings, guard, depth)
            },
        }
    }

    /// Whether values of the type can be used any number of times.
    pub fn type_is_copy(&mut self, typ: &Type) -> (copy: bool)
        ensures
            copy == old(self)@.is_copy(*typ),
            final(self)@ == old(self)@.copy_asked(*typ),
    {
        let mut cache: Table<(u32, Type), bool> = Table::new();
        std::mem::swap(&mut cache, &mut self.copy_search_cache);
        assert(self@ =~= old(self)@.unasked());
        let copy = self.copy_at(&mut cache, typ, 0, NESTING_LIMIT);
        self.copy_search_cache = cache;
        assert(self@ =~= old(self)@.copy_asked(*typ));
        copy
    }

    /// The place a binding denotes: a recorded part of another place, or its own variable.
    pub fn binding_place(&self, name: NameId) -> (path: MovePath)
        ensures
            path@ == self@.place_of_binding(name),
    {
        match map_get(&self.binding_places, name) {
            Some(path) => path.clone(),
            None => MovePath::Variable(name),
        }
    }

    fn try_build_move_path_at(&self, expr: ExprId, depth: u64) -> (path: Option<MovePath>)
        ensures
            match path {
                Some(path) => self@.place_of_expr_at(expr, depth as nat) == Some(path@),
                None => self@.place_of_expr_at(expr, depth as nat) is None,
            },
        decreases depth,
    {
        if depth == 0 {
            return None;
        }
        match self.context.expr(expr) {
            Expr::Variable(path) => match self.context.local(*path) {
                Some(name) => Some(self.binding_place(name)),
                None => None,
            },
            Expr::MemberAccess { object, member } => {
                match self.try_build_move_path_at(*object, depth - 1) {
                    Some(parent) => Some(MovePath::field(parent, member.clone())),
                    None => None,
                }
            },
            _ => None,
        }
    }

    /// The place an expression denotes, if it is a variable or a chain of member accesses to one.
    pub fn try_build_move_path(&self, expr: ExprId) -> (path: Option<MovePath>)
        ensures
            match path {
                Some(path) => self@.place_of_expr(expr) == Some(path@),
                None => self@.place_of_expr(expr) is None,
            },
    {
        self.try_build_move_path_at(expr, NESTING_LIMIT)
    }
}

impl State {
    /// The place a binding denotes.
    pub open spec fn place_of_binding(self, name: NameId) -> Place {
        if self.binding_places.contains_key(name) {
            self.binding_places[name]
        } else {
            (name, Seq::empty())
        }
    }

    /// The place an expression denotes, if it is a variable or a chain of member accesses to one.
    pub open spec fn place_of_expr_at(self, expr: ExprId, depth: nat) -> Option<Place>
        decreases depth,
    {
        if depth == 0 {
            None
        } else {
            match self.context.expr(expr) {
                ExprForm::Variable(path) => match self.context.local(path) {
                    Some(name) => Some(self.place_of_binding(name)),
                    None => None,
                },
                ExprForm::MemberAccess { object, member } => match self.place_of_expr_at(
                    object,
                    (depth - 1) as nat,
                ) {
                    Some(parent) => Some(field_of(parent, member)),
                    None => None,
                },
                _ => None,
            }
        }
    }

    pub open spec fn place_of_expr(self, expr: ExprId) -> Option<Place> {
        self.place_of_expr_at(expr, NESTING_LIMIT as nat)
    }

    /// This state with the use of `place` reported, which was moved at `moved_in`.
    pub open spec fn with_moved_use(
        self,
        place: Place,
        location: Location,
        moved_in: Location,
    ) -> State {
        let reported = self.with_report(
            Report::UseOfMovedValue {
                name: MovePath::displayed(self.context, place),
                location,
                moved_in,
            },
        );
        State {
            moves: Moves { errored: reported.moves.errored.insert(place), ..reported.moves },
            ..reported
        }
    }

    /// This state once the type of the variable of `place` was asked for.
    pub open spec fn use_asked(self, place: Place) -> State {
        if self.facts.database.auto_drop && self.name_types.contains_key(place.0) {
            self.copy_asked(self.name_types[place.0])
        } else {
            self
        }
    }

    /// Every use of `place` is fine: what was reported of it is not reported again, and values of
    /// a `Copy` type are moved for the sake of drops alone.
    pub open spec fn use_is_fine(self, place: Place) -> bool {
        self.moves.errored.contains(place) || (self.facts.database.auto_drop
            && self.name_types.contains_key(place.0) && self.is_copy(self.name_types[place.0]))
    }

    /// `after` is this state once the use of `place` at `location` was checked. Where only parts
    /// of the place were moved, the report is about any one of them.
    pub open spec fn use_checked(self, place: Place, location: Location, after: State) -> bool {
        if self.moves.errored.contains(place) {
            after == self
        } else {
            let asked = self.use_asked(place);
            if self.use_is_fine(place) {
                after == asked
            } else {
                match self.moves.moved_at(place) {
                    Some(moved_in) => after == asked.with_moved_use(place, location, moved_in),
                    None => if self.moves.moved_below(place) {
                        exists|part: Place|
                            is_under(part, place) && #[trigger] self.moves.moved.contains_key(part)
                                && after == asked.with_moved_use(
                                place,
                                location,
                                self.moves.moved[part],
                            )
                    } else {
                        after == asked
                    },
                }
            }
        }
    }
}

impl<'a> TypeChecker<'a> {
    /// Check that `path` can be used at `location`: that neither it nor anything above or under it
    /// was moved. Each path is reported once.
    pub fn check_use_of_move_path(&mut self, path: &MovePath, location: Location)
        ensures
            old(self)@.use_checked(path@, location, final(self)@),
    {
        if place_set_contains(&self.move_tracker.errored, &path.to_key()) {
            return ;
        }
        if self.facts.database.auto_drop {
            let root_type = match map_get(&self.name_types, path.root_variable()) {
                Some(typ) => Some(typ.clone()),
                None => None,
            };
            match root_type {
                Some(typ) => {
                    if self.type_is_copy(&typ) {
                        return ;
                    }
                },
                None => {},
            }
        }
        let ghost asked = self@;
        assert(asked == old(self)@.use_asked(path@));
        match self.move_tracker.is_moved(path) {
            Some(moved_in) => {
                self.report_moved_use(path, location, moved_in);
            },
            None => match self.move_tracker.has_child_moved(path) {
                Some((child, moved_in)) => {
                    assert(asked.moves.moved.contains_key(child@));
                    self.report_moved_use(path, location, moved_in);
                },
                None => {},
            },
        }
    }

    fn report_moved_use(&mut self, path: &MovePath, location: Location, moved_in: Location)
        ensures
            final(self)@ == old(self)@.with_moved_use(path@, location, moved_in),
    {
        let name = path.display_name(&self.context);
        self.report(Diagnostic::UseOfMovedValue { name, location, moved_in });
        place_set_insert(&mut self.move_tracker.errored, path.to_key());
    }
}

/// `order` lists the moves of places in `outer`, each once.
pub open spec fn lists_outer_moves(
    order: Seq<(Place, Location)>,
    moves: Moves,
    outer: Set<NameId>,
) -> bool {
    &&& forall|i: int, j: int| 0 <= i < j < order.len() ==> (#[trigger] order[i]).0 != (
        #[trigger] order[j]).0
    &&& forall|i: int|
        0 <= i < order.len() ==> outer.contains((#[trigger] order[i]).0.0)
            && moves.moved.contains_key(order[i].0) && moves.moved[order[i].0] == order[i].1
    &&& forall|place: Place| #[trigger]
        moves.moved.contains_key(place) && outer.contains(place.0) ==> exists|i: int|
            0 <= i < order.len() && (#[trigger] order[i]).0 == place
}

impl State {
    /// This state once the first `count` of `order` were checked: a move of what is not `Copy` is
    /// reported.
    pub open spec fn repeated_moves(
        self,
        order: Seq<(Place, Location)>,
        context: RepeatedContext,
        count: int,
    ) -> State
        decreases count,
    {
        if count <= 0 {
            self
        } else {
            let before = self.repeated_moves(order, context, count - 1);
            let (place, location) = order[count - 1];
            let typ = before.type_of_name(place.0);
            let asked = before.copy_asked(typ);
            if before.is_copy(typ) {
                asked
            } else {
                asked.with_report(
                    Report::MoveInRepeatedContext {
                        name: MovePath::displayed(asked.context, place),
                        context,
                        location,
                    },
                )
            }
        }
    }
}

impl<'a> TypeChecker<'a> {
    /// Report the moves of variables in `outer_names` out of what may run more than once. The
    /// tracker holds the moves of that alone. They are reported in any order.
    pub fn check_moves_in_repeated_context(
        &mut self,
        outer_names: &FxHashSet<NameId>,
        context: RepeatedContext,
    )
        ensures
            exists|order: Seq<(Place, Location)>| #[trigger]
                lists_outer_moves(order, old(self)@.moves, outer_names@) && final(self)@ == old(
                    self,
                )@.repeated_moves(order, context, order.len() as int),
    {
        let outer_moves = self.find_outer_moves(outer_names);
        let ghost order = outer_moves@.map_values(|m: (MovePath, Location)| (m.0@, m.1));
        let mut i: usize = 0;
        while i < outer_moves.len()
            invariant
                i <= outer_moves.len(),
                order == outer_moves@.map_values(|m: (MovePath, Location)| (m.0@, m.1)),
                self@ == old(self)@.repeated_moves(order, context, i as int),
            decreases outer_moves.len() - i,
        {
            let path = &outer_moves[i].0;
            let typ = self.type_of_name(path.root_variable());
            if !self.type_is_copy(&typ) {
                let name = path.display_name(&self.context);
                self.report(
                    Diagnostic::MoveInRepeatedContext {
                        name,
                        context,
                        location: outer_moves[i].1,
                    },
                );
            }
            i += 1;
        }
    }

    fn find_outer_moves(&self, outer_names: &FxHashSet<NameId>) -> (outer_moves: Vec<
        (MovePath, Location),
    >)
        ensures
            lists_outer_moves(
                outer_moves@.map_values(|m: (MovePath, Location)| (m.0@, m.1)),
                self@.moves,
                outer_names@,
            ),
    {
        let entries = place_entries(&self.move_tracker.moved);
        let ghost moved = self@.moves.moved;
        let mut outer_moves: Vec<(MovePath, Location)> = Vec::new();
        let ghost mut sources: Seq<int> = Seq::empty();
        let mut i: usize = 0;
        while i < entries.len()
            invariant
                i <= entries.len(),
                forall|a: int, b: int|
                    0 <= a < b < entries@.len() ==> (#[trigger] entries@[a]).0.deep_view() != (
                    #[trigger] entries@[b]).0.deep_view(),
                sources.len() == outer_moves@.len(),
                forall|j: int|
                    0 <= j < sources.len() ==> 0 <= (#[trigger] sources[j]) < i
                        && entries@[sources[j]].0.deep_view() == outer_moves@[j].0@
                        && entries@[sources[j]].1 == outer_moves@[j].1 && outer_names@.contains(
                        outer_moves@[j].0@.0,
                    ),
                forall|a: int, b: int|
                    0 <= a < b < sources.len() ==> (#[trigger] sources[a]) < (#[trigger] sources[b]),
                forall|k: int|
                    0 <= k < i && outer_names@.contains((#[trigger] entries@[k]).0.0)
                        ==> sources.contains(k),
            decreases entries.len() - i,
        {
            broadcast use vstd::seq_lib::group_seq_properties;

            if set_contains(outer_names, entries[i].0.0) {
                let path = MovePath::from_key(&entries[i].0);
                outer_moves.push((path, entries[i].1));
                proof {
                    sources = sources.push(i as int);
                }
            }
            i += 1;
        }
        proof {
            let order = outer_moves@.map_values(|m: (MovePath, Location)| (m.0@, m.1));
            assert forall|a: int, b: int| 0 <= a < b < order.len() implies (#[trigger] order[a]).0
                != (#[trigger] order[b]).0 by {
                assert(sources[a] < sources[b]);
                assert(entries@[sources[a]].0.deep_view() != entries@[sources[b]].0.deep_view());
            }
            assert forall|a: int| 0 <= a < order.len() implies outer_names@.contains(
                (#[trigger] order[a]).0.0,
            ) && moved.contains_key(order[a].0) && moved[order[a].0] == order[a].1 by {
                assert(0 <= sources[a] < entries@.len());
                assert(entries@[sources[a]].0.deep_view() == order[a].0);
            }
            assert forall|place: Place| #[trigger]
                moved.contains_key(place) && outer_names@.contains(place.0) implies exists|a: int|
                0 <= a < order.len() && (#[trigger] order[a]).0 == place by {
                let k = choose|k: int|
                    0 <= k < entries@.len() && (#[trigger] entries@[k]).0.deep_view() == place;
                assert(entries@[k].0.deep_view() == place);
                assert(sources.contains(k));
                let a = choose|a: int| 0 <= a < sources.len() && sources[a] == k;
                assert(order[a].0 == place);
            }
        }
        outer_moves
    }
}

} // verus!

//! The expressions drops are made of.

use crate::collections::{map_get, place_set_contains, place_set_insert};
#[allow(unused_imports)]
use crate::collections::lookup;
use crate::cst::{Argument, Expr, Literal, Pattern};
#[allow(unused_imports)]
use crate::cst::{ExprForm, PatternForm};
use crate::database::{TypeBody, TypeDefinitionBody};
use crate::ids::{
    ExprId, Location, NameId, Origin, PatternId, TopLevelId, TopLevelName, RELEASE_FUNCTION,
};
use crate::type_inference::checker::{Diagnostic, TypeChecker};
#[allow(unused_imports)]
use crate::type_inference::checker::{Report, State};
use crate::type_inference::moves::MovePath;
#[allow(unused_imports)]
use crate::type_inference::moves::{field_of, Place};
use crate::types::{PrimitiveType, ReferenceKind, Type, TypeList};
use vstd::prelude::*;

verus! {

/// The name of the release function of a shared type.
pub open spec fn release_of(item: TopLevelId) -> TopLevelName {
    TopLevelName { top_level_item: item, local_name_id: RELEASE_FUNCTION }
}

impl State {
    /// The expression of a place, and the state it is made in.
    pub open spec fn place_expr(self, place: Place, typ: Type, location: Location) -> (ExprId, State)
        decreases place.1.len(),
    {
        if place.1.len() == 0 {
            let path = self.next_path();
            let named = self.with_path(
                self.context.name(place.0),
                typ,
                Origin::Local(place.0),
                location,
            );
            (named.next_expr(), named.with_expr(ExprForm::Variable(path), typ, location))
        } else {
            let known = place.1.len() == 1 && self.name_types.contains_key(place.0);
            let parent_type = if known {
                self.name_types[place.0]
            } else {
                self.fresh_type()
            };
            let typed = if known {
                self
            } else {
                self.with_fresh_type()
            };
            let (object, made) = typed.place_expr(
                (place.0, place.1.drop_last()),
                parent_type,
                location,
            );
            (
                made.next_expr(),
                made.with_expr(
                    ExprForm::MemberAccess { object, member: place.1.last() },
                    typ,
                    location,
                ),
            )
        }
    }

    /// A call of `callee` with one argument, handed to inference.
    pub open spec fn call_to(
        self,
        text: Seq<char>,
        callee: TopLevelName,
        argument: ExprId,
        location: Location,
    ) -> (ExprId, State) {
        let callee_type = self.fresh_type();
        let typed = self.with_fresh_type();
        let path = typed.next_path();
        let named = typed.with_path(
            text,
            callee_type,
            Origin::TopLevelDefinition(callee),
            location,
        );
        let function = named.next_expr();
        let with_callee = named.with_expr(ExprForm::Variable(path), callee_type, location);
        let call = with_callee.next_expr();
        let arguments = seq![Argument { expr: argument, is_implicit: false }];
        (
            call,
            with_callee.with_expr(
                ExprForm::Call { function, arguments },
                Type::unit(),
                location,
            ).with_quiet_check(call, Type::unit()),
        )
    }

    /// `drop (mut place)`.
    pub open spec fn drop_call(self, place: Place, typ: Type, location: Location) -> (ExprId, State) {
        let (rhs, placed) = self.place_expr(place, typ, location);
        let reference_type = placed.fresh_type();
        let typed = placed.with_fresh_type();
        let reference = typed.next_expr();
        typed.with_expr(
            ExprForm::Reference { kind: ReferenceKind::Mut, rhs },
            reference_type,
            location,
        ).call_to("drop"@, self.facts.prelude.drop_method, reference, location)
    }

    /// `release place`, where `item` defines the type of the place. The handle is passed by value.
    pub open spec fn release_call(
        self,
        item: TopLevelId,
        place: Place,
        typ: Type,
        location: Location,
    ) -> (ExprId, State) {
        let (argument, placed) = self.place_expr(place, typ, location);
        placed.call_to("release"@, release_of(item), argument, location)
    }

    /// The place of a closure, whose environment is released there.
    pub open spec fn closure_env_release(
        self,
        place: Place,
        typ: Type,
        location: Location,
    ) -> (ExprId, State) {
        let (expr, placed) = self.place_expr(place, typ, location);
        let checked = placed.with_quiet_check(expr, typ);
        (expr, State { context: checked.context.with_closure_env_release(expr), ..checked })
    }

    /// The sequence of the drops, if there are any.
    pub open spec fn sequenced(self, drops: Seq<ExprId>, location: Location) -> (
        Option<ExprId>,
        State,
    ) {
        if drops.len() == 0 {
            (None, self)
        } else {
            (
                Some(self.next_expr()),
                self.with_expr(ExprForm::Sequence(drops), Type::unit(), location),
            )
        }
    }

    /// A match on a place, handed to inference.
    pub open spec fn match_on(
        self,
        place: Place,
        typ: Type,
        cases: Seq<(PatternId, ExprId)>,
        location: Location,
    ) -> (ExprId, State) {
        let (expression, placed) = self.place_expr(place, typ, location);
        let id = placed.next_expr();
        (
            id,
            placed.with_expr(
                ExprForm::Match { expression, cases },
                Type::unit(),
                location,
            ).with_quiet_check(id, Type::unit()),
        )
    }

    /// The case that runs `drops` for a variant.
    pub open spec fn variant_case(
        self,
        text: Seq<char>,
        constructor: TopLevelName,
        arguments: Seq<PatternId>,
        drops: Seq<ExprId>,
        location: Location,
    ) -> ((PatternId, ExprId), State) {
        let constructor_type = self.fresh_type();
        let typed = self.with_fresh_type();
        let path = typed.next_path();
        let named = typed.with_path(
            text,
            constructor_type,
            Origin::TopLevelDefinition(constructor),
            location,
        );
        let pattern = named.next_pattern();
        let with_pattern = named.with_pattern(PatternForm::Constructor(path, arguments), location);
        let body = with_pattern.next_expr();
        let form = if drops.len() == 0 {
            ExprForm::Literal(Literal::Unit)
        } else {
            ExprForm::Sequence(drops)
        };
        ((pattern, body), with_pattern.with_expr(form, Type::unit(), location))
    }

    /// A value of a generic type dies here with no way to drop it. That is reported once for each
    /// place, where the value is bound.
    pub open spec fn missing_drop_reported(
        self,
        place: Place,
        typ: Type,
        fallback: Location,
    ) -> State {
        if self.suppress_missing_drop_diagnostic || self.diagnosed_missing_drops.contains(place) {
            self
        } else {
            let location = match self.context.name_location(place.0) {
                Some(location) => location,
                None => fallback,
            };
            State {
                diagnosed_missing_drops: self.diagnosed_missing_drops.insert(place),
                ..self
            }.with_report(Report::MissingDropConstraint { typ, location })
        }
    }

    /// A closure owns what a slot of this type holds.
    pub open spec fn owns_slot(self, slot: Type) -> bool {
        lookup(self.facts.owned_slots@, slot) == Some(true)
    }

    /// The enum the type is: the item that defines it, the names of its variants, and how each
    /// variant is written with the types of its payloads.
    pub open spec fn sum_of(self, typ: Type) -> Option<
        (TopLevelId, Seq<NameId>, Seq<(String, Vec<Type>)>),
    > {
        match typ {
            Type::UserDefined(Origin::TopLevelDefinition(name)) => self.sum_at(
                name.top_level_item,
                TypeList::Nil,
            ),
            Type::Application(constructor, args) => match self.follow(*constructor) {
                Type::UserDefined(Origin::TopLevelDefinition(name)) => self.sum_at(
                    name.top_level_item,
                    *args,
                ),
                _ => None,
            },
            _ => None,
        }
    }

    pub open spec fn sum_at(self, item: TopLevelId, args: TypeList) -> Option<
        (TopLevelId, Seq<NameId>, Seq<(String, Vec<Type>)>),
    > {
        match self.facts.database.type_definition(item) {
            Some(definition) => match (
                definition.body,
                lookup(self.facts.database.type_bodies@, (item, args)),
            ) {
                (TypeDefinitionBody::Enum(names), Some(TypeBody::Sum(variants))) => if names@.len()
                    == variants@.len() {
                    Some((item, names@, variants@))
                } else {
                    None
                },
                _ => None,
            },
            None => None,
        }
    }
}

impl<'a> TypeChecker<'a> {
    /// Make the expression of a place: a variable, or a chain of member accesses.
    pub fn synthesize_place_expr(&mut self, place: &MovePath, typ: &Type, location: Location) -> (id:
        ExprId)
        ensures
            (id, final(self)@) == old(self)@.place_expr(place@, *typ, location),
        decreases place,
    {
        match place {
            MovePath::Variable(name) => {
                let text = self.context.name(*name);
                let path = self.push_path(text, typ.clone(), Origin::Local(*name), location);
                self.push_expr(Expr::Variable(path), typ.clone(), location)
            },
            MovePath::Field(parent, field) => {
                let ghost above = parent@;
                assert(place@ == field_of(above, field@));
                assert(place@.1.drop_last() =~= above.1);
                let known = match &**parent {
                    MovePath::Variable(name) => match map_get(&self.name_types, *name) {
                        Some(parent_type) => Some(parent_type.clone()),
                        None => None,
                    },
                    MovePath::Field(..) => None,
                };
                let parent_type = match known {
                    Some(parent_type) => parent_type,
                    None => self.next_type_variable(),
                };
                let object = self.synthesize_place_expr(parent, &parent_type, location);
                self.push_expr(
                    Expr::MemberAccess { object, member: field.clone() },
                    typ.clone(),
                    location,
                )
            },
        }
    }

    fn synthesize_call(
        &mut self,
        text: &str,
        callee: TopLevelName,
        argument: ExprId,
        location: Location,
    ) -> (id: ExprId)
        ensures
            (id, final(self)@) == old(self)@.call_to(text@, callee, argument, location),
    {
        let callee_type = self.next_type_variable();
        let path = self.push_path(
            text.to_owned(),
            callee_type.clone(),
            Origin::TopLevelDefinition(callee),
            location,
        );
        let function = self.push_expr(Expr::Variable(path), callee_type, location);
        let mut arguments: Vec<Argument> = Vec::new();
        arguments.push(Argument { expr: argument, is_implicit: false });
        assert(arguments@ =~= seq![Argument { expr: argument, is_implicit: false }]);
        let unit = Type::Primitive(PrimitiveType::Unit);
        let call = self.push_expr(Expr::Call { function, arguments }, unit.clone(), location);
        self.check_quietly(call, &unit);
        call
    }

    /// Make `drop (mut place)`, and have inference check it. That finds the `Drop` impl.
    pub fn synthesize_drop_call(&mut self, place: &MovePath, typ: &Type, location: Location) -> (id:
        ExprId)
        ensures
            (id, final(self)@) == old(self)@.drop_call(place@, *typ, location),
    {
        let drop_method = self.get_drop_method_name();
        let rhs = self.synthesize_place_expr(place, typ, location);
        let reference_type = self.next_type_variable();
        let reference = self.push_expr(
            Expr::Reference { kind: ReferenceKind::Mut, rhs },
            reference_type,
            location,
        );
        self.synthesize_call("drop", drop_method, reference, location)
    }

    /// The name of the `drop` method of the prelude.
    pub fn get_drop_method_name(&self) -> (name: TopLevelName)
        ensures
            name == self@.facts.prelude.drop_method,
    {
        self.facts.prelude.drop_method
    }

    /// The name of the release function of the shared type that `item` defines. Both its calls and
    /// its definition go by it.
    pub fn get_release_function_name(item: TopLevelId) -> (name: TopLevelName)
        ensures
            name == release_of(item),
    {
        TopLevelName::new(item, RELEASE_FUNCTION)
    }

    pub fn is_release_function_name(name: TopLevelName) -> (release: bool)
        ensures
            release == exists|item: TopLevelId| name == #[trigger] release_of(item),
    {
        assert(name.local_name_id == RELEASE_FUNCTION ==> name == release_of(name.top_level_item));
        name.local_name_id == RELEASE_FUNCTION
    }

    /// Make `release place`, where `item` defines the shared type of the place.
    pub fn synthesize_release_call(
        &mut self,
        item: TopLevelId,
        place: &MovePath,
        typ: &Type,
        location: Location,
    ) -> (id: ExprId)
        ensures
            (id, final(self)@) == old(self)@.release_call(item, place@, *typ, location),
    {
        let argument = self.synthesize_place_expr(place, typ, location);
        self.synthesize_call(
            "release",
            Self::get_release_function_name(item),
            argument,
            location,
        )
    }

    /// Make the place of a closure, and note that its environment is released there. A closure
    /// has no release function of its own: each environment is released in the same way.
    pub fn synthesize_closure_env_release(
        &mut self,
        place: &MovePath,
        typ: &Type,
        location: Location,
    ) -> (id: ExprId)
        ensures
            (id, final(self)@) == old(self)@.closure_env_release(place@, *typ, location),
    {
        let expr = self.synthesize_place_expr(place, typ, location);
        self.check_quietly(expr, typ);
        self.context.mark_closure_env_release(expr);
        expr
    }

    /// Put drops into a sequence, if there are any.
    pub fn sequence_drops(&mut self, drops: Vec<ExprId>, location: Location) -> (id: Option<ExprId>)
        ensures
            (id, final(self)@) == old(self)@.sequenced(drops@, location),
    {
        if drops.len() == 0 {
            return None;
        }
        Some(
            self.push_expr(
                Expr::Sequence(drops),
                Type::Primitive(PrimitiveType::Unit),
                location,
            ),
        )
    }

    pub fn synthesize_match(
        &mut self,
        place: &MovePath,
        typ: &Type,
        cases: Vec<(PatternId, ExprId)>,
        location: Location,
    ) -> (id: ExprId)
        ensures
            (id, final(self)@) == old(self)@.match_on(place@, *typ, cases@, location),
    {
        let expression = self.synthesize_place_expr(place, typ, location);
        let unit = Type::Primitive(PrimitiveType::Unit);
        let id = self.push_expr(Expr::Match { expression, cases }, unit.clone(), location);
        self.check_quietly(id, &unit);
        id
    }

    pub fn synthesize_variant_case(
        &mut self,
        text: &String,
        constructor: TopLevelName,
        arguments: Vec<PatternId>,
        drops: Vec<ExprId>,
        location: Location,
    ) -> (case: (PatternId, ExprId))
        ensures
            (case, final(self)@) == old(self)@.variant_case(
                text@,
                constructor,
                arguments@,
                drops@,
                location,
            ),
    {
        let constructor_type = self.next_type_variable();
        let path = self.push_path(
            text.clone(),
            constructor_type,
            Origin::TopLevelDefinition(constructor),
            location,
        );
        let pattern = self.push_pattern(Pattern::Constructor(path, arguments), location);
        let body = if drops.len() == 0 {
            Expr::Literal(Literal::Unit)
        } else {
            Expr::Sequence(drops)
        };
        let body = self.push_expr(body, Type::Primitive(PrimitiveType::Unit), location);
        (pattern, body)
    }

    /// Report that a value of a generic type dies with no way to drop it.
    pub fn report_missing_drop_constraint(
        &mut self,
        place: &MovePath,
        typ: &Type,
        fallback: Location,
    )
        ensures
            final(self)@ == old(self)@.missing_drop_reported(place@, *typ, fallback),
    {
        if self.suppress_missing_drop_diagnostic {
            return ;
        }
        let key = place.to_key();
        if place_set_contains(&self.diagnosed_missing_drops, &key) {
            return ;
        }
        place_set_insert(&mut self.diagnosed_missing_drops, key);
        let location = match self.context.name_location(place.root_variable()) {
            Some(location) => location,
            None => fallback,
        };
        self.report(Diagnostic::MissingDropConstraint { typ: typ.clone(), location });
    }

    pub fn owns_slot(&self, slot: &Type) -> (owns: bool)
        ensures
            owns == self@.owns_slot(*slot),
    {
        match self.facts.owned_slots.get(slot) {
            Some(owns) => *owns,
            None => false,
        }
    }

    pub fn find_sum(&self, typ: &Type) -> (sum: Option<
        (TopLevelId, &'a Vec<NameId>, &'a Vec<(String, Vec<Type>)>),
    >)
        ensures
            match sum {
                Some((item, names, variants)) => self@.sum_of(*typ) == Some(
                    (item, names@, variants@),
                ) && names@.len() == variants@.len(),
                None => self@.sum_of(*typ) is None,
            },
    {
        match typ {
            Type::UserDefined(Origin::TopLevelDefinition(name)) => self.find_sum_at(
                name.top_level_item,
                TypeList::Nil,
            ),
            Type::Application(constructor, args) => match self.follow_type(constructor) {
                Type::UserDefined(Origin::TopLevelDefinition(name)) => self.find_sum_at(
                    name.top_level_item,
                    (**args).clone(),
                ),
                _ => None,
            },
            _ => None,
        }
    }

    fn find_sum_at(&self, item: TopLevelId, args: TypeList) -> (sum: Option<
        (TopLevelId, &'a Vec<NameId>, &'a Vec<(String, Vec<Type>)>),
    >)
        ensures
            match sum {
                Some((item2, names, variants)) => self@.sum_at(item, args) == Some(
                    (item2, names@, variants@),
                ) && names@.len() == variants@.len(),
                None => self@.sum_at(item, args) is None,
            },
    {
        let facts = self.facts;
        match facts.database.get_type_definition(item) {
            Some(definition) => match &definition.body {
                TypeDefinitionBody::Enum(names) => {
                    let key = (item, args);
                    match facts.database.type_bodies.get(&key) {
                        Some(TypeBody::Sum(variants)) => {
                            if names.len() == variants.len() {
                                Some((item, names, variants))
                            } else {
                                None
                            }
                        },
                        _ => None,
                    }
                },
                _ => None,
            },
            None => None,
        }
    }
}

} // verus!

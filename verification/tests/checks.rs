use ante_passes::cst::{Argument, Assignment, Context, Definition, Expr, Literal, Parameter, Pattern};
use ante_passes::database::{AbilityKind, Database, ItemKind, TypeDefinition, TypeDefinitionBody};
use ante_passes::ids::{Location, Origin, TopLevelId, TopLevelName, RELEASE_FUNCTION};
use ante_passes::type_inference::checker::{
    Diagnostic, DropScopeKind, Facts, PreludeNames, RepeatedContext, Request, TypeChecker,
};
use ante_passes::collections::Table;
use ante_passes::type_inference::free_variables::free_variables_of;
use ante_passes::type_inference::moves::{MovePath, MoveTracker};
use ante_passes::type_inference::origins::FlowMaps;
use ante_passes::types::{
    FunctionType, Generic, IntegerKind, Parameters, PrimitiveType, ReferenceKind, Type, TypeList,
};
use rustc_hash::FxHashSet;

const FILE: u32 = 7;
const COPY: u32 = 50;
const DROP: u32 = 51;
const NODE: u32 = 60;
const STRING: u32 = 61;
const DROP_METHOD: u32 = 9;

fn item(index: u32) -> TopLevelId {
    TopLevelId { source_file: FILE, index }
}

fn name(index: u32) -> TopLevelName {
    TopLevelName { top_level_item: item(index), local_name_id: 0 }
}

fn user_type(index: u32) -> Type {
    Type::UserDefined(Origin::TopLevelDefinition(name(index)))
}

fn list(types: Vec<Type>) -> TypeList {
    TypeList::from_vec(&types)
}

fn applied(constructor: Type, argument: Type) -> Type {
    Type::Application(Box::new(constructor), Box::new(list(vec![argument])))
}

fn number() -> Type {
    Type::Primitive(PrimitiveType::Int(IntegerKind::I32))
}

fn unit() -> Type {
    Type::Primitive(PrimitiveType::Unit)
}

fn string() -> Type {
    user_type(STRING)
}

fn reference_to(element: Type) -> Type {
    let lifetime = Type::Primitive(PrimitiveType::Unit);
    Type::Application(
        Box::new(Type::Primitive(PrimitiveType::Reference(ReferenceKind::Ref))),
        Box::new(list(vec![lifetime, element])),
    )
}

fn function(return_type: Type) -> Type {
    Type::Function(Box::new(FunctionType {
        parameters: Parameters::Nil,
        environment: Type::Primitive(PrimitiveType::NoClosureEnv),
        return_type,
        effects: Type::Effects(Box::new(TypeList::Nil), None),
    }))
}

fn at(start: u32) -> Location {
    Location { file: FILE, start, end: start + 1 }
}

fn type_item(shared: bool) -> ItemKind {
    ItemKind::TypeDefinition(TypeDefinition {
        name: 0,
        generics: vec![],
        shared,
        mutable: false,
        kind: AbilityKind::NotAbility,
        body: TypeDefinitionBody::Struct(vec![]),
    })
}

fn implicit(partial_type: Type) -> ItemKind {
    ItemKind::Definition { implicit: true, type_is_derivable: true, partial_type, is_extern: false }
}

/// A program with the shared type `Node`, and the type `String` with an impl of `Drop`.
fn facts() -> Facts {
    let mut database = Database::new(true);
    database.items.push(item(NODE), type_item(true));
    database.items.push(item(STRING), type_item(false));
    let drop_string = applied(user_type(DROP), string());
    database.items.push(item(1), implicit(drop_string.clone()));
    database.visible_definitions.push(FILE, vec![("drop_string".to_string(), name(1))]);
    database.exported_types.push(0, vec![("Copy".to_string(), name(COPY)), ("Drop".to_string(), name(DROP))]);
    database.exported_definitions.push(0, vec![("drop".to_string(), name(DROP_METHOD))]);
    let prelude = PreludeNames::find(&database).unwrap();
    let mut top_level_types = Table::new();
    top_level_types.push(name(1), drop_string.clone());
    let mut unifications = Table::new();
    unifications.push((drop_string.clone(), drop_string), vec![]);
    Facts { database, prelude, unifications, top_level_types, owned_slots: Table::new() }
}

fn checker<'a>(facts: &'a Facts, context: Context) -> TypeChecker<'a> {
    let mut checker = TypeChecker::new(facts, context);
    checker.current_item = Some(item(0));
    checker
}

fn variable(context: &mut Context, name: u32, start: u32) -> u32 {
    let path = context.push_path("x".to_string(), Origin::Local(name), at(start));
    context.push_expr(Expr::Variable(path), at(start))
}

fn local(context: &mut Context, text: &str) -> (u32, u32) {
    let name = context.push_name(text.to_string(), at(900));
    let pattern = context.push_pattern(Pattern::Variable(name), at(900));
    (name, pattern)
}

#[test]
fn the_prelude_is_found_only_whole() {
    assert!(PreludeNames::find(&Database::new(true)).is_none());
    let found = PreludeNames::find(&facts().database).unwrap();
    assert_eq!(found.copy_type, name(COPY));
    assert_eq!(found.drop_type, name(DROP));
    assert_eq!(found.drop_method, name(DROP_METHOD));
}

#[test]
fn what_is_copied_and_what_is_not() {
    let facts = facts();
    let mut checker = checker(&facts, Context::new());
    assert!(checker.type_is_copy(&number()));
    assert!(checker.type_is_copy(&function(string())));
    assert!(checker.type_is_copy(&user_type(NODE)));
    assert!(!checker.type_is_copy(&string()));
    assert!(checker.type_is_copy(&Type::Tuple(Box::new(list(vec![number(), user_type(NODE)])))));
    assert!(!checker.type_is_copy(&Type::Tuple(Box::new(list(vec![number(), string()])))));
    checker.bindings.insert(3, number());
    assert!(checker.type_is_copy(&Type::Variable(3)));
    checker.signature_type_vars.insert(4);
    assert!(!checker.type_is_copy(&Type::Variable(4)));
    checker.integer_literal_vars.insert(5);
    assert!(checker.type_is_copy(&Type::Variable(5)));
}

#[test]
fn a_copy_impl_makes_a_type_copy() {
    let mut facts = facts();
    let copy_string = applied(user_type(COPY), string());
    facts.database.items.push(item(2), implicit(copy_string.clone()));
    facts.database.visible_definitions.put(FILE, vec![("copy_string".to_string(), name(2))]);
    facts.top_level_types.push(name(2), copy_string.clone());
    facts.unifications.push((copy_string.clone(), copy_string), vec![]);
    let mut checker = checker(&facts, Context::new());
    assert!(checker.type_is_copy(&string()));
    assert_eq!(checker.copy_search_cache.get(&(FILE, string())), Some(&true));
}

#[test]
fn shared_types_and_heap_closures_are_told_apart() {
    let facts = facts();
    let checker = checker(&facts, Context::new());
    assert!(checker.is_shared_user_defined(&user_type(NODE)));
    assert!(!checker.is_shared_user_defined(&string()));
    assert!(!checker.is_shared_mut_user_defined(&user_type(NODE)));
    assert_eq!(checker.shared_type_top_level_id(&user_type(NODE)), Some(item(NODE)));
    assert_eq!(checker.shared_type_top_level_id(&string()), None);
    assert!(!checker.is_heap_env_closure(&function(unit())));
    let closure = Type::Function(Box::new(FunctionType {
        parameters: Parameters::Nil,
        environment: Type::Primitive(PrimitiveType::Pointer),
        return_type: unit(),
        effects: unit(),
    }));
    assert!(checker.is_heap_env_closure(&closure));
}

#[test]
fn a_moved_place_is_reported_once() {
    let facts = facts();
    let mut context = Context::new();
    let (x, _) = local(&mut context, "x");
    let mut checker = checker(&facts, context);
    checker.name_types.insert(x, string());
    let path = MovePath::Variable(x);
    checker.check_use_of_move_path(&path, at(1));
    assert!(checker.diagnostics.is_empty());
    checker.move_tracker.record_move(MovePath::Variable(x), at(2));
    checker.check_use_of_move_path(&path, at(3));
    checker.check_use_of_move_path(&path, at(4));
    assert_eq!(checker.diagnostics.len(), 1);
    match &checker.diagnostics[0] {
        Diagnostic::UseOfMovedValue { name, location, moved_in } => {
            assert_eq!(name, "x");
            assert_eq!(*location, at(3));
            assert_eq!(*moved_in, at(2));
        },
        _ => panic!("another report"),
    }
}

#[test]
fn a_place_that_reads_as_copy_is_checked_twice_in_silence() {
    let mut facts = facts();
    let copy_string = applied(user_type(COPY), string());
    facts.database.items.push(item(2), implicit(copy_string.clone()));
    facts.database.visible_definitions.put(FILE, vec![("copy_string".to_string(), name(2))]);
    facts.top_level_types.push(name(2), copy_string.clone());
    facts.unifications.push((copy_string.clone(), copy_string), vec![]);
    let mut context = Context::new();
    let (x, _) = local(&mut context, "x");
    let mut checker = checker(&facts, context);
    checker.name_types.insert(x, Type::Tuple(Box::new(list(vec![string(), number(), string()]))));
    checker.move_tracker.record_move(MovePath::Variable(x), at(2));
    let path = MovePath::Variable(x);
    checker.check_use_of_move_path(&path, at(3));
    checker.check_use_of_move_path(&path, at(4));
    assert!(checker.diagnostics.is_empty());
    assert!(checker.move_tracker.is_moved(&path).is_some());
}

#[test]
fn a_tuple_is_copy_where_each_element_is() {
    let facts = facts();
    let tuple = |types: Vec<Type>| Type::Tuple(Box::new(list(types)));
    let elements = vec![number(), function(string()), user_type(NODE), string()];
    for a in &elements {
        for b in &elements {
            let first = checker(&facts, Context::new()).type_is_copy(a);
            let second = checker(&facts, Context::new()).type_is_copy(b);
            let mut both = checker(&facts, Context::new());
            assert_eq!(both.type_is_copy(&tuple(vec![a.clone(), b.clone()])), first && second);
        }
    }
    assert!(checker(&facts, Context::new()).type_is_copy(&tuple(vec![])));
}

/// A program with the type `Box t`, which is `Copy` where `t` is.
fn box_facts(depth: usize) -> (Facts, Vec<Type>) {
    let mut facts = facts();
    let boxed = |element: Type| applied(user_type(70), element);
    let copy = |element: Type| applied(user_type(COPY), element);
    let wanted = copy(boxed(Type::Variable(1)));
    let constraint = Parameters::Cons(true, Box::new(copy(Type::Variable(1))), Box::new(Parameters::Nil));
    let copy_box = Type::Function(Box::new(FunctionType {
        parameters: constraint,
        environment: Type::Primitive(PrimitiveType::NoClosureEnv),
        return_type: wanted.clone(),
        effects: Type::Effects(Box::new(TypeList::Nil), None),
    }));
    facts.database.items.push(item(70), type_item(false));
    facts.database.items.push(item(2), implicit(copy_box.clone()));
    facts.database.visible_definitions.put(FILE, vec![("copy_box".to_string(), name(2))]);
    facts.top_level_types.push(name(2), copy_box);
    let mut boxes = vec![number()];
    for i in 0..depth {
        let inner = boxes[i].clone();
        facts.unifications.push((wanted.clone(), copy(boxed(inner.clone()))), vec![(1, inner.clone())]);
        boxes.push(boxed(inner));
    }
    (facts, boxes)
}

#[test]
fn what_was_found_for_one_element_counts_for_the_next() {
    let (facts, boxes) = box_facts(12);
    let tuple = |types: Vec<Type>| Type::Tuple(Box::new(list(types)));
    assert!(checker(&facts, Context::new()).type_is_copy(&boxes[4]));
    assert!(checker(&facts, Context::new()).type_is_copy(&boxes[8]));
    // The search for the constraints of constraints is cut short.
    assert!(!checker(&facts, Context::new()).type_is_copy(&boxes[12]));
    let both = tuple(vec![boxes[4].clone(), boxes[12].clone()]);
    assert!(checker(&facts, Context::new()).type_is_copy(&both));
    // Asked in turn, the elements are answered as in the tuple.
    let mut in_turn = checker(&facts, Context::new());
    assert!(in_turn.type_is_copy(&boxes[4]));
    assert!(in_turn.type_is_copy(&boxes[12]));
    let mut other_way = checker(&facts, Context::new());
    assert!(!other_way.type_is_copy(&tuple(vec![boxes[12].clone(), boxes[4].clone()])));
}

#[test]
fn a_partly_moved_place_is_reported_and_a_copied_one_is_not() {
    let facts = facts();
    let mut context = Context::new();
    let (x, _) = local(&mut context, "x");
    let (n, _) = local(&mut context, "n");
    let mut checker = checker(&facts, context);
    checker.name_types.insert(x, string());
    checker.name_types.insert(n, number());
    checker.move_tracker.record_move(MovePath::field(MovePath::Variable(x), "a".to_string()), at(2));
    checker.move_tracker.record_move(MovePath::Variable(n), at(2));
    checker.check_use_of_move_path(&MovePath::Variable(n), at(3));
    assert!(checker.diagnostics.is_empty());
    checker.check_use_of_move_path(&MovePath::Variable(x), at(3));
    assert_eq!(checker.diagnostics.len(), 1);
}

#[test]
fn moves_out_of_a_loop_body_are_reported() {
    let facts = facts();
    let mut context = Context::new();
    let (outer, _) = local(&mut context, "outer");
    let (inner, _) = local(&mut context, "inner");
    let (count, _) = local(&mut context, "count");
    let mut checker = checker(&facts, context);
    checker.name_types.insert(outer, string());
    checker.name_types.insert(inner, string());
    checker.name_types.insert(count, number());
    checker.move_tracker.record_move(MovePath::Variable(outer), at(2));
    checker.move_tracker.record_move(MovePath::Variable(inner), at(3));
    checker.move_tracker.record_move(MovePath::Variable(count), at(4));
    let mut outer_names = FxHashSet::default();
    outer_names.insert(outer);
    outer_names.insert(count);
    checker.check_moves_in_repeated_context(&outer_names, RepeatedContext::ForLoop);
    assert_eq!(checker.diagnostics.len(), 1);
    match &checker.diagnostics[0] {
        Diagnostic::MoveInRepeatedContext { name, context, location } => {
            assert_eq!(name, "outer");
            assert_eq!(*context, RepeatedContext::ForLoop);
            assert_eq!(*location, at(2));
        },
        _ => panic!("another report"),
    }
}

#[test]
fn a_chain_of_members_is_a_place() {
    let facts = facts();
    let mut context = Context::new();
    let (x, _) = local(&mut context, "x");
    let (alias, _) = local(&mut context, "alias");
    let root = variable(&mut context, x, 1);
    let member = context.push_expr(Expr::MemberAccess { object: root, member: "a".to_string() }, at(2));
    let aliased = variable(&mut context, alias, 3);
    let literal = context.push_expr(Expr::Literal(Literal::Unit), at(4));
    let mut checker = checker(&facts, context);
    let part = MovePath::field(MovePath::Variable(x), "b".to_string());
    checker.binding_places.insert(alias, part);
    let place = checker.try_build_move_path(member).unwrap();
    assert!(place.same_place(&MovePath::field(MovePath::Variable(x), "a".to_string())));
    let place = checker.try_build_move_path(aliased).unwrap();
    assert!(place.same_place(&MovePath::field(MovePath::Variable(x), "b".to_string())));
    assert!(checker.try_build_move_path(literal).is_none());
}

/// `fn p -> (z = p; f y z x)`, and its names.
fn lambda_context() -> (Context, u32, Vec<u32>) {
    let mut context = Context::new();
    let (x, _) = local(&mut context, "x");
    let (y, _) = local(&mut context, "y");
    let (p, p_pattern) = local(&mut context, "p");
    let (z, z_pattern) = local(&mut context, "z");
    let rhs = variable(&mut context, p, 1);
    let definition = Definition { pattern: z_pattern, rhs, mutable: false };
    let define = context.push_expr(Expr::Definition(definition), at(2));
    let path = context.push_path("f".to_string(), Origin::TopLevelDefinition(name(3)), at(3));
    let callee = context.push_expr(Expr::Variable(path), at(3));
    let mut arguments = Vec::new();
    for argument in [y, z, x] {
        let expr = variable(&mut context, argument, 4);
        arguments.push(Argument { expr, is_implicit: false });
    }
    let call = context.push_expr(Expr::Call { function: callee, arguments }, at(5));
    let body = context.push_expr(Expr::Sequence(vec![define, call]), at(6));
    let parameters = vec![Parameter { pattern: p_pattern, is_implicit: false, is_mutable: false }];
    let lambda = context.push_expr(Expr::Lambda { parameters, body, is_move: false }, at(7));
    (context, lambda, vec![x, y, p, z])
}

#[test]
fn free_variables_are_those_bound_outside_in_order() {
    let (context, lambda, names) = lambda_context();
    assert_eq!(free_variables_of(&context, lambda, None), vec![names[0], names[1]]);
    assert_eq!(free_variables_of(&context, lambda, Some(names[0])), vec![names[1]]);
}

#[test]
fn a_closure_borrows_what_cannot_be_copied() {
    let facts = facts();
    let (context, lambda, names) = lambda_context();
    let mut checker = checker(&facts, context);
    checker.name_types.insert(names[0], string());
    checker.name_types.insert(names[1], number());
    assert!(checker.lambda_captures_name(lambda, names[0]));
    assert!(!checker.lambda_captures_name(lambda, names[3]));
    checker.record_captured_names(lambda);
    assert!(checker.captured_names.contains(&names[0]));
    let expected = Type::Variable(1);
    checker.check_for_closure(lambda, &expected, None, false);
    assert_eq!(checker.context.closure_environments[&lambda], vec![names[0], names[1]]);
    assert_eq!(checker.context.borrowed_captures[&lambda], vec![names[0]]);
    assert!(!checker.captured_names.contains(&names[0]));
    assert!(checker.captured_names.contains(&names[1]));
    assert_eq!(checker.requests.len(), 1);
    assert!(!checker.context.move_closures.contains(&lambda));
}

#[test]
fn a_moving_closure_owns_what_it_captures() {
    let facts = facts();
    let (context, lambda, names) = lambda_context();
    let mut checker = checker(&facts, context);
    checker.name_types.insert(names[0], string());
    checker.name_types.insert(names[1], number());
    checker.check_for_closure(lambda, &Type::Variable(1), None, true);
    assert!(checker.context.move_closures.contains(&lambda));
    assert_eq!(checker.context.borrowed_captures[&lambda], Vec::<u32>::new());
    checker.record_move_captures(lambda, None);
    assert!(checker.move_tracker.is_moved(&MovePath::Variable(names[0])).is_some());
    assert_eq!(checker.move_tracker.is_moved(&MovePath::Variable(names[1])), None);
}

fn escape_locations(checker: &TypeChecker) -> Vec<Location> {
    let mut locations = Vec::new();
    for diagnostic in &checker.diagnostics {
        match diagnostic {
            Diagnostic::ReferenceEscapesScope { location } => locations.push(*location),
            _ => panic!("another report"),
        }
    }
    locations
}

#[test]
fn a_reference_to_a_local_must_not_leave() {
    let facts = facts();
    let mut context = Context::new();
    let (x, _) = local(&mut context, "x");
    let target = variable(&mut context, x, 1);
    let reference = context.push_expr(Expr::Reference { kind: ReferenceKind::Ref, rhs: target }, at(2));
    let (r, r_pattern) = local(&mut context, "r");
    let define = context.push_expr(
        Expr::Definition(Definition { pattern: r_pattern, rhs: reference, mutable: false }),
        at(3),
    );
    let first = variable(&mut context, r, 4);
    let second = variable(&mut context, r, 5);
    let pair = context.push_expr(Expr::Constructor { fields: vec![(1, first), (2, second)] }, at(6));
    let body = context.push_expr(Expr::Sequence(vec![define, pair]), at(7));
    let mut checker = checker(&facts, context);
    checker.name_types.insert(x, string());
    checker.name_types.insert(r, reference_to(string()));
    checker.function_local_names.push(vec![x, r]);
    checker.reject_escaping_origins(body);
    // Both references were taken in one place.
    assert_eq!(escape_locations(&checker), vec![at(2)]);
    let (tail, maps) = checker.compute_origins(body);
    assert_eq!(tail.len(), 2);
    assert_eq!(maps.origins[&body].len(), 2);
    assert_eq!(maps.origins[&reference].len(), 1);
}

#[test]
fn origins_come_from_both_branches_in_order() {
    let facts = facts();
    let mut context = Context::new();
    let (x, _) = local(&mut context, "x");
    let (y, _) = local(&mut context, "y");
    let (p, _) = local(&mut context, "p");
    let taken = variable(&mut context, x, 1);
    let in_condition = context.push_expr(Expr::Reference { kind: ReferenceKind::Ref, rhs: taken }, at(2));
    let first = variable(&mut context, x, 3);
    let then_expr = context.push_expr(Expr::Reference { kind: ReferenceKind::Ref, rhs: first }, at(4));
    let second = variable(&mut context, y, 5);
    let else_expr = context.push_expr(Expr::Reference { kind: ReferenceKind::Ref, rhs: second }, at(6));
    let choice = context.push_expr(
        Expr::If { condition: in_condition, then_expr, else_expr: Some(else_expr) },
        at(7),
    );
    let literal = context.push_expr(Expr::Literal(Literal::Unit), at(8));
    let body = context.push_expr(Expr::Sequence(vec![literal, choice]), at(9));
    let cases = vec![(p, else_expr), (p, then_expr), (p, literal)];
    let matched = context.push_expr(Expr::Match { expression: in_condition, cases }, at(10));
    let mut checker = checker(&facts, context);
    checker.name_types.insert(x, string());
    checker.name_types.insert(y, string());
    checker.function_local_names.push(vec![x, y]);
    let (tail, maps) = checker.compute_origins(body);
    let locations: Vec<Option<Location>> = tail.iter().map(|origin| origin.location).collect();
    assert_eq!(locations, vec![Some(at(4)), Some(at(6))]);
    assert_eq!(maps.origins[&choice].len(), 2);
    assert_eq!(maps.origins[&body].len(), 2);
    assert!(!maps.origins.contains_key(&in_condition));
    assert!(!maps.origins.contains_key(&literal));
    let (tail, _) = checker.compute_origins(matched);
    let locations: Vec<Option<Location>> = tail.iter().map(|origin| origin.location).collect();
    assert_eq!(locations, vec![Some(at(6)), Some(at(4))]);
}

#[test]
fn a_variable_points_where_each_of_its_values_did() {
    let facts = facts();
    let mut context = Context::new();
    let (x, _) = local(&mut context, "x");
    let (y, _) = local(&mut context, "y");
    let (r, r_pattern) = local(&mut context, "r");
    let first = variable(&mut context, x, 1);
    let to_x = context.push_expr(Expr::Reference { kind: ReferenceKind::Ref, rhs: first }, at(2));
    let define = context.push_expr(
        Expr::Definition(Definition { pattern: r_pattern, rhs: to_x, mutable: true }),
        at(3),
    );
    let second = variable(&mut context, y, 4);
    let to_y = context.push_expr(Expr::Reference { kind: ReferenceKind::Ref, rhs: second }, at(5));
    let target = variable(&mut context, r, 6);
    let assign = context.push_expr(Expr::Assignment(Assignment { lhs: target, rhs: to_y, op: None }), at(7));
    let read = variable(&mut context, r, 8);
    let annotated = context.push_expr(Expr::TypeAnnotation { lhs: read }, at(9));
    let literal = context.push_expr(Expr::Literal(Literal::Unit), at(10));
    let mut checker = checker(&facts, context);
    checker.name_types.insert(x, string());
    checker.name_types.insert(y, string());
    checker.function_local_names.push(vec![x, y, r]);
    let mut flow = FlowMaps::new();
    assert!(checker.origin_of(&mut flow, read).is_empty());
    assert!(checker.origin_of(&mut flow, define).is_empty());
    assert_eq!(flow.bindings[&r].len(), 1);
    checker.origin_stmt(&mut flow, assign);
    let set = checker.origin_of(&mut flow, annotated);
    let locations: Vec<Option<Location>> = set.iter().map(|origin| origin.location).collect();
    assert_eq!(locations, vec![Some(at(2)), Some(at(5))]);
    assert_eq!(flow.origins[&annotated].len(), 2);
    assert_eq!(flow.origins[&read].len(), 2);
    assert_eq!(flow.origins[&to_x].len(), 1);
    assert!(checker.origin_of(&mut flow, literal).is_empty());
    assert!(!flow.origins.contains_key(&literal));
    assert!(!flow.origins.contains_key(&define));
}

#[test]
fn a_reference_to_a_parameter_may_leave() {
    let facts = facts();
    let mut context = Context::new();
    let (p, p_pattern) = local(&mut context, "p");
    let body = variable(&mut context, p, 1);
    let mut checker = checker(&facts, context);
    checker.name_types.insert(p, reference_to(string()));
    checker.function_local_names.push(vec![]);
    checker.reject_escaping_origins(body);
    assert!(checker.diagnostics.is_empty());
    let parameters = vec![Parameter { pattern: p_pattern, is_implicit: false, is_mutable: false }];
    checker.compute_return_origin_summary(77, &parameters, body, &reference_to(string()));
    assert_eq!(checker.return_origin_summaries.get(&(item(0), 77)), Some(&vec![true]));
}

#[test]
fn a_temporary_must_not_leave() {
    let facts = facts();
    let mut context = Context::new();
    let literal = context.push_expr(Expr::Literal(Literal::Unit), at(1));
    let call = context.push_expr(Expr::Call { function: literal, arguments: vec![] }, at(2));
    let reference = context.push_expr(Expr::Reference { kind: ReferenceKind::Mut, rhs: call }, at(3));
    let mut checker = checker(&facts, context);
    checker.function_local_names.push(vec![]);
    checker.expr_types.insert(call, string());
    checker.expr_types.insert(reference, reference_to(string()));
    checker.reject_escaping_origins(reference);
    assert_eq!(escape_locations(&checker), vec![at(3)]);
}

#[test]
fn a_borrowed_capture_must_not_leave() {
    let facts = facts();
    let (context, lambda, names) = lambda_context();
    let mut borrowing = checker(&facts, context);
    borrowing.name_types.insert(names[0], string());
    borrowing.name_types.insert(names[1], number());
    borrowing.function_local_names.push(vec![names[0], names[1]]);
    borrowing.reject_escaping_origins(lambda);
    assert_eq!(escape_locations(&borrowing), vec![at(7)]);

    let (mut context, lambda, names) = lambda_context();
    if let Expr::Lambda { is_move, .. } = &mut context.exprs[lambda as usize] {
        *is_move = true;
    }
    let mut moving = checker(&facts, context);
    moving.name_types.insert(names[0], string());
    moving.name_types.insert(names[1], number());
    moving.function_local_names.push(vec![names[0], names[1]]);
    moving.reject_escaping_origins(lambda);
    assert!(moving.diagnostics.is_empty());
}

/// The variable that `drop (mut x)` drops.
fn dropped(checker: &TypeChecker, call: u32) -> u32 {
    match &checker.context.exprs[call as usize] {
        Expr::Call { function, arguments } => {
            let callee = match &checker.context.exprs[*function as usize] {
                Expr::Variable(path) => checker.context.path_origins[path],
                _ => panic!("no method"),
            };
            assert_eq!(callee, Origin::TopLevelDefinition(name(DROP_METHOD)));
            match &checker.context.exprs[arguments[0].expr as usize] {
                Expr::Reference { kind: ReferenceKind::Mut, rhs } => match &checker.context.exprs[*rhs as usize] {
                    Expr::Variable(path) => match checker.context.path_origins[path] {
                        Origin::Local(name) => name,
                        _ => panic!("no local"),
                    },
                    _ => panic!("no variable"),
                },
                _ => panic!("no reference"),
            }
        },
        _ => panic!("no call"),
    }
}

#[test]
fn a_scope_drops_what_it_owns_in_reverse() {
    let facts = facts();
    let mut context = Context::new();
    let (a, a_pattern) = local(&mut context, "a");
    let (b, b_pattern) = local(&mut context, "b");
    let (c, c_pattern) = local(&mut context, "c");
    let (n, n_pattern) = local(&mut context, "n");
    let mut checker = checker(&facts, context);
    for name in [a, b, c] {
        checker.name_types.insert(name, string());
    }
    checker.name_types.insert(n, number());
    checker.push_drop_scope(DropScopeKind::Function);
    for pattern in [a_pattern, b_pattern, c_pattern, n_pattern] {
        checker.register_drop_locals(pattern);
    }
    checker.move_tracker.record_move(MovePath::Variable(b), at(3));
    let drops = checker.pop_drop_scope(false, at(9));
    let names: Vec<u32> = drops.iter().map(|call| dropped(&checker, *call)).collect();
    assert_eq!(names, vec![c, a]);
    assert!(checker.drop_scopes.is_empty());
    assert!(checker.requests.iter().all(|request| matches!(request, Request::CheckQuietly { .. })));
}

#[test]
fn a_scope_that_is_not_left_drops_nothing() {
    let facts = facts();
    let mut context = Context::new();
    let (a, pattern) = local(&mut context, "a");
    let mut checker = checker(&facts, context);
    checker.name_types.insert(a, string());
    checker.push_drop_scope(DropScopeKind::Block);
    checker.register_drop_locals(pattern);
    assert!(checker.pop_drop_scope(true, at(9)).is_empty());
}

#[test]
fn leaving_unwinds_to_its_boundary() {
    let facts = facts();
    let mut context = Context::new();
    let (a, a_pattern) = local(&mut context, "a");
    let (b, b_pattern) = local(&mut context, "b");
    let mut checker = checker(&facts, context);
    checker.name_types.insert(a, string());
    checker.name_types.insert(b, string());
    checker.push_drop_scope(DropScopeKind::Function);
    checker.register_drop_locals(a_pattern);
    checker.push_drop_scope(DropScopeKind::LoopBody);
    checker.push_drop_scope(DropScopeKind::Block);
    checker.register_drop_locals(b_pattern);
    let drops = checker.drops_for_loop_exit(at(5));
    let names: Vec<u32> = drops.iter().map(|call| dropped(&checker, *call)).collect();
    assert_eq!(names, vec![b]);
    let drops = checker.drops_for_return(at(5));
    let names: Vec<u32> = drops.iter().map(|call| dropped(&checker, *call)).collect();
    assert_eq!(names, vec![b, a]);
}

#[test]
fn a_handle_dies_by_its_release() {
    let facts = facts();
    let mut context = Context::new();
    let (a, pattern) = local(&mut context, "a");
    let mut checker = checker(&facts, context);
    checker.name_types.insert(a, user_type(NODE));
    checker.push_drop_scope(DropScopeKind::Block);
    checker.register_drop_locals(pattern);
    let drops = checker.pop_drop_scope(false, at(9));
    assert_eq!(drops.len(), 1);
    match &checker.context.exprs[drops[0] as usize] {
        Expr::Call { function, arguments } => {
            let callee = match &checker.context.exprs[*function as usize] {
                Expr::Variable(path) => checker.context.path_origins[path],
                _ => panic!("no function"),
            };
            let release = TopLevelName { top_level_item: item(NODE), local_name_id: RELEASE_FUNCTION };
            assert_eq!(callee, Origin::TopLevelDefinition(release));
            assert!(matches!(checker.context.exprs[arguments[0].expr as usize], Expr::Variable(_)));
        },
        _ => panic!("no call"),
    }
}

#[test]
fn a_generic_value_without_a_constraint_is_reported_once() {
    let facts = facts();
    let mut context = Context::new();
    let (a, _) = local(&mut context, "a");
    let mut checker = checker(&facts, context);
    let generic = Type::Generic(Generic::Named(Origin::Local(99)));
    checker.name_types.insert(a, generic.clone());
    let place = MovePath::Variable(a);
    assert!(checker.try_synthesize_drop_for_place(&place, &generic, at(1)).is_none());
    assert!(checker.try_synthesize_drop_for_place(&place, &generic, at(2)).is_none());
    assert_eq!(checker.diagnostics.len(), 1);
    match &checker.diagnostics[0] {
        Diagnostic::MissingDropConstraint { typ, location } => {
            assert_eq!(*typ, generic);
            assert_eq!(*location, at(900));
        },
        _ => panic!("another report"),
    }
}

#[test]
fn nothing_is_dropped_by_hand() {
    let mut facts = facts();
    facts.database.auto_drop = false;
    let mut context = Context::new();
    let (a, pattern) = local(&mut context, "a");
    let mut checker = checker(&facts, context);
    checker.name_types.insert(a, string());
    checker.push_drop_scope(DropScopeKind::Function);
    checker.register_drop_locals(pattern);
    assert!(checker.pop_drop_scope(false, at(9)).is_empty());
}

#[test]
fn an_overwritten_value_is_dropped_before_the_store() {
    let facts = facts();
    let mut context = Context::new();
    let (a, pattern) = local(&mut context, "a");
    let (b, _) = local(&mut context, "b");
    let lhs = variable(&mut context, a, 1);
    let rhs = variable(&mut context, b, 2);
    let assignment = Assignment { lhs, rhs, op: None };
    let assign = context.push_expr(Expr::Assignment(assignment), at(3));
    let mut checker = checker(&facts, context);
    checker.name_types.insert(a, string());
    checker.expr_types.insert(lhs, string());
    checker.push_drop_scope(DropScopeKind::Function);
    checker.register_drop_locals(pattern);
    checker.function_local_names.push(vec![a]);
    checker.assignment_overwrite_drop(&assignment, assign);
    let drops = checker.context.pre_exit_drops[&assign].clone();
    assert_eq!(drops.len(), 1);
    assert_eq!(dropped(&checker, drops[0]), a);
}

#[test]
fn a_sibling_branch_drops_what_the_other_moved() {
    let facts = facts();
    let mut context = Context::new();
    let (a, pattern) = local(&mut context, "a");
    let first = context.push_expr(Expr::Literal(Literal::Unit), at(1));
    let second = context.push_expr(Expr::Literal(Literal::Unit), at(2));
    let mut checker = checker(&facts, context);
    checker.name_types.insert(a, string());
    checker.push_drop_scope(DropScopeKind::Function);
    checker.register_drop_locals(pattern);
    let before = MoveTracker::default();
    let mut moved = MoveTracker::default();
    moved.record_move(MovePath::Variable(a), at(4));
    checker.equalize_branch_drops(&before, &vec![(first, moved.clone()), (second, MoveTracker::default())]);
    assert!(!checker.context.post_expr_drops.contains_key(&first));
    let drops = checker.context.post_expr_drops[&second].clone();
    assert_eq!(drops.len(), 1);
    assert_eq!(dropped(&checker, drops[0]), a);
    let drops = checker.implicit_else_edge_drops(&before, moved, at(6));
    assert_eq!(drops.len(), 1);
    assert_eq!(dropped(&checker, drops[0]), a);
}

#[test]
fn a_drop_impl_for_a_shared_type_is_rejected() {
    let facts = facts();
    let mut context = Context::new();
    let (_, pattern) = local(&mut context, "impl");
    let mut checker = checker(&facts, context);
    checker.reject_shared_drop_impl(&applied(user_type(DROP), string()), pattern);
    checker.reject_shared_drop_impl(&applied(user_type(COPY), user_type(NODE)), pattern);
    assert!(checker.diagnostics.is_empty());
    checker.reject_shared_drop_impl(&applied(user_type(DROP), user_type(NODE)), pattern);
    // An impl with constraints is a function that gives the impl.
    checker.reject_shared_drop_impl(&function(applied(user_type(DROP), user_type(NODE))), pattern);
    assert_eq!(checker.diagnostics.len(), 2);
    for diagnostic in &checker.diagnostics {
        match diagnostic {
            Diagnostic::DropImplForSharedType { location } => assert_eq!(*location, at(900)),
            _ => panic!("another report"),
        }
    }
}

#[test]
fn a_shared_parameter_that_is_not_captured_borrows() {
    let facts = facts();
    let mut context = Context::new();
    let (p, p_pattern) = local(&mut context, "p");
    let (n, n_pattern) = local(&mut context, "n");
    let body = variable(&mut context, p, 1);
    let parameters = vec![
        Parameter { pattern: p_pattern, is_implicit: false, is_mutable: false },
        Parameter { pattern: n_pattern, is_implicit: false, is_mutable: false },
    ];
    let mut checker = checker(&facts, context);
    checker.name_types.insert(p, user_type(NODE));
    checker.name_types.insert(n, number());
    let expected = Type::Function(Box::new(FunctionType {
        parameters: Parameters::Cons(
            false,
            Box::new(user_type(NODE)),
            Box::new(Parameters::Cons(false, Box::new(number()), Box::new(Parameters::Nil))),
        ),
        environment: Type::Primitive(PrimitiveType::NoClosureEnv),
        return_type: unit(),
        effects: unit(),
    }));
    checker.compute_borrowed_param_mask(77, &parameters, body, &expected);
    assert_eq!(checker.borrowed_param_masks.get(&(item(0), 77)), Some(&vec![true, false]));
    assert!(checker.borrowed_local_params.contains(&p));
    assert!(!checker.borrowed_local_params.contains(&n));
    assert!(!checker.param_escapes_in_body(body, p));
}

#[test]
fn a_release_function_takes_a_handle_and_gives_nothing() {
    let facts = facts();
    let checker = checker(&facts, Context::new());
    match checker.release_function_generalized_type(item(NODE)) {
        Type::Function(function) => {
            assert_eq!(function.parameters.list_types(), vec![user_type(NODE)]);
            assert_eq!(function.return_type, unit());
        },
        _ => panic!("no function"),
    }
}

#[test]
fn an_alias_of_an_immutable_local_borrows() {
    let facts = facts();
    let mut context = Context::new();
    let (source, _) = local(&mut context, "source");
    let (alias, pattern) = local(&mut context, "alias");
    let rhs = variable(&mut context, source, 1);
    let member = context.push_expr(Expr::MemberAccess { object: rhs, member: "a".to_string() }, at(2));
    let mut checker = checker(&facts, context);
    let definition = Definition { pattern, rhs, mutable: false };
    assert_eq!(checker.try_borrowed_alias_binding(&definition), Some(alias));
    assert_eq!(checker.try_borrowed_alias_binding(&Definition { mutable: true, ..definition }), None);
    assert_eq!(checker.try_borrowed_alias_binding(&Definition { rhs: member, ..definition }), None);
    checker.mutable_definitions.insert(source);
    assert_eq!(checker.try_borrowed_alias_binding(&definition), None);
}

#[test]
fn handles_in_tail_position_are_retained() {
    let facts = facts();
    let mut context = Context::new();
    let (x, _) = local(&mut context, "x");
    let condition = context.push_expr(Expr::Literal(Literal::Bool(true)), at(1));
    let handle = variable(&mut context, x, 2);
    let plain = variable(&mut context, x, 3);
    let branch = context.push_expr(Expr::If { condition, then_expr: handle, else_expr: Some(plain) }, at(4));
    let first = variable(&mut context, x, 5);
    let body = context.push_expr(Expr::Sequence(vec![first, branch]), at(6));
    let mut checker = checker(&facts, context);
    checker.expr_types.insert(handle, user_type(NODE));
    checker.expr_types.insert(first, user_type(NODE));
    checker.expr_types.insert(plain, number());
    checker.mark_tail_escape_retains(body);
    assert!(checker.context.escape_retains.contains(&handle));
    assert!(!checker.context.escape_retains.contains(&plain));
    assert!(!checker.context.escape_retains.contains(&first));
}

#[test]
fn a_closure_that_escapes_releases_nothing_here() {
    let facts = facts();
    let (mut context, lambda, names) = lambda_context();
    let (m, _) = local(&mut context, "m");
    let (n, _) = local(&mut context, "n");
    let callee = variable(&mut context, m, 20);
    let escaping = variable(&mut context, n, 21);
    let call = context.push_expr(
        Expr::Call { function: callee, arguments: vec![Argument { expr: escaping, is_implicit: false }] },
        at(22),
    );
    let mut checker = checker(&facts, context);
    checker.name_types.insert(names[0], user_type(NODE));
    checker.name_types.insert(names[1], number());
    checker.record_captured_names(lambda);
    checker.record_shared_captures(lambda, Some(m));
    checker.record_shared_captures(lambda, Some(n));
    assert_eq!(checker.shared_closure_captures[&m], vec![names[0]]);
    assert!(!checker.captured_names.contains(&names[0]));
    assert!(checker.captured_names.contains(&names[1]));
    // `m n` calls `m`, which stays, and hands `n` out.
    checker.retract_escaping_closure_env_releases(call);
    assert!(checker.shared_closure_captures.contains_key(&m));
    assert!(!checker.shared_closure_captures.contains_key(&n));
}

#[test]
fn a_discarded_value_is_dropped_at_the_end_of_its_statement() {
    let facts = facts();
    let mut context = Context::new();
    let path = context.push_path("f".to_string(), Origin::TopLevelDefinition(name(3)), at(1));
    let callee = context.push_expr(Expr::Variable(path), at(1));
    let item = context.push_expr(Expr::Call { function: callee, arguments: vec![] }, at(2));
    let mut checker = checker(&facts, context);
    checker.expr_types.insert(item, string());
    checker.drop_discarded_statement_value(item, &number());
    assert!(matches!(checker.context.exprs[item as usize], Expr::Call { .. }));
    checker.drop_discarded_statement_value(item, &string());
    let items = match &checker.context.exprs[item as usize] {
        Expr::Sequence(items) => items.clone(),
        _ => panic!("no sequence"),
    };
    assert_eq!(items.len(), 2);
    let temporary = dropped(&checker, items[1]);
    match &checker.context.exprs[items[0] as usize] {
        Expr::Definition(definition) => {
            assert!(matches!(checker.context.exprs[definition.rhs as usize], Expr::Call { .. }));
            assert!(matches!(
                checker.context.patterns[definition.pattern as usize],
                Pattern::Variable(name) if name == temporary
            ));
        },
        _ => panic!("no definition"),
    }
    assert_eq!(checker.context.names[temporary as usize], "drop_tmp");
    assert_eq!(checker.expr_types[&item], unit());
}

#[test]
fn a_temporary_that_is_referred_to_outlives_its_call() {
    let facts = facts();
    let mut context = Context::new();
    let (x, _) = local(&mut context, "x");
    let place = variable(&mut context, x, 1);
    let path = context.push_path("f".to_string(), Origin::TopLevelDefinition(name(3)), at(1));
    let callee = context.push_expr(Expr::Variable(path), at(1));
    let call = context.push_expr(Expr::Call { function: callee, arguments: vec![] }, at(2));
    let mut checker = checker(&facts, context);
    checker.expr_types.insert(call, string());
    // Outside of an argument, or where there is an owner already, nothing is bound.
    assert_eq!(checker.bind_autoref_temp_for_drop(call, &string(), at(3)), call);
    checker.call_argument_depth = 1;
    assert_eq!(checker.bind_autoref_temp_for_drop(place, &string(), at(3)), place);
    let block = checker.bind_autoref_temp_for_drop(call, &string(), at(3));
    assert_ne!(block, call);
    assert!(matches!(checker.context.exprs[block as usize], Expr::Sequence(_)));
    assert_eq!(checker.pending_autoref_temp_drops.len(), 1);
    let temporary = dropped(&checker, checker.pending_autoref_temp_drops[0]);
    assert_eq!(checker.context.names[temporary as usize], "autoref_tmp");
}

#[test]
fn escapes_are_checked_only_where_drops_are_elaborated() {
    let mut facts = facts();
    facts.database.auto_drop = false;
    let mut context = Context::new();
    let (x, _) = local(&mut context, "x");
    let target = variable(&mut context, x, 1);
    let reference = context.push_expr(Expr::Reference { kind: ReferenceKind::Ref, rhs: target }, at(2));
    let mut checker = checker(&facts, context);
    checker.name_types.insert(x, string());
    checker.function_local_names.push(vec![x]);
    checker.check_reference_escape(reference);
    assert!(checker.diagnostics.is_empty());
}

#[test]
fn a_branch_that_resumes_is_recognised() {
    let facts = facts();
    let (context, lambda, names) = lambda_context();
    let checker = checker(&facts, context);
    assert!(checker.handler_branch_uses_resume(names[1], lambda));
    assert!(!checker.handler_branch_uses_resume(names[3], lambda));
}

#[test]
fn moved_parts_are_left_out_of_a_drop() {
    let mut facts = facts();
    let pair = user_type(62);
    facts.database.items.push(item(62), type_item(false));
    let fields = vec![("a".to_string(), string()), ("b".to_string(), string())];
    facts.database.type_bodies.push((item(62), TypeList::Nil), ante_passes::database::TypeBody::Product(fields));
    let mut listed = Vec::new();
    for (index, text) in ["a", "b"].iter().enumerate() {
        listed.push(ante_passes::database::FieldType {
            name: text.to_string(),
            typ: string(),
            index: index as u32,
        });
    }
    facts.database.field_types.push(pair.clone(), listed);
    let mut context = Context::new();
    let (x, _) = local(&mut context, "x");
    let mut checker = checker(&facts, context);
    checker.name_types.insert(x, pair.clone());
    let place = MovePath::Variable(x);
    let whole = checker.try_synthesize_drop_for_place(&place, &pair, at(1)).unwrap();
    let count = |checker: &TypeChecker, expr: u32| match &checker.context.exprs[expr as usize] {
        Expr::Sequence(items) => items.len(),
        _ => 1,
    };
    assert_eq!(count(&checker, whole), 2);
    let mut moved = MoveTracker::default();
    moved.record_move(MovePath::field(MovePath::Variable(x), "a".to_string()), at(2));
    let rest = checker.synthesize_partial_drop(&place, &pair, &moved, at(3)).unwrap();
    assert_eq!(count(&checker, rest), 1);
    moved.record_move(MovePath::field(MovePath::Variable(x), "b".to_string()), at(2));
    assert!(checker.synthesize_partial_drop(&place, &pair, &moved, at(3)).is_none());
}

#[test]
fn a_handle_is_released_whatever_was_moved() {
    let facts = facts();
    let mut context = Context::new();
    let (x, _) = local(&mut context, "x");
    let mut checker = checker(&facts, context);
    checker.name_types.insert(x, user_type(NODE));
    checker.bindings.insert(3, Type::Variable(4));
    checker.bindings.insert(4, user_type(NODE));
    let place = MovePath::Variable(x);
    let mut moved = MoveTracker::default();
    moved.record_move(MovePath::Variable(x), at(2));
    moved.record_move(MovePath::field(MovePath::Variable(x), "a".to_string()), at(2));
    for typ in [user_type(NODE), Type::Variable(3)] {
        let drop = checker.synthesize_partial_drop(&place, &typ, &moved, at(3)).unwrap();
        let callee = match &checker.context.exprs[drop as usize] {
            Expr::Call { function, .. } => match &checker.context.exprs[*function as usize] {
                Expr::Variable(path) => checker.context.path_origins[path],
                _ => panic!("no function"),
            },
            _ => panic!("no call"),
        };
        let release = TopLevelName { top_level_item: item(NODE), local_name_id: RELEASE_FUNCTION };
        assert_eq!(callee, Origin::TopLevelDefinition(release));
        assert_eq!(checker.drop_expansion_depth, 0);
    }
}

#[test]
fn what_left_a_payload_is_not_dropped_with_it() {
    let mut facts = facts();
    let pair = user_type(62);
    let result = user_type(63);
    facts.database.items.push(item(62), type_item(false));
    let fields = vec![("a".to_string(), string()), ("b".to_string(), string())];
    facts.database.type_bodies.push((item(62), TypeList::Nil), ante_passes::database::TypeBody::Product(fields));
    let mut listed = Vec::new();
    for (index, text) in ["a", "b"].iter().enumerate() {
        listed.push(ante_passes::database::FieldType {
            name: text.to_string(),
            typ: string(),
            index: index as u32,
        });
    }
    facts.database.field_types.push(pair.clone(), listed);
    let definition = TypeDefinition {
        name: 0,
        generics: vec![],
        shared: false,
        mutable: false,
        kind: AbilityKind::NotAbility,
        body: TypeDefinitionBody::Enum(vec![4]),
    };
    facts.database.items.push(item(63), ItemKind::TypeDefinition(definition));
    let variants = vec![("Ok".to_string(), vec![pair])];
    facts.database.type_bodies.push((item(63), TypeList::Nil), ante_passes::database::TypeBody::Sum(variants));
    let mut context = Context::new();
    let (x, _) = local(&mut context, "x");
    let mut checker = checker(&facts, context);
    checker.name_types.insert(x, result.clone());
    let place = MovePath::Variable(x);
    let calls = |checker: &TypeChecker| {
        checker.context.exprs.iter().filter(|expr| matches!(expr, Expr::Call { .. })).count()
    };
    let mut moved = MoveTracker::default();
    let payload = MovePath::field(MovePath::Variable(x), "Ok#0".to_string());
    moved.record_move(MovePath::field(payload.clone(), "a".to_string()), at(2));
    let rest = checker.synthesize_partial_drop(&place, &result, &moved, at(3)).unwrap();
    assert!(matches!(checker.context.exprs[rest as usize], Expr::Match { .. }));
    assert_eq!(calls(&checker), 1);
    // All of it is dropped where nothing left, and nothing where all of it did.
    assert!(checker.try_synthesize_drop_for_place(&place, &result, at(4)).is_some());
    assert_eq!(calls(&checker), 3);
    moved.record_move(payload, at(5));
    assert!(checker.synthesize_partial_drop(&place, &result, &moved, at(6)).is_none());
    assert_eq!(calls(&checker), 3);
}

#[test]
fn a_release_function_is_told_by_its_name() {
    let release = TypeChecker::get_release_function_name(item(7));
    assert_eq!(release, TopLevelName::new(item(7), RELEASE_FUNCTION));
    assert!(TypeChecker::is_release_function_name(release));
    assert!(!TypeChecker::is_release_function_name(name(7)));
}

#[test]
fn a_definition_may_bind_the_name_of_a_method() {
    let facts = facts();
    let mut context = Context::new();
    let (x, variable_pattern) = local(&mut context, "x");
    let (get, _) = local(&mut context, "get");
    let method = context.push_pattern(Pattern::MethodName { item_name: get }, at(0));
    let annotated = context.push_pattern(Pattern::TypeAnnotation(method), at(0));
    let literal = context.push_pattern(Pattern::Literal, at(0));
    let checker = checker(&facts, context);
    assert_eq!(checker.definition_binding_name(variable_pattern), Some(x));
    assert_eq!(checker.definition_binding_name(annotated), Some(get));
    assert_eq!(checker.definition_binding_name(literal), None);
    assert_eq!(checker.single_variable_pattern(annotated), None);
}

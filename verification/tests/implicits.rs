use ante_passes::collections::Table;
use ante_passes::database::{AbilityKind, Database, ItemKind, TypeDefinition, TypeDefinitionBody};
use ante_passes::definition_collection::visible_implicits::{visible_implicits_impl, Implicits, VisibleImplicits};
use ante_passes::ids::{Origin, TopLevelId, TopLevelName, DROP_IMPL};
use ante_passes::types::{FunctionType, Generic, IntegerKind, Parameters, PrimitiveType, Type, TypeList};

const FILE: u32 = 7;

fn item(index: u32) -> TopLevelId {
    TopLevelId { source_file: FILE, index }
}

fn name(index: u32) -> TopLevelName {
    TopLevelName { top_level_item: item(index), local_name_id: 0 }
}

fn user_type(index: u32) -> Type {
    Type::UserDefined(Origin::TopLevelDefinition(name(index)))
}

fn applied(constructor: Type, argument: Type) -> Type {
    Type::Application(Box::new(constructor), Box::new(TypeList::Cons(Box::new(argument), Box::new(TypeList::Nil))))
}

fn number() -> Type {
    Type::Primitive(PrimitiveType::Int(IntegerKind::I32))
}

fn generic() -> Type {
    Type::Generic(Generic::Named(Origin::Local(3)))
}

fn returning(return_type: Type) -> Type {
    Type::Function(Box::new(FunctionType {
        parameters: Parameters::Cons(true, Box::new(generic()), Box::new(Parameters::Nil)),
        environment: Type::Primitive(PrimitiveType::NoClosureEnv),
        return_type,
        effects: Type::Effects(Box::new(TypeList::Nil), None),
    }))
}

fn implicit_definition(partial_type: Type, type_is_derivable: bool) -> ItemKind {
    ItemKind::Definition { implicit: true, type_is_derivable, partial_type, is_extern: false }
}

fn shared_type() -> ItemKind {
    ItemKind::TypeDefinition(TypeDefinition {
        name: 0,
        generics: vec![],
        shared: true,
        mutable: false,
        kind: AbilityKind::NotAbility,
        body: TypeDefinitionBody::Struct(vec![]),
    })
}

/// A program whose file sees the given definitions, each named by its index.
fn database(auto_drop: bool, definitions: Vec<(u32, ItemKind)>) -> Database {
    let mut db = Database::new(auto_drop);
    let mut visible = Vec::new();
    for (index, kind) in definitions {
        visible.push((format!("d{index}"), name(index)));
        db.items.push(item(index), kind);
    }
    db.visible_definitions = Table::new();
    db.visible_definitions.push(FILE, visible);
    // The ability `Drop` is item 50.
    db.exported_types.push(0, vec![("Drop".to_string(), name(50))]);
    db
}

const PRINT: u32 = 40;

fn candidates(implicits: &Implicits, target: &Type) -> Vec<String> {
    let mut names = Vec::new();
    implicits.iter_possibly_matching_impls(target, |name, _| {
        names.push(name.clone());
        false
    });
    names
}

fn print_database() -> Database {
    database(
        false,
        vec![
            (1, implicit_definition(applied(user_type(PRINT), number()), true)),
            (2, implicit_definition(applied(user_type(PRINT), generic()), true)),
            (3, implicit_definition(generic(), true)),
            (4, implicit_definition(applied(user_type(41), number()), true)),
            (5, implicit_definition(returning(applied(user_type(PRINT), Type::Primitive(PrimitiveType::Bool))), true)),
            (6, implicit_definition(applied(user_type(PRINT), number()), false)),
            (7, ItemKind::Definition { implicit: false, type_is_derivable: true, partial_type: number(), is_extern: false }),
        ],
    )
}

#[test]
fn a_known_argument_finds_its_key_then_generics_then_unknown_abilities() {
    let implicits = visible_implicits_impl(&VisibleImplicits(FILE), &print_database());
    assert_eq!(candidates(&implicits, &applied(user_type(PRINT), number())), vec!["d1", "d2", "d3"]);
}

#[test]
fn a_function_is_filed_as_a_function_and_under_what_it_returns() {
    let implicits = visible_implicits_impl(&VisibleImplicits(FILE), &print_database());
    let boolean = Type::Primitive(PrimitiveType::Bool);
    assert_eq!(candidates(&implicits, &applied(user_type(PRINT), boolean)), vec!["d5", "d2", "d3"]);
    assert_eq!(candidates(&implicits, &applied(user_type(PRINT), returning(number()))), vec!["d5", "d2", "d3"]);
}

#[test]
fn an_unknown_argument_finds_every_impl_of_the_ability() {
    let implicits = visible_implicits_impl(&VisibleImplicits(FILE), &print_database());
    let mut found = candidates(&implicits, &applied(user_type(PRINT), generic()));
    found.sort();
    assert_eq!(found, vec!["d1", "d2", "d3", "d5", "d5"]);
}

#[test]
fn an_unknown_ability_finds_everything() {
    let implicits = visible_implicits_impl(&VisibleImplicits(FILE), &print_database());
    let mut found = candidates(&implicits, &generic());
    found.sort();
    assert_eq!(found, vec!["d1", "d2", "d3", "d4", "d5", "d5"]);
}

#[test]
fn an_implicit_whose_type_is_not_derivable_is_no_candidate() {
    let implicits = visible_implicits_impl(&VisibleImplicits(FILE), &print_database());
    assert!(!candidates(&implicits, &generic()).contains(&"d6".to_string()));
    assert!(!candidates(&implicits, &generic()).contains(&"d7".to_string()));
}

#[test]
fn the_search_ends_where_it_is_told_to() {
    let implicits = visible_implicits_impl(&VisibleImplicits(FILE), &print_database());
    let mut seen = Vec::new();
    implicits.iter_possibly_matching_impls(&applied(user_type(PRINT), number()), |name, id| {
        seen.push((name.clone(), *id));
        name == "d2"
    });
    assert_eq!(seen, vec![("d1".to_string(), name(1)), ("d2".to_string(), name(2))]);
}

#[test]
fn at_most_one_candidate_counts_all_that_may_match() {
    let implicits = visible_implicits_impl(&VisibleImplicits(FILE), &print_database());
    assert!(!implicits.at_most_1_candidate(&applied(user_type(PRINT), number())));
    // Only the implicit of an unknown ability may match an ability without impls.
    assert!(implicits.at_most_1_candidate(&applied(user_type(45), number())));
    // The impl for another type does not count, the one of an unknown ability does.
    assert!(implicits.at_most_1_candidate(&applied(user_type(41), Type::Primitive(PrimitiveType::Char))));
    assert!(!implicits.at_most_1_candidate(&applied(user_type(41), number())));
    assert!(!implicits.at_most_1_candidate(&generic()));
    assert!(Implicits::new().at_most_1_candidate(&generic()));
}

#[test]
fn a_constrained_impl_is_one_candidate() {
    let vec_type = applied(user_type(42), generic());
    let db = database(false, vec![(1, implicit_definition(returning(applied(user_type(PRINT), vec_type)), true))]);
    let implicits = visible_implicits_impl(&VisibleImplicits(FILE), &db);
    // It is filed as a function and as what it returns: the search comes upon it twice, and it is
    // one candidate.
    let unknown = applied(user_type(PRINT), Type::Variable(9));
    assert!(implicits.at_most_1_candidate(&unknown));
    assert_eq!(candidates(&implicits, &unknown), vec!["d1", "d1"]);
    assert_eq!(implicits.possibly_matching_ids(&unknown), vec![name(1), name(1)]);
    assert!(implicits.at_most_1_candidate(&Type::Variable(9)));
    assert_eq!(candidates(&implicits, &Type::Variable(9)), vec!["d1", "d1"]);
    assert_eq!(implicits.known_ability_to_impls[0].1.type_to_impls.len(), 2);
}

#[test]
fn an_implicit_stands_only_where_its_type_says() {
    let implicits = visible_implicits_impl(&VisibleImplicits(FILE), &print_database());
    let listed = |names: &Vec<ante_passes::definition_collection::visible_implicits::Implicit>| {
        names.iter().map(|implicit| implicit.name.clone()).collect::<Vec<String>>()
    };
    let (ability, print) = &implicits.known_ability_to_impls[0];
    assert_eq!(*ability, item(PRINT));
    let under: Vec<Vec<String>> = print.type_to_impls.iter().map(|entry| listed(&entry.1)).collect();
    // Under `Bool`, under `I32` and under functions.
    assert_eq!(under, vec![vec!["d5"], vec!["d1"], vec!["d5"]]);
    assert_eq!(listed(&print.generic_type_impls), vec!["d2"]);
    assert_eq!(listed(&implicits.unknown_ability_to_impls), vec!["d3"]);
    assert!(implicits.shared_drop_impls.is_empty());
}

#[test]
fn a_constrained_impl_for_functions_is_one_candidate() {
    let db = database(
        false,
        vec![(1, implicit_definition(returning(applied(user_type(PRINT), returning(number()))), true))],
    );
    let implicits = visible_implicits_impl(&VisibleImplicits(FILE), &db);
    let wanted = applied(user_type(PRINT), returning(generic()));
    assert!(implicits.at_most_1_candidate(&wanted));
    assert_eq!(candidates(&implicits, &wanted), vec!["d1", "d1"]);
}

fn shared_database(auto_drop: bool) -> Database {
    let mut db = database(
        auto_drop,
        vec![
            (1, implicit_definition(applied(user_type(50), user_type(60)), true)),
            (2, implicit_definition(applied(user_type(50), number()), true)),
        ],
    );
    db.items.push(item(60), shared_type());
    db.visible_types.push(FILE, vec![("Node".to_string(), name(60))]);
    db
}

#[test]
fn a_drop_impl_of_a_shared_type_is_held_aside() {
    let implicits = visible_implicits_impl(&VisibleImplicits(FILE), &shared_database(true));
    assert_eq!(implicits.shared_drop_impl(item(60)), Some(name(1)));
    assert_eq!(implicits.shared_drop_impl(item(61)), None);
    // The witness is the release of the type.
    let mut found = Vec::new();
    implicits.iter_possibly_matching_impls(&applied(user_type(50), user_type(60)), |name, id| {
        found.push((name.clone(), *id));
        false
    });
    let witness = TopLevelName { top_level_item: item(60), local_name_id: DROP_IMPL };
    assert_eq!(found, vec![("drop_Node".to_string(), witness)]);
    assert_eq!(candidates(&implicits, &applied(user_type(50), number())), vec!["d2"]);
}

#[test]
fn without_auto_drop_shared_types_are_like_others() {
    let implicits = visible_implicits_impl(&VisibleImplicits(FILE), &shared_database(false));
    assert_eq!(implicits.shared_drop_impl(item(60)), None);
    assert_eq!(candidates(&implicits, &applied(user_type(50), user_type(60))), vec!["d1"]);
}

use ante_passes::database::{Database, FieldType};
use ante_passes::text::decimal_text;
use ante_passes::types::{PrimitiveType, Type};

#[test]
fn numbers_are_written_in_decimal() {
    assert_eq!(decimal_text(0), "0");
    assert_eq!(decimal_text(7), "7");
    assert_eq!(decimal_text(1909), "1909");
    assert_eq!(decimal_text(usize::MAX), usize::MAX.to_string());
}

#[test]
fn fields_are_listed_in_the_order_of_the_declaration() {
    let mut database = Database::new(false);
    let typ = Type::Primitive(PrimitiveType::Unit);
    let mut fields = Vec::new();
    for (name, index) in [("c", 2), ("a", 0), ("b", 1)] {
        fields.push(FieldType { name: name.to_string(), typ: typ.clone(), index });
    }
    database.field_types.push(typ.clone(), fields);
    let names: Vec<String> = database.get_field_types(&typ).into_iter().map(|field| field.name).collect();
    assert_eq!(names, vec!["a", "b", "c"]);
    assert!(database.get_field_types(&Type::Primitive(PrimitiveType::Bool)).is_empty());
}

use ante_passes::codegen::cfile::{CFile, GlobalInitializer};

fn file(letter: &str) -> CFile {
    let mut file = CFile::new();
    file.add_type_declaration(&format!("{letter}1"));
    file.add_type_definition(&format!("{letter}2"));
    file.add_function_declaration(&format!("{letter}3"));
    file.add_global_declaration(&format!("{letter}4"));
    file.add_global_definition(&format!("{letter}5"));
    file.add_function_definition(&format!("{letter}6"));
    file
}

#[test]
fn an_empty_file_is_the_newlines_between_its_sections() {
    assert_eq!(CFile::new().into_contents(), "\n\n\n\n\n\n");
}

#[test]
fn sections_come_in_order() {
    assert_eq!(file("a").into_contents(), "\na1\n\na2\n\na3\n\na4\n\na5\n\na6\n");
}

#[test]
fn extending_appends_section_by_section() {
    let joined = file("a").extend(file("b"));
    assert_eq!(
        joined.into_contents(),
        "\na1\nb1\n\na2\nb2\n\na3\nb3\n\na4\nb4\n\na5\nb5\n\na6\nb6\n"
    );
}

#[test]
fn extending_is_associative() {
    let left = file("a").extend(file("b")).extend(file("c"));
    let right = file("a").extend(file("b").extend(file("c")));
    assert_eq!(left.into_contents(), right.into_contents());
}

#[test]
fn extending_by_an_empty_file_changes_nothing() {
    let contents = file("a").into_contents();
    assert_eq!(file("a").extend(CFile::new()).into_contents(), contents);
    assert_eq!(CFile::new().extend(file("a")).into_contents(), contents);
}

#[test]
fn contents_are_as_long_as_sections_and_newlines() {
    assert_eq!(file("a").into_contents().len(), 6 * 3 + 6);
}

#[test]
fn initializers_are_taken_once() {
    let mut first = CFile::new();
    first.add_global_initializer(GlobalInitializer { id: 4, deps: vec![1, 2], statement: "x = y;".to_string() });
    let mut second = CFile::new();
    second.add_global_initializer(GlobalInitializer { id: 9, deps: vec![], statement: "z = 1;".to_string() });
    let mut joined = first.extend(second);
    let taken = joined.take_global_initializers();
    let ids: Vec<u32> = taken.iter().map(|initializer| initializer.id).collect();
    assert_eq!(ids, vec![4, 9]);
    assert_eq!(taken[0].deps, vec![1, 2]);
    assert_eq!(taken[1].statement, "z = 1;");
    assert!(joined.take_global_initializers().is_empty());
    assert_eq!(joined.into_contents(), "\n\n\n\n\n\n");
}

#[test]
fn starter_items_declare_what_programs_need() {
    let contents = CFile::new().add_starter_items().into_contents();
    assert!(contents.starts_with("#include <stdint.h>\n#include <stddef.h>\n#include <stdbool.h>\n#if defined(__FLT32_MANT_DIG__)"));
    assert!(contents.contains("typedef struct { char _unused; } Unit;\n"));
    assert!(contents.contains("#define ANTE_RC_HEADER_SIZE (sizeof(AnteRcHeader))\n#define ANTE_RC_DYING ((size_t)-1)\n"));
    assert!(contents.contains("void* malloc(size_t);\nUnit free(void*);\n"));
    assert!(contents.contains("#define ANTE_NAN() __builtin_nan(\"\")\n"));
    assert!(contents.contains("so the copy would dangle.\\n\";\n    fflush(0);\n    write(2, ante_rc_msg, sizeof(ante_rc_msg) - 1);\n    abort();\n}\n"));
}

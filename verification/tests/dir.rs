use invoke_registry::dir::{solution, tests, with_extension};

#[test]
fn solution_path_joins_stem_and_extension() {
    assert_eq!(solution("/work", "main", "cpp"), "/work/main.cpp");
}

#[test]
fn solution_path_replaces_an_existing_extension() {
    assert_eq!(solution("/work", "main.rs", "cpp"), "/work/main.cpp");
}

#[test]
fn tests_path_joins_the_directory_name() {
    assert_eq!(tests("/work", "tests"), "/work/tests");
    assert_eq!(tests("/work", "examples"), "/work/examples");
}

#[test]
fn with_extension_keeps_hidden_file_names_whole() {
    assert_eq!(with_extension(".hidden", "cpp"), ".hidden.cpp");
    assert_eq!(with_extension("a.b.c", "cpp"), "a.b.cpp");
    assert_eq!(with_extension("plain", ""), "plain");
    assert_eq!(with_extension("plain.old", ""), "plain");
}

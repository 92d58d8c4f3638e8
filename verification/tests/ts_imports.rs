use suigen::ts_imports::{
    format_typed_import, generate_type_declarations_imports, import_statement_lines, ts_import,
    typescript_imports_content, TypedImport, TYPE_DECLARATIONS_IMPORTS,
};

fn aliased(module: &str, name: &str, alias: &str, type_only: bool) -> TypedImport {
    TypedImport {
        module: module.to_string(),
        name: name.to_string(),
        alias: Some(alias.to_string()),
        is_type_only: type_only,
    }
}

#[test]
fn ts_import_has_no_alias() {
    let imp = ts_import("@mysten/sui/bcs", "bcs", false);
    assert_eq!(imp.module, "@mysten/sui/bcs");
    assert_eq!(imp.name, "bcs");
    assert_eq!(imp.alias, None);
    assert!(!imp.is_type_only);
    let typed = ts_import("../util", "FieldsWithTypes", true);
    assert!(typed.is_type_only);
}

#[test]
fn clone_keeps_every_field() {
    let imp = aliased("m", "A", "B", true);
    let copy = imp.clone();
    assert_eq!(copy.module, "m");
    assert_eq!(copy.name, "A");
    assert_eq!(copy.alias, Some("B".to_string()));
    assert!(copy.is_type_only);
}

#[test]
fn type_declarations_imports_text() {
    let text = generate_type_declarations_imports();
    assert_eq!(text, TYPE_DECLARATIONS_IMPORTS);
    assert!(text.starts_with("\n// Type-only imports\nimport type {\n    PhantomReified,\n"));
    assert!(text.ends_with(
        "import type { TransactionArgument, TransactionObjectInput } from \"@mysten/sui/transactions\";\n"
    ));
    assert!(text.contains("} from \"../../_framework/reified\";\n\nimport type { FieldsWithTypes } from \"../../_framework/util\";\n"));
}

#[test]
fn no_imports_no_statements() {
    assert!(import_statement_lines(&[]).is_empty());
    assert_eq!(typescript_imports_content(&[]), "");
}

#[test]
fn imports_are_grouped_by_module_and_kind() {
    let imports = vec![
        ts_import("m", "A", false),
        ts_import("n", "B", true),
        ts_import("m", "C", false),
        ts_import("m", "D", true),
        aliased("n", "E", "F", false),
        aliased("m", "G", "H", true),
    ];
    let lines = import_statement_lines(&imports);
    assert_eq!(
        lines,
        vec![
            "import { A, C } from \"m\";".to_string(),
            "import type { D, G as H } from \"m\";".to_string(),
            "import { E as F } from \"n\";".to_string(),
            "import type { B } from \"n\";".to_string(),
        ]
    );
}

#[test]
fn imports_file_content_has_one_statement_per_line() {
    let imports = vec![
        ts_import("../../_framework/util", "FieldsWithTypes", true),
        ts_import("@mysten/sui/bcs", "bcs", false),
        ts_import("../../_framework/util", "compressSuiType", false),
    ];
    assert_eq!(
        typescript_imports_content(&imports),
        "import { compressSuiType } from \"../../_framework/util\";\n\
         import type { FieldsWithTypes } from \"../../_framework/util\";\n\
         import { bcs } from \"@mysten/sui/bcs\";\n"
    );
}

#[test]
fn only_type_imports_give_only_a_type_statement() {
    let imports = vec![ts_import("x", "T", true), ts_import("x", "U", true)];
    assert_eq!(typescript_imports_content(&imports), "import type { T, U } from \"x\";\n");
}

#[test]
fn format_typed_import_renders_the_statements() {
    let imports = vec![
        ts_import("m", "A", false),
        ts_import("m", "B", true),
        aliased("n", "C", "D", false),
    ];
    let tokens = format_typed_import(&imports);
    let rendered = tokens.tokens.to_file_string().unwrap();
    assert_eq!(
        rendered,
        "import { A } from \"m\";\nimport type { B } from \"m\";\nimport { C as D } from \"n\";\n"
    );
    assert_eq!(rendered, typescript_imports_content(&imports));
}

#[test]
fn format_typed_import_of_nothing_is_empty() {
    let tokens = format_typed_import(&[]);
    assert!(tokens.tokens.is_empty());
}

#[test]
fn regrouped_imports_give_the_same_statements() {
    let imports = vec![
        ts_import("m", "A", false),
        ts_import("n", "B", true),
        ts_import("m", "C", false),
        ts_import("m", "D", true),
    ];
    let regrouped = vec![
        ts_import("m", "D", true),
        ts_import("n", "B", true),
        ts_import("m", "A", false),
        ts_import("m", "C", false),
    ];
    let mut first = import_statement_lines(&imports);
    let mut second = import_statement_lines(&regrouped);
    first.sort();
    second.sort();
    assert_eq!(first, second);
}

#[test]
fn format_typed_import_pushes_after_each_statement() {
    let imports = vec![
        ts_import("./a", "X", false),
        ts_import("./a", "Y", true),
        aliased("./a", "Z", "W", false),
    ];
    let tokens = format_typed_import(&imports);
    let mut expected = genco::lang::js::Tokens::new();
    expected.append("import { X, Z as W } from \"./a\";".to_string());
    expected.push();
    expected.append("import type { Y } from \"./a\";".to_string());
    expected.push();
    assert!(tokens.tokens == expected);
}

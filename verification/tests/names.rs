use suigen::names::{pascal_case_path, safe_import_name};

fn reserved() -> Vec<String> {
    vec!["delete".to_string(), "class".to_string(), "new".to_string()]
}

#[test]
fn snake_case_names_become_pascal_case() {
    assert_eq!(pascal_case_path(&"my_package".to_string()), "MyPackage");
    assert_eq!(pascal_case_path(&"sui_system".to_string()), "SuiSystem");
}

#[test]
fn camel_case_names_become_pascal_case() {
    assert_eq!(pascal_case_path(&"suiSystem".to_string()), "SuiSystem");
    assert_eq!(pascal_case_path(&"sui".to_string()), "Sui");
    assert_eq!(pascal_case_path(&"Deepbook".to_string()), "Deepbook");
}

#[test]
fn reserved_words_get_a_suffix() {
    assert_eq!(safe_import_name(&"delete".to_string(), &reserved(), "_pkg"), "delete_pkg");
    assert_eq!(safe_import_name(&"new".to_string(), &reserved(), "_mod"), "new_mod");
}

#[test]
fn other_names_stay() {
    assert_eq!(safe_import_name(&"coin".to_string(), &reserved(), "_mod"), "coin");
    assert_eq!(safe_import_name(&"deleted".to_string(), &reserved(), "_pkg"), "deleted");
    assert_eq!(safe_import_name(&"class".to_string(), &[], "_pkg"), "class");
}

use suigen::barrel::{
    exported_file_stem, module_barrel_content, module_export_stems, top_level_barrel_content,
    DirEntryName, ModuleFile, TopLevelPackage,
};

fn pkg(name: &str, import_name: &str) -> TopLevelPackage {
    TopLevelPackage { name: name.to_string(), import_name: import_name.to_string() }
}

fn file(name: &str) -> DirEntryName {
    DirEntryName { file_name: name.to_string(), is_file: true }
}

fn reserved() -> Vec<String> {
    vec!["package".to_string(), "delete".to_string()]
}

#[test]
fn top_level_barrel_exports_source_then_on_chain() {
    let source = vec![pkg("my_pkg", "myPkg")];
    let on_chain = vec![pkg("deepbook", "deepbook"), pkg("package", "package")];
    assert_eq!(
        top_level_barrel_content(&source, &on_chain, &reserved()),
        "// Package exports\n\
         export * as myPkg from './MyPkg';\n\
         export * as deepbook from './Deepbook';\n\
         export * as package_pkg from './Package';\n"
    );
}

#[test]
fn top_level_barrel_skips_names_already_exported() {
    let source = vec![pkg("amm", "amm"), pkg("amm_v2", "ammV2")];
    let on_chain = vec![pkg("amm", "amm"), pkg("other", "ammV2")];
    assert_eq!(
        top_level_barrel_content(&source, &on_chain, &reserved()),
        "// Package exports\nexport * as amm from './Amm';\nexport * as ammV2 from './AmmV2';\n"
    );
}

#[test]
fn top_level_barrel_of_nothing_is_empty() {
    assert_eq!(top_level_barrel_content(&[], &[], &reserved()), "");
}

#[test]
fn module_files_that_are_exported() {
    assert_eq!(exported_file_stem(&file("structs.ts")), Some("structs".to_string()));
    assert_eq!(exported_file_stem(&file("a.b.ts")), Some("a.b".to_string()));
    assert_eq!(exported_file_stem(&file("index.ts")), None);
    assert_eq!(exported_file_stem(&file(".ts")), None);
    assert_eq!(exported_file_stem(&file("notes.js")), None);
    assert_eq!(exported_file_stem(&file("ts")), None);
    assert_eq!(exported_file_stem(&file("x.tsx")), None);
    assert_eq!(
        exported_file_stem(&DirEntryName { file_name: "dir.ts".to_string(), is_file: false }),
        None
    );
}

#[test]
fn module_export_stems_keep_order() {
    let entries = vec![file("structs.ts"), file("index.ts"), file("functions.ts"), file("README.md")];
    assert_eq!(module_export_stems(&entries), vec!["structs".to_string(), "functions".to_string()]);
}

#[test]
fn module_barrel_lines() {
    let files = vec![
        ModuleFile { stem: "structs".to_string(), import_name: "structs".to_string() },
        ModuleFile { stem: "extra_stuff".to_string(), import_name: "extraStuff".to_string() },
        ModuleFile { stem: "functions".to_string(), import_name: "functions".to_string() },
    ];
    assert_eq!(
        module_barrel_content(&files),
        "export * from './structs';\nexport * as extraStuff from './extra_stuff';\nexport * from './functions';\n"
    );
    assert_eq!(module_barrel_content(&[]), "");
}

#[test]
fn listing_again_with_index_gives_the_same_stems() {
    let entries = vec![file("structs.ts"), file("functions.ts")];
    let again = vec![file("index.ts"), file("functions.ts"), file("structs.ts")];
    let mut first = module_export_stems(&entries);
    let mut second = module_export_stems(&again);
    first.sort();
    second.sort();
    assert_eq!(first, second);
}

#[test]
fn listing_again_with_index_gives_the_same_barrel_lines() {
    let again = vec![file("index.ts"), file("extra.ts"), file("structs.ts")];
    let entries = vec![file("structs.ts"), file("extra.ts")];
    let to_files = |stems: Vec<String>| -> Vec<ModuleFile> {
        stems.into_iter().map(|s| ModuleFile { import_name: s.to_uppercase(), stem: s }).collect()
    };
    let first = module_barrel_content(&to_files(module_export_stems(&entries)));
    let second = module_barrel_content(&to_files(module_export_stems(&again)));
    let mut a: Vec<&str> = first.lines().collect();
    let mut b: Vec<&str> = second.lines().collect();
    a.sort();
    b.sort();
    assert_eq!(a, b);
}

use suigen::address::hex_literal;
use suigen::barrel::DirEntryName;
use suigen::packages::{
    is_kept_on_clean, modules_to_generate, package_constants_content, package_dir_components,
    package_index_content, plan_package, resolve_top_level_pkg_addr_map, ManifestPackage,
    ModuleInfo, PackageIdName, PackageKind, PackageVersion,
};

fn address(last: u8) -> [u8; 32] {
    let mut a = [0u8; 32];
    a[31] = last;
    a
}

fn id(last: u8, name: &str) -> PackageIdName {
    PackageIdName { address: address(last), name: name.to_string() }
}

fn module(name: &str, import_name: &str, has_functions: bool, has_structs: bool) -> ModuleInfo {
    ModuleInfo {
        name: name.to_string(),
        import_name: import_name.to_string(),
        has_functions,
        has_structs,
    }
}

fn reserved() -> Vec<String> {
    vec!["delete".to_string(), "package".to_string()]
}

#[test]
fn hex_literals_of_addresses() {
    assert_eq!(hex_literal(&[0u8; 32]), "0x0");
    assert_eq!(hex_literal(&address(2)), "0x2");
    assert_eq!(hex_literal(&address(0xde)), "0xde");
    let mut a = [0u8; 32];
    a[30] = 0x01;
    a[31] = 0xab;
    assert_eq!(hex_literal(&a), "0x1ab");
    let full = [0xffu8; 32];
    assert_eq!(hex_literal(&full), format!("0x{}", "f".repeat(64)));
    let mut b = [0u8; 32];
    b[0] = 0x0c;
    assert_eq!(hex_literal(&b), format!("0xc{}", "0".repeat(62)));
}

#[test]
fn top_level_maps_follow_the_manifest() {
    let manifest = vec![
        ManifestPackage { name: "amm".to_string(), kind: PackageKind::Dependency },
        ManifestPackage { name: "deepbook".to_string(), kind: PackageKind::OnChain },
    ];
    let source = Some(vec![id(1, "MoveStdlib"), id(5, "amm"), id(9, "deepbook")]);
    let on_chain = Some(vec![id(2, "Sui"), id(6, "amm"), id(0xde, "deepbook")]);
    let (s, o) = resolve_top_level_pkg_addr_map(&source, &on_chain, &manifest);
    assert_eq!(s.len(), 1);
    assert_eq!((s[0].address, s[0].name.as_str()), (address(5), "amm"));
    assert_eq!(o.len(), 1);
    assert_eq!((o[0].address, o[0].name.as_str()), (address(0xde), "deepbook"));
}

#[test]
fn top_level_maps_keep_address_order() {
    let manifest = vec![
        ManifestPackage { name: "a".to_string(), kind: PackageKind::Dependency },
        ManifestPackage { name: "c".to_string(), kind: PackageKind::Dependency },
    ];
    let source = Some(vec![id(2, "a"), id(0x10, "b"), id(0x20, "c")]);
    let (s, o) = resolve_top_level_pkg_addr_map(&source, &None, &manifest);
    assert!(o.is_empty());
    let names: Vec<&str> = s.iter().map(|p| p.name.as_str()).collect();
    assert_eq!(names, vec!["a", "c"]);
    assert!(s[0].address < s[1].address);
}

#[test]
fn no_model_no_top_level_map() {
    let manifest = vec![ManifestPackage { name: "amm".to_string(), kind: PackageKind::Dependency }];
    let (s, o) = resolve_top_level_pkg_addr_map(&None, &None, &manifest);
    assert!(s.is_empty());
    assert!(o.is_empty());
}

#[test]
fn constants_with_versions() {
    let versions = vec![
        PackageVersion { published_at: address(0xaa), version: 1 },
        PackageVersion { published_at: address(0xbb), version: 1234567890 },
    ];
    assert_eq!(
        package_constants_content(&address(5), Some(&address(0xbb)), &versions),
        "export const PACKAGE_ID = '0x5';\n\
         export const PUBLISHED_AT = '0xbb';\n\
         export const PKG_V1 = '0xaa';\n\
         export const PKG_V1234567890 = '0xbb';\n"
    );
}

#[test]
fn constants_published_at_defaults_to_id() {
    let versions = vec![PackageVersion { published_at: address(5), version: 0 }];
    assert_eq!(
        package_constants_content(&address(5), None, &versions),
        "export const PACKAGE_ID = '0x5';\nexport const PUBLISHED_AT = '0x5';\nexport const PKG_V0 = '0x5';\n"
    );
}

#[test]
fn decimal_of_large_versions() {
    let versions = vec![PackageVersion { published_at: address(1), version: u64::MAX }];
    let text = package_constants_content(&address(1), None, &versions);
    assert!(text.ends_with("export const PKG_V18446744073709551615 = '0x1';\n"));
}

#[test]
fn only_modules_with_code_are_generated() {
    let modules = vec![
        module("pool", "pool", true, true),
        module("empty", "empty", false, false),
        module("events", "events", false, true),
        module("math", "math", true, false),
    ];
    let top_level: Vec<String> = modules_to_generate(&modules, true).into_iter().map(|m| m.name).collect();
    assert_eq!(top_level, vec!["pool", "events", "math"]);
    let dependency: Vec<String> = modules_to_generate(&modules, false).into_iter().map(|m| m.name).collect();
    assert_eq!(dependency, vec!["pool", "events"]);
}

#[test]
fn package_index_lists_modules() {
    let modules = vec![module("pool", "pool", true, true), module("delete", "delete", true, false)];
    assert_eq!(
        package_index_content(&modules, &reserved()),
        "// Re-export package constants\nexport * from './constants';\n\n\
         // Module exports\n\
         export * as pool from './pool';\n\
         export * as delete_mod from './delete';\n"
    );
}

#[test]
fn package_index_without_modules() {
    assert_eq!(
        package_index_content(&[], &reserved()),
        "// Re-export package constants\nexport * from './constants';\n\n"
    );
}

#[test]
fn package_directories() {
    assert_eq!(
        package_dir_components(&address(5), Some(&"my_amm".to_string()), true),
        vec!["MyAmm".to_string()]
    );
    assert_eq!(
        package_dir_components(&address(5), None, true),
        vec!["_dependencies".to_string(), "source".to_string(), "0x5".to_string()]
    );
    assert_eq!(
        package_dir_components(&address(2), None, false),
        vec!["_dependencies".to_string(), "onchain".to_string(), "0x2".to_string()]
    );
}

#[test]
fn plan_of_a_dependency() {
    let modules = vec![
        module("coin", "coin", true, true),
        module("empty", "empty", false, false),
        module("math", "math", true, false),
    ];
    let versions = vec![PackageVersion { published_at: address(2), version: 1 }];
    let plan = plan_package(&address(2), None, None, &versions, &modules, false, &reserved());
    assert_eq!(plan.dir, vec!["_dependencies".to_string(), "onchain".to_string(), "0x2".to_string()]);
    assert_eq!(plan.levels_from_root, 2);
    assert!(!plan.is_top_level);
    assert_eq!(
        plan.constants,
        "export const PACKAGE_ID = '0x2';\nexport const PUBLISHED_AT = '0x2';\nexport const PKG_V1 = '0x2';\n"
    );
    assert_eq!(plan.modules.len(), 1);
    assert_eq!(plan.modules[0].name, "coin");
    assert!(plan.index.ends_with("// Module exports\nexport * as coin from './coin';\n"));
    assert!(!plan.index.contains("math"));
}

#[test]
fn plan_of_a_top_level_package() {
    let modules = vec![module("math", "math", true, false)];
    let plan = plan_package(
        &address(5),
        Some(&"amm".to_string()),
        Some(&address(7)),
        &[],
        &modules,
        true,
        &reserved(),
    );
    assert_eq!(plan.dir, vec!["Amm".to_string()]);
    assert_eq!(plan.levels_from_root, 0);
    assert!(plan.is_top_level);
    assert_eq!(plan.constants, "export const PACKAGE_ID = '0x5';\nexport const PUBLISHED_AT = '0x7';\n");
    assert_eq!(
        plan.index,
        "// Re-export package constants\nexport * from './constants';\n\n// Module exports\nexport * as math from './math';\n"
    );
    assert_eq!(plan.modules.len(), 1);
}

#[test]
fn clean_keeps_only_the_manifest_file() {
    let entry = |name: &str, is_file: bool| DirEntryName { file_name: name.to_string(), is_file };
    assert!(is_kept_on_clean(&entry("gen.toml", true)));
    assert!(!is_kept_on_clean(&entry("gen.toml", false)));
    assert!(!is_kept_on_clean(&entry("index.ts", true)));
    assert!(!is_kept_on_clean(&entry("_framework", false)));
}

//! The packages of a model: which of them are top-level, where each one is
//! generated, and the text of its `constants.ts` and `index.ts`.

use vstd::prelude::*;

use crate::address::{address_hex_literal, hex_literal};
use crate::barrel::{namespace_export, DirEntryName};
use crate::names::{pascal_case_name, pascal_case_path, safe_import_name, safe_name};
use crate::text::{
    contains_text, lemma_contains_text_concat, lemma_contains_text_self, append_decimal, append_string, contains_string, decimal, lemma_string_views_push,
    string_views,
};

verus! {

/// How the manifest brings in a package.
pub enum PackageKind {
    /// A package built from its sources.
    Dependency,
    /// A package fetched from the chain.
    OnChain,
}

/// A package of the manifest: its name and how it is brought in.
pub struct ManifestPackage {
    pub name: String,
    pub kind: PackageKind,
}

/// A package of a model: its address and its name.
pub struct PackageIdName {
    pub address: [u8; 32],
    pub name: String,
}

/// Whether address `a` comes before address `b`: at the first byte where they
/// differ, `a` holds the smaller byte (the order of Move account addresses).
pub open spec fn address_before(a: Seq<u8>, b: Seq<u8>) -> bool {
    exists|k: int| 0 <= k < a.len() && k < b.len() && a.take(k) == b.take(k) && a[k] < b[k]
}

/// Whether a sequence of packages is in ascending address order, each address
/// once: the order of a map keyed by address.
pub open spec fn in_address_order(ids: Seq<PackageIdName>) -> bool {
    forall|i: int, j: int|
        0 <= i < j < ids.len() ==> address_before(#[trigger] ids[i].address@, #[trigger] ids[j].address@)
}

/// Whether the manifest names `name` as a top-level package of the given kind.
pub open spec fn is_top_level(manifest: Seq<ManifestPackage>, name: Seq<char>, kind: PackageKind) -> bool {
    exists|k: int| 0 <= k < manifest.len() && manifest[k].name@ == name && manifest[k].kind == kind
}

/// The entries of an id map whose names are top-level packages of the given
/// kind, in their order.
pub open spec fn top_level_entries(
    ids: Seq<PackageIdName>,
    manifest: Seq<ManifestPackage>,
    kind: PackageKind,
) -> Seq<PackageIdName>
    decreases ids.len(),
{
    if ids.len() == 0 {
        Seq::empty()
    } else {
        let prev = top_level_entries(ids.drop_last(), manifest, kind);
        if is_top_level(manifest, ids.last().name@, kind) {
            prev.push(ids.last())
        } else {
            prev
        }
    }
}

/// The top-level entries of an optional id map; none without a model.
pub open spec fn top_level_map(
    ids: Option<Seq<PackageIdName>>,
    manifest: Seq<ManifestPackage>,
    kind: PackageKind,
) -> Seq<PackageIdName> {
    match ids {
        Some(ids) => top_level_entries(ids, manifest, kind),
        None => Seq::empty(),
    }
}

fn names_of_kind(manifest: &[ManifestPackage], dependency: bool) -> (res: Vec<String>)
    ensures
        forall|name: Seq<char>|
            string_views(res@).contains(name) <==> is_top_level(
                manifest@,
                name,
                if dependency {
                    PackageKind::Dependency
                } else {
                    PackageKind::OnChain
                },
            ),
{
    let ghost kind = if dependency {
        PackageKind::Dependency
    } else {
        PackageKind::OnChain
    };
    let mut res: Vec<String> = Vec::new();
    let mut j: usize = 0;
    while j < manifest.len()
        invariant
            j <= manifest@.len(),
            kind == (if dependency {
                PackageKind::Dependency
            } else {
                PackageKind::OnChain
            }),
            forall|name: Seq<char>|
                string_views(res@).contains(name) <==> exists|k: int|
                    0 <= k < j && manifest@[k].name@ == name && manifest@[k].kind == kind,
        decreases manifest@.len() - j,
    {
        let pkg = &manifest[j];
        let matches_kind = match pkg.kind {
            PackageKind::Dependency => dependency,
            PackageKind::OnChain => !dependency,
        };
        let ghost old_res = res@;
        if matches_kind {
            proof {
                lemma_string_views_push(res@, pkg.name);
            }
            res.push(pkg.name.clone());
        }
        assert forall|name: Seq<char>|
            string_views(res@).contains(name) <==> exists|k: int|
                0 <= k < j + 1 && manifest@[k].name@ == name && manifest@[k].kind == kind by {
            if matches_kind {
                assert(string_views(res@) == string_views(old_res).push(pkg.name@));
                if name == pkg.name@ {
                    assert(string_views(res@)[old_res.len() as int] == name);
                }
                if string_views(old_res).contains(name) {
                    let i = choose|i: int| 0 <= i < old_res.len() && string_views(old_res)[i] == name;
                    assert(string_views(res@)[i] == name);
                }
                if string_views(res@).contains(name) && name != pkg.name@ {
                    let i = choose|i: int| 0 <= i < res@.len() && string_views(res@)[i] == name;
                    assert(string_views(old_res)[i] == name);
                }
            }
        }
        j += 1;
    }
    res
}

fn filter_top_level(ids: &[PackageIdName], names: &Vec<String>, Ghost(manifest): Ghost<
    Seq<ManifestPackage>,
>, Ghost(kind): Ghost<PackageKind>) -> (res: Vec<PackageIdName>)
    requires
        forall|name: Seq<char>|
            string_views(names@).contains(name) <==> is_top_level(manifest, name, kind),
    ensures
        res@ == top_level_entries(ids@, manifest, kind),
{
    let mut res: Vec<PackageIdName> = Vec::new();
    let mut j: usize = 0;
    while j < ids.len()
        invariant
            j <= ids@.len(),
            forall|name: Seq<char>|
                string_views(names@).contains(name) <==> is_top_level(manifest, name, kind),
            res@ == top_level_entries(ids@.take(j as int), manifest, kind),
        decreases ids@.len() - j,
    {
        assert(ids@.take(j + 1).drop_last() =~= ids@.take(j as int));
        let entry = &ids[j];
        if contains_string(names.as_slice(), &entry.name) {
            res.push(PackageIdName { address: entry.address, name: entry.name.clone() });
        }
        j += 1;
    }
    assert(ids@.take(ids@.len() as int) =~= ids@);
    res
}

/// Creates a mapping between address and package name for top-level packages.
///
/// Of the id map of the source model, the packages that the manifest brings in
/// as dependencies; of that of the on-chain model, those that it brings in
/// on-chain; each in the order of its id map, and empty where there is no model.
/// An id map in ascending address order gives a result in that order too.
pub fn resolve_top_level_pkg_addr_map(
    source_id_map: &Option<Vec<PackageIdName>>,
    on_chain_id_map: &Option<Vec<PackageIdName>>,
    manifest: &[ManifestPackage],
) -> (res: (Vec<PackageIdName>, Vec<PackageIdName>))
    ensures
        res.0@ == top_level_map(
            match source_id_map {
                Some(ids) => Some(ids@),
                None => None,
            },
            manifest@,
            PackageKind::Dependency,
        ),
        res.1@ == top_level_map(
            match on_chain_id_map {
                Some(ids) => Some(ids@),
                None => None,
            },
            manifest@,
            PackageKind::OnChain,
        ),
        (source_id_map matches Some(ids) && in_address_order(ids@)) ==> in_address_order(res.0@),
        (on_chain_id_map matches Some(ids) && in_address_order(ids@)) ==> in_address_order(res.1@),
{
    proof {
        match source_id_map {
            Some(ids) => lemma_top_level_entries_keep_order(ids@, manifest@, PackageKind::Dependency),
            None => {},
        }
        match on_chain_id_map {
            Some(ids) => lemma_top_level_entries_keep_order(ids@, manifest@, PackageKind::OnChain),
            None => {},
        }
    }
    let source_names = names_of_kind(manifest, true);
    let on_chain_names = names_of_kind(manifest, false);
    let source = match source_id_map {
        Some(ids) => filter_top_level(
            ids.as_slice(),
            &source_names,
            Ghost(manifest@),
            Ghost(PackageKind::Dependency),
        ),
        None => Vec::new(),
    };
    let on_chain = match on_chain_id_map {
        Some(ids) => filter_top_level(
            ids.as_slice(),
            &on_chain_names,
            Ghost(manifest@),
            Ghost(PackageKind::OnChain),
        ),
        None => Vec::new(),
    };
    (source, on_chain)
}

/// A version of a package: the address it was published at, and its number.
pub struct PackageVersion {
    pub published_at: [u8; 32],
    pub version: u64,
}

/// `export const PKG_V<version> = '<address>';` and a newline, for each version.
pub open spec fn version_exports(versions: Seq<PackageVersion>) -> Seq<char>
    decreases versions.len(),
{
    if versions.len() == 0 {
        Seq::empty()
    } else {
        let v = versions.last();
        version_exports(versions.drop_last()) + "export const PKG_V"@ + decimal(v.version as nat)
            + " = '"@ + address_hex_literal(v.published_at@) + "';\n"@
    }
}

/// The text of a package's `constants.ts`, all addresses written as hex
/// literals.
pub open spec fn constants_ts(pkg: Seq<u8>, published_at: Seq<u8>, versions: Seq<PackageVersion>) -> Seq<char> {
    "export const PACKAGE_ID = '"@ + address_hex_literal(pkg) + "';\n"@ + "export const PUBLISHED_AT = '"@
        + address_hex_literal(published_at) + "';\n"@ + version_exports(versions)
}

/// The address a package was published at: the one recorded for it, or else
/// its own id.
pub open spec fn published_address(pkg: Seq<u8>, published_at: Option<Seq<u8>>) -> Seq<u8> {
    match published_at {
        Some(address) => address,
        None => pkg,
    }
}

/// The content of a package's `constants.ts`: its id, the address it was
/// published at (its own address where none is recorded), and one constant per
/// version, each address as its hex literal.
pub fn package_constants_content(
    pkg: &[u8; 32],
    published_at: Option<&[u8; 32]>,
    versions: &[PackageVersion],
) -> (res: String)
    ensures
        res@ == constants_ts(
            pkg@,
            published_address(
                pkg@,
                match published_at {
                    Some(a) => Some(a@),
                    None => None,
                },
            ),
            versions@,
        ),
{
    let published = match published_at {
        Some(address) => address,
        None => pkg,
    };
    let mut res = String::new();
    res.append("export const PACKAGE_ID = '");
    let id = hex_literal(pkg);
    append_string(&mut res, &id);
    res.append("';\n");
    res.append("export const PUBLISHED_AT = '");
    let published_id = hex_literal(published);
    append_string(&mut res, &published_id);
    res.append("';\n");
    let ghost head = res@;
    let mut j: usize = 0;
    while j < versions.len()
        invariant
            j <= versions@.len(),
            res@ == head + version_exports(versions@.take(j as int)),
        decreases versions@.len() - j,
    {
        assert(versions@.take(j + 1).drop_last() =~= versions@.take(j as int));
        let v = &versions[j];
        res.append("export const PKG_V");
        append_decimal(&mut res, v.version);
        res.append(" = '");
        let address = hex_literal(&v.published_at);
        append_string(&mut res, &address);
        res.append("';\n");
        j += 1;
    }
    assert(versions@.take(versions@.len() as int) =~= versions@);
    res
}

/// A module of a package: its name, the import name the generator derives
/// from it, and whether it has functions and structs.
pub struct ModuleInfo {
    pub name: String,
    pub import_name: String,
    pub has_functions: bool,
    pub has_structs: bool,
}

impl Clone for ModuleInfo {
    fn clone(&self) -> (res: Self)
        ensures
            res == *self,
    {
        ModuleInfo {
            name: self.name.clone(),
            import_name: self.import_name.clone(),
            has_functions: self.has_functions,
            has_structs: self.has_structs,
        }
    }
}

/// Whether a module gets a file: `structs.ts` where it has a struct, and, in a
/// top-level package, `functions.ts` where it has a function (no other package
/// gets functions generated).
pub open spec fn gets_files(m: ModuleInfo, is_top_level: bool) -> bool {
    m.has_structs || (is_top_level && m.has_functions)
}

/// The modules that get files, in order.
pub open spec fn modules_with_files(modules: Seq<ModuleInfo>, is_top_level: bool) -> Seq<ModuleInfo>
    decreases modules.len(),
{
    if modules.len() == 0 {
        Seq::empty()
    } else {
        let prev = modules_with_files(modules.drop_last(), is_top_level);
        let m = modules.last();
        if gets_files(m, is_top_level) {
            prev.push(m)
        } else {
            prev
        }
    }
}

/// A package's `index.ts` exports exactly the modules that get a file: a
/// module is among those planned if and only if it is a module of the package
/// and gets `structs.ts` or `functions.ts`.
pub proof fn lemma_exported_modules_get_files(modules: Seq<ModuleInfo>, is_top_level: bool, m: ModuleInfo)
    ensures
        modules_with_files(modules, is_top_level).contains(m) <==> (modules.contains(m) && gets_files(
            m,
            is_top_level,
        )),
    decreases modules.len(),
{
    if modules.len() > 0 {
        let prev = modules_with_files(modules.drop_last(), is_top_level);
        let res = modules_with_files(modules, is_top_level);
        lemma_exported_modules_get_files(modules.drop_last(), is_top_level, m);
        if res.contains(m) {
            let i = choose|i: int| 0 <= i < res.len() && res[i] == m;
            if i < prev.len() {
                assert(prev[i] == m);
                let k = choose|k: int| 0 <= k < modules.drop_last().len() && modules.drop_last()[k] == m;
                assert(modules[k] == m);
            } else {
                assert(modules[modules.len() - 1] == m);
            }
        }
        if modules.contains(m) && gets_files(m, is_top_level) {
            let k = choose|k: int| 0 <= k < modules.len() && modules[k] == m;
            if k < modules.len() - 1 {
                assert(modules.drop_last()[k] == m);
                let i = choose|i: int| 0 <= i < prev.len() && prev[i] == m;
                if gets_files(modules.last(), is_top_level) {
                    assert(res[i] == m);
                }
            } else {
                assert(res[prev.len() as int] == m);
            }
        }
    }
}

/// One namespace export per module, under its safe import name (`_mod`
/// appended to a reserved word), from its directory.
pub open spec fn module_exports(modules: Seq<ModuleInfo>, reserved: Seq<Seq<char>>) -> Seq<char>
    decreases modules.len(),
{
    if modules.len() == 0 {
        Seq::empty()
    } else {
        let m = modules.last();
        module_exports(modules.drop_last(), reserved) + namespace_export(
            safe_name(m.import_name@, reserved, "_mod"@),
            m.name@,
        )
    }
}

/// The text of a package's `index.ts`: the constants, then the modules that
/// have files, if any.
pub open spec fn package_index(modules: Seq<ModuleInfo>, reserved: Seq<Seq<char>>) -> Seq<char> {
    "// Re-export package constants\nexport * from './constants';\n\n"@ + if modules.len() > 0 {
        "// Module exports\n"@ + module_exports(modules, reserved)
    } else {
        Seq::empty()
    }
}

/// The modules of a package that get files, in their order: those with a
/// struct, and in a top-level package also those with a function. Only these
/// are exported from the package's `index.ts`.
pub fn modules_to_generate(modules: &[ModuleInfo], is_top_level: bool) -> (res: Vec<ModuleInfo>)
    ensures
        res@ == modules_with_files(modules@, is_top_level),
{
    let mut res: Vec<ModuleInfo> = Vec::new();
    let mut j: usize = 0;
    while j < modules.len()
        invariant
            j <= modules@.len(),
            res@ == modules_with_files(modules@.take(j as int), is_top_level),
        decreases modules@.len() - j,
    {
        assert(modules@.take(j + 1).drop_last() =~= modules@.take(j as int));
        if modules[j].has_structs || (is_top_level && modules[j].has_functions) {
            res.push(modules[j].clone());
        }
        j += 1;
    }
    assert(modules@.take(modules@.len() as int) =~= modules@);
    res
}

/// The content of a package's `index.ts`, given the modules that have files:
/// it re-exports the constants and then each of those modules.
pub fn package_index_content(modules: &[ModuleInfo], reserved: &[String]) -> (res: String)
    ensures
        res@ == package_index(modules@, string_views(reserved@)),
{
    let mut res = String::new();
    res.append("// Re-export package constants\nexport * from './constants';\n\n");
    if modules.len() > 0 {
        res.append("// Module exports\n");
        let ghost head = res@;
        let mut j: usize = 0;
        while j < modules.len()
            invariant
                j <= modules@.len(),
                res@ == head + module_exports(modules@.take(j as int), string_views(reserved@)),
            decreases modules@.len() - j,
        {
            assert(modules@.take(j + 1).drop_last() =~= modules@.take(j as int));
            let m = &modules[j];
            let name = safe_import_name(&m.import_name, reserved, "_mod");
            res.append("export * as ");
            append_string(&mut res, &name);
            res.append(" from './");
            append_string(&mut res, &m.name);
            res.append("';\n");
            j += 1;
        }
        assert(modules@.take(modules@.len() as int) =~= modules@);
    }
    res
}

/// Every module given to a package's `index.ts` is exported from its own
/// directory, named by the module's name (not its import name), under its
/// import name with `_mod` appended where that is a reserved word; and the
/// file starts by re-exporting the constants.
pub proof fn lemma_index_exports_each_module(modules: Seq<ModuleInfo>, reserved: Seq<Seq<char>>, k: int)
    requires
        0 <= k < modules.len(),
    ensures
        contains_text(
            package_index(modules, reserved),
            "export * as "@ + (if reserved.contains(modules[k].import_name@) {
                modules[k].import_name@ + "_mod"@
            } else {
                modules[k].import_name@
            }) + " from './"@ + modules[k].name@ + "';\n"@,
        ),
        package_index(modules, reserved).take(
            "// Re-export package constants\nexport * from './constants';\n\n"@.len() as int,
        ) == "// Re-export package constants\nexport * from './constants';\n\n"@,
    decreases modules.len(),
{
    let line = "export * as "@ + (if reserved.contains(modules[k].import_name@) {
        modules[k].import_name@ + "_mod"@
    } else {
        modules[k].import_name@
    }) + " from './"@ + modules[k].name@ + "';\n"@;
    lemma_module_exports_contain(modules, reserved, k);
    let head = "// Re-export package constants\nexport * from './constants';\n\n"@;
    let exports = "// Module exports\n"@ + module_exports(modules, reserved);
    lemma_contains_text_concat("// Module exports\n"@, module_exports(modules, reserved), line);
    lemma_contains_text_concat(head, exports, line);
    assert((head + exports).take(head.len() as int) =~= head);
}

proof fn lemma_module_exports_contain(modules: Seq<ModuleInfo>, reserved: Seq<Seq<char>>, k: int)
    requires
        0 <= k < modules.len(),
    ensures
        contains_text(
            module_exports(modules, reserved),
            "export * as "@ + (if reserved.contains(modules[k].import_name@) {
                modules[k].import_name@ + "_mod"@
            } else {
                modules[k].import_name@
            }) + " from './"@ + modules[k].name@ + "';\n"@,
        ),
    decreases modules.len(),
{
    let m = modules[k];
    let line = "export * as "@ + (if reserved.contains(m.import_name@) {
        m.import_name@ + "_mod"@
    } else {
        m.import_name@
    }) + " from './"@ + m.name@ + "';\n"@;
    let prev = module_exports(modules.drop_last(), reserved);
    let last_line = namespace_export(safe_name(modules.last().import_name@, reserved, "_mod"@), modules.last().name@);
    if k == modules.len() - 1 {
        assert(last_line == line);
        lemma_contains_text_self(line);
        lemma_contains_text_concat(prev, last_line, line);
    } else {
        assert(modules.drop_last()[k] == m);
        lemma_module_exports_contain(modules.drop_last(), reserved, k);
        lemma_contains_text_concat(prev, last_line, line);
    }
}

/// A package's `constants.ts` starts with its id and then the address it was
/// published at: the recorded one where there is one, else its own id, both as
/// hex literals, whatever its versions are; and each version is exported as
/// `PKG_V<number>` with the hex literal of the address it was published at.
pub proof fn lemma_constants_lines(pkg: Seq<u8>, published_at: Option<Seq<u8>>, versions: Seq<PackageVersion>, k: int)
    requires
        0 <= k < versions.len(),
    ensures
        constants_ts(pkg, published_address(pkg, published_at), versions).take(
            ("export const PACKAGE_ID = '"@ + address_hex_literal(pkg) + "';\n"@
                + "export const PUBLISHED_AT = '"@ + address_hex_literal(
                match published_at {
                    Some(a) => a,
                    None => pkg,
                },
            ) + "';\n"@).len() as int,
        ) == "export const PACKAGE_ID = '"@ + address_hex_literal(pkg) + "';\n"@
            + "export const PUBLISHED_AT = '"@ + address_hex_literal(
            match published_at {
                Some(a) => a,
                None => pkg,
            },
        ) + "';\n"@,
        contains_text(
            constants_ts(pkg, published_address(pkg, published_at), versions),
            "export const PKG_V"@ + decimal(versions[k].version as nat) + " = '"@
                + address_hex_literal(versions[k].published_at@) + "';\n"@,
        ),
{
    let head = "export const PACKAGE_ID = '"@ + address_hex_literal(pkg) + "';\n"@
        + "export const PUBLISHED_AT = '"@ + address_hex_literal(
        match published_at {
            Some(a) => a,
            None => pkg,
        },
    ) + "';\n"@;
    assert(constants_ts(pkg, published_address(pkg, published_at), versions) =~= head + version_exports(versions));
    assert((head + version_exports(versions)).take(head.len() as int) =~= head);
    lemma_version_exports_contain(versions, k);
    lemma_contains_text_concat(head, version_exports(versions), "export const PKG_V"@ + decimal(
        versions[k].version as nat,
    ) + " = '"@ + address_hex_literal(versions[k].published_at@) + "';\n"@);
}

proof fn lemma_version_exports_contain(versions: Seq<PackageVersion>, k: int)
    requires
        0 <= k < versions.len(),
    ensures
        contains_text(
            version_exports(versions),
            "export const PKG_V"@ + decimal(versions[k].version as nat) + " = '"@
                + address_hex_literal(versions[k].published_at@) + "';\n"@,
        ),
    decreases versions.len(),
{
    let v = versions[k];
    let line = "export const PKG_V"@ + decimal(v.version as nat) + " = '"@ + address_hex_literal(
        v.published_at@,
    ) + "';\n"@;
    let prev = version_exports(versions.drop_last());
    let last = versions.last();
    let last_line = "export const PKG_V"@ + decimal(last.version as nat) + " = '"@
        + address_hex_literal(last.published_at@) + "';\n"@;
    assert(version_exports(versions) =~= prev + last_line);
    if k == versions.len() - 1 {
        lemma_contains_text_self(line);
        lemma_contains_text_concat(prev, last_line, line);
    } else {
        assert(versions.drop_last()[k] == v);
        lemma_version_exports_contain(versions.drop_last(), k);
        lemma_contains_text_concat(prev, last_line, line);
    }
}

/// Where a package is generated, relative to the output root: a top-level
/// package in the PascalCase form of its name, any other under
/// `_dependencies/source/<id>` or `_dependencies/onchain/<id>`.
pub open spec fn package_dir(pkg: Seq<u8>, top_level_name: Option<Seq<char>>, is_source: bool) -> Seq<
    Seq<char>,
> {
    match top_level_name {
        Some(name) => seq![pascal_case_name(name)],
        None => seq![
            "_dependencies"@,
            if is_source {
                "source"@
            } else {
                "onchain"@
            },
            address_hex_literal(pkg),
        ],
    }
}

/// The path of a package's directory below the output root, one component per
/// element.
pub fn package_dir_components(pkg: &[u8; 32], top_level_name: Option<&String>, is_source: bool) -> (res: Vec<String>)
    ensures
        string_views(res@) == package_dir(
            pkg@,
            match top_level_name {
                Some(n) => Some(n@),
                None => None,
            },
            is_source,
        ),
{
    let mut res: Vec<String> = Vec::new();
    match top_level_name {
        Some(name) => {
            let dir = pascal_case_path(name);
            proof {
                lemma_string_views_push(res@, dir);
            }
            res.push(dir);
        },
        None => {
            let deps = "_dependencies".to_owned();
            proof {
                lemma_string_views_push(res@, deps);
            }
            res.push(deps);
            let kind = if is_source {
                "source".to_owned()
            } else {
                "onchain".to_owned()
            };
            proof {
                lemma_string_views_push(res@, kind);
            }
            res.push(kind);
            let id = hex_literal(pkg);
            proof {
                lemma_string_views_push(res@, id);
            }
            res.push(id);
        },
    }
    assert(string_views(res@) =~= package_dir(
        pkg@,
        match top_level_name {
            Some(n) => Some(n@),
            None => None,
        },
        is_source,
    ));
    res
}

/// What is generated for one package, apart from the code of its modules.
pub struct PackagePlan {
    /// The package's directory below the output root, one component per element.
    pub dir: Vec<String>,
    /// How deep that directory lies below the output root.
    pub levels_from_root: u64,
    /// Whether the manifest names the package (its functions are generated too).
    pub is_top_level: bool,
    /// The content of `constants.ts`.
    pub constants: String,
    /// The content of `index.ts`.
    pub index: String,
    /// The modules that get files, in order.
    pub modules: Vec<ModuleInfo>,
}

/// Plans the generation of one package of a model: where it goes, the content
/// of its `constants.ts` and `index.ts`, and which of its modules get files.
/// `top_level_name` is the package's name where the manifest names it,
/// `published_at` the address recorded for it, if any.
pub fn plan_package(
    pkg: &[u8; 32],
    top_level_name: Option<&String>,
    published_at: Option<&[u8; 32]>,
    versions: &[PackageVersion],
    modules: &[ModuleInfo],
    is_source: bool,
    reserved: &[String],
) -> (plan: PackagePlan)
    ensures
        string_views(plan.dir@) == package_dir(
            pkg@,
            match top_level_name {
                Some(n) => Some(n@),
                None => None,
            },
            is_source,
        ),
        plan.is_top_level == top_level_name is Some,
        plan.levels_from_root == if top_level_name is Some {
            0u64
        } else {
            2u64
        },
        plan.constants@ == constants_ts(
            pkg@,
            published_address(
                pkg@,
                match published_at {
                    Some(a) => Some(a@),
                    None => None,
                },
            ),
            versions@,
        ),
        plan.modules@ == modules_with_files(modules@, top_level_name is Some),
        plan.index@ == package_index(
            modules_with_files(modules@, top_level_name is Some),
            string_views(reserved@),
        ),
{
    let is_top_level = top_level_name.is_some();
    let levels_from_root: u64 = if is_top_level {
        0
    } else {
        2
    };
    let dir = package_dir_components(pkg, top_level_name, is_source);
    let constants = package_constants_content(pkg, published_at, versions);
    let generated = modules_to_generate(modules, is_top_level);
    let index = package_index_content(generated.as_slice(), reserved);
    PackagePlan { dir, levels_from_root, is_top_level, constants, index, modules: generated }
}

/// Whether cleaning the output directory keeps an entry: only the file
/// `gen.toml` is kept.
pub fn is_kept_on_clean(entry: &DirEntryName) -> (res: bool)
    ensures
        res == (entry.is_file && entry.file_name@ == "gen.toml"@),
{
    let manifest_name = "gen.toml".to_owned();
    entry.is_file && entry.file_name == manifest_name
}

/// The top-level entries of an id map are exactly its entries whose names the
/// manifest brings in with the given kind.
pub proof fn lemma_top_level_entries_exact(
    ids: Seq<PackageIdName>,
    manifest: Seq<ManifestPackage>,
    kind: PackageKind,
    e: PackageIdName,
)
    ensures
        top_level_entries(ids, manifest, kind).contains(e) <==> (ids.contains(e) && is_top_level(
            manifest,
            e.name@,
            kind,
        )),
    decreases ids.len(),
{
    if ids.len() > 0 {
        let prev = top_level_entries(ids.drop_last(), manifest, kind);
        lemma_top_level_entries_exact(ids.drop_last(), manifest, kind, e);
        let res = top_level_entries(ids, manifest, kind);
        if res.contains(e) {
            let i = choose|i: int| 0 <= i < res.len() && res[i] == e;
            if i < prev.len() {
                assert(prev[i] == e);
                let k = choose|k: int| 0 <= k < ids.drop_last().len() && ids.drop_last()[k] == e;
                assert(ids[k] == e);
            } else {
                assert(ids[ids.len() - 1] == e);
            }
        }
        if ids.contains(e) && is_top_level(manifest, e.name@, kind) {
            let k = choose|k: int| 0 <= k < ids.len() && ids[k] == e;
            if k < ids.len() - 1 {
                assert(ids.drop_last()[k] == e);
                let i = choose|i: int| 0 <= i < prev.len() && prev[i] == e;
                if is_top_level(manifest, ids.last().name@, kind) {
                    assert(res[i] == e);
                }
            } else {
                assert(res[prev.len() as int] == e);
            }
        }
    }
}

/// Filtering an id map for its top-level packages keeps it in ascending
/// address order, each address once.
pub proof fn lemma_top_level_entries_keep_order(
    ids: Seq<PackageIdName>,
    manifest: Seq<ManifestPackage>,
    kind: PackageKind,
)
    ensures
        in_address_order(ids) ==> in_address_order(top_level_entries(ids, manifest, kind)),
    decreases ids.len(),
{
    if ids.len() > 0 && in_address_order(ids) {
        let prev = top_level_entries(ids.drop_last(), manifest, kind);
        assert(in_address_order(ids.drop_last())) by {
            assert forall|i: int, j: int| 0 <= i < j < ids.drop_last().len() implies address_before(
                #[trigger] ids.drop_last()[i].address@,
                #[trigger] ids.drop_last()[j].address@,
            ) by {
                assert(ids.drop_last()[i] == ids[i] && ids.drop_last()[j] == ids[j]);
            }
        }
        lemma_top_level_entries_keep_order(ids.drop_last(), manifest, kind);
        if is_top_level(manifest, ids.last().name@, kind) {
            let res = prev.push(ids.last());
            assert forall|i: int, j: int| 0 <= i < j < res.len() implies address_before(
                #[trigger] res[i].address@,
                #[trigger] res[j].address@,
            ) by {
                if j == res.len() - 1 {
                    lemma_top_level_entries_exact(ids.drop_last(), manifest, kind, prev[i]);
                    assert(prev.contains(prev[i]));
                    let k = choose|k: int| 0 <= k < ids.drop_last().len() && ids.drop_last()[k] == prev[i];
                    assert(ids[k] == res[i]);
                    assert(ids[ids.len() - 1] == res[j]);
                } else {
                    assert(res[i] == prev[i] && res[j] == prev[j]);
                }
            }
        }
    }
}

/// Where the manifest names each package once, no package name is top-level
/// in both the source map and the on-chain map.
pub proof fn lemma_top_level_maps_disjoint(
    source_ids: Option<Seq<PackageIdName>>,
    on_chain_ids: Option<Seq<PackageIdName>>,
    manifest: Seq<ManifestPackage>,
    a: PackageIdName,
    b: PackageIdName,
)
    requires
        forall|i: int, j: int|
            0 <= i < j < manifest.len() ==> manifest[i].name@ != manifest[j].name@,
        top_level_map(source_ids, manifest, PackageKind::Dependency).contains(a),
        top_level_map(on_chain_ids, manifest, PackageKind::OnChain).contains(b),
    ensures
        a.name@ != b.name@,
{
    match source_ids {
        Some(ids) => lemma_top_level_entries_exact(ids, manifest, PackageKind::Dependency, a),
        None => {},
    }
    match on_chain_ids {
        Some(ids) => lemma_top_level_entries_exact(ids, manifest, PackageKind::OnChain, b),
        None => {},
    }
    if a.name@ == b.name@ {
        let i = choose|i: int|
            0 <= i < manifest.len() && manifest[i].name@ == a.name@ && manifest[i].kind
                == PackageKind::Dependency;
        let j = choose|j: int|
            0 <= j < manifest.len() && manifest[j].name@ == b.name@ && manifest[j].kind
                == PackageKind::OnChain;
        assert(i != j);
    }
}

} // verus!

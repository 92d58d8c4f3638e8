//! Barrel files (`index.ts`) that re-export the generated packages and the
//! files of each module.

use vstd::prelude::*;

use crate::names::{pascal_case_name, pascal_case_path, safe_import_name, safe_name};
use crate::text::{contains_text, lemma_contains_text_concat, lemma_contains_text_self, append_string, contains_string, join, lemma_join_push, lemma_string_views_push, string_views};

verus! {

/// A top-level package: its name in the manifest, and the import name that the
/// generator derives from it.
pub struct TopLevelPackage {
    pub name: String,
    pub import_name: String,
}

/// `export * as alias from './path';` and a newline.
pub open spec fn namespace_export(alias: Seq<char>, path: Seq<char>) -> Seq<char> {
    "export * as "@ + alias + " from './"@ + path + "';\n"@
}

/// The name under which a top-level package is exported: its import name, with
/// `_pkg` appended if that is a reserved word.
pub open spec fn package_export_name(pkg: TopLevelPackage, reserved: Seq<Seq<char>>) -> Seq<char> {
    safe_name(pkg.import_name@, reserved, "_pkg"@)
}

/// The names exported so far, each once, in the order of the packages.
pub open spec fn exported_names(pkgs: Seq<TopLevelPackage>, reserved: Seq<Seq<char>>) -> Seq<
    Seq<char>,
>
    decreases pkgs.len(),
{
    if pkgs.len() == 0 {
        Seq::empty()
    } else {
        let prev = exported_names(pkgs.drop_last(), reserved);
        let name = package_export_name(pkgs.last(), reserved);
        if prev.contains(name) {
            prev
        } else {
            prev.push(name)
        }
    }
}

/// One export line for each package whose export name has not been exported
/// by an earlier package.
pub open spec fn package_exports(pkgs: Seq<TopLevelPackage>, reserved: Seq<Seq<char>>) -> Seq<char>
    decreases pkgs.len(),
{
    if pkgs.len() == 0 {
        Seq::empty()
    } else {
        let prev = package_exports(pkgs.drop_last(), reserved);
        let name = package_export_name(pkgs.last(), reserved);
        if exported_names(pkgs.drop_last(), reserved).contains(name) {
            prev
        } else {
            prev + namespace_export(name, pascal_case_name(pkgs.last().name@))
        }
    }
}

/// The top-level barrel file: the exports of the source packages and then of
/// the on-chain packages under a header, or nothing when there is none.
pub open spec fn top_level_barrel(
    source: Seq<TopLevelPackage>,
    on_chain: Seq<TopLevelPackage>,
    reserved: Seq<Seq<char>>,
) -> Seq<char> {
    let body = package_exports(source + on_chain, reserved);
    if body.len() == 0 {
        Seq::empty()
    } else {
        "// Package exports\n"@ + body
    }
}

fn add_package_exports(
    pkgs: &[TopLevelPackage],
    reserved: &[String],
    seen: &mut Vec<String>,
    body: &mut String,
    Ghost(done): Ghost<Seq<TopLevelPackage>>,
)
    requires
        string_views(old(seen)@) == exported_names(done, string_views(reserved@)),
        old(body)@ == package_exports(done, string_views(reserved@)),
    ensures
        string_views(final(seen)@) == exported_names(done + pkgs@, string_views(reserved@)),
        final(body)@ == package_exports(done + pkgs@, string_views(reserved@)),
{
    let ghost rs = string_views(reserved@);
    let mut j: usize = 0;
    while j < pkgs.len()
        invariant
            j <= pkgs@.len(),
            rs == string_views(reserved@),
            string_views(seen@) == exported_names(done + pkgs@.take(j as int), rs),
            body@ == package_exports(done + pkgs@.take(j as int), rs),
        decreases pkgs@.len() - j,
    {
        let ghost prefix = done + pkgs@.take(j as int);
        assert((done + pkgs@.take(j + 1)).drop_last() =~= prefix);
        assert((done + pkgs@.take(j + 1)).last() == pkgs@[j as int]);
        let pkg = &pkgs[j];
        let name = safe_import_name(&pkg.import_name, reserved, "_pkg");
        if !contains_string(seen.as_slice(), &name) {
            let path = pascal_case_path(&pkg.name);
            body.append("export * as ");
            append_string(body, &name);
            body.append(" from './");
            append_string(body, &path);
            body.append("';\n");
            proof {
                lemma_string_views_push(seen@, name);
            }
            seen.push(name);
        }
        j += 1;
    }
    assert(done + pkgs@.take(pkgs@.len() as int) =~= done + pkgs@);
}

/// The content of the top-level barrel file (`index.ts`) that re-exports all
/// packages: the source packages, then the on-chain packages, each exported
/// under its safe import name from its PascalCase directory, skipping a package
/// whose export name was already exported. Empty when nothing is exported (and
/// then no file is written).
pub fn top_level_barrel_content(
    source: &[TopLevelPackage],
    on_chain: &[TopLevelPackage],
    reserved: &[String],
) -> (res: String)
    ensures
        res@ == top_level_barrel(source@, on_chain@, string_views(reserved@)),
{
    let mut seen: Vec<String> = Vec::new();
    let mut body = String::new();
    assert(string_views(seen@) =~= Seq::<Seq<char>>::empty());
    add_package_exports(source, reserved, &mut seen, &mut body, Ghost(Seq::empty()));
    assert(Seq::<TopLevelPackage>::empty() + source@ =~= source@);
    add_package_exports(on_chain, reserved, &mut seen, &mut body, Ghost(source@));
    if body.as_str().is_empty() {
        body
    } else {
        let mut res = String::new();
        res.append("// Package exports\n");
        append_string(&mut res, &body);
        res
    }
}

/// No name is exported twice by the top-level barrel file, and every
/// top-level package's export name is exported.
pub proof fn lemma_each_package_exported_once(
    pkgs: Seq<TopLevelPackage>,
    reserved: Seq<Seq<char>>,
    i: int,
)
    requires
        0 <= i < pkgs.len(),
    ensures
        exported_names(pkgs, reserved).no_duplicates(),
        exported_names(pkgs, reserved).contains(package_export_name(pkgs[i], reserved)),
    decreases pkgs.len(),
{
    let prev = exported_names(pkgs.drop_last(), reserved);
    let name = package_export_name(pkgs.last(), reserved);
    if pkgs.len() > 1 {
        let j = if i < pkgs.len() - 1 {
            i
        } else {
            0
        };
        lemma_each_package_exported_once(pkgs.drop_last(), reserved, j);
    }
    let target = package_export_name(pkgs[i], reserved);
    if i < pkgs.len() - 1 {
        assert(pkgs.drop_last()[i] == pkgs[i]);
        let k = choose|k: int| 0 <= k < prev.len() && prev[k] == target;
        if !prev.contains(name) {
            assert(prev.push(name)[k] == target);
        }
    } else if !prev.contains(name) {
        assert(prev.push(name)[prev.len() as int] == target);
    }
}

proof fn lemma_package_exports_nonempty(pkgs: Seq<TopLevelPackage>, reserved: Seq<Seq<char>>)
    requires
        pkgs.len() > 0,
    ensures
        package_exports(pkgs, reserved).len() > 0,
    decreases pkgs.len(),
{
    reveal_strlit("';\n");
    if pkgs.len() > 1 {
        lemma_package_exports_nonempty(pkgs.drop_last(), reserved);
    } else {
        assert(exported_names(pkgs.drop_last(), reserved) =~= Seq::<Seq<char>>::empty());
    }
}

/// The top-level barrel file is empty, and so not written, exactly when there
/// is no top-level package at all.
pub proof fn lemma_top_level_barrel_empty(
    source: Seq<TopLevelPackage>,
    on_chain: Seq<TopLevelPackage>,
    reserved: Seq<Seq<char>>,
)
    ensures
        top_level_barrel(source, on_chain, reserved).len() == 0 <==> source.len() + on_chain.len()
            == 0,
{
    if source.len() + on_chain.len() > 0 {
        lemma_package_exports_nonempty(source + on_chain, reserved);
    } else {
        assert(source + on_chain =~= Seq::<TopLevelPackage>::empty());
    }
}

proof fn lemma_exported_names_come_from_packages(pkgs: Seq<TopLevelPackage>, reserved: Seq<Seq<char>>, n: Seq<char>)
    requires
        exported_names(pkgs, reserved).contains(n),
    ensures
        exists|j: int| 0 <= j < pkgs.len() && package_export_name(#[trigger] pkgs[j], reserved) == n,
    decreases pkgs.len(),
{
    let prev = exported_names(pkgs.drop_last(), reserved);
    if prev.contains(n) {
        lemma_exported_names_come_from_packages(pkgs.drop_last(), reserved, n);
        let j = choose|j: int|
            0 <= j < pkgs.drop_last().len() && package_export_name(#[trigger] pkgs.drop_last()[j], reserved) == n;
        assert(pkgs[j] == pkgs.drop_last()[j]);
    } else {
        assert(package_export_name(pkgs[pkgs.len() - 1], reserved) == n);
    }
}

proof fn lemma_package_exports_contain(pkgs: Seq<TopLevelPackage>, reserved: Seq<Seq<char>>, k: int)
    requires
        0 <= k < pkgs.len(),
        forall|j: int|
            0 <= j < k ==> package_export_name(#[trigger] pkgs[j], reserved) != package_export_name(
                pkgs[k],
                reserved,
            ),
    ensures
        contains_text(
            package_exports(pkgs, reserved),
            "export * as "@ + package_export_name(pkgs[k], reserved) + " from './"@
                + pascal_case_name(pkgs[k].name@) + "';\n"@,
        ),
    decreases pkgs.len(),
{
    let line = "export * as "@ + package_export_name(pkgs[k], reserved) + " from './"@
        + pascal_case_name(pkgs[k].name@) + "';\n"@;
    let prev = package_exports(pkgs.drop_last(), reserved);
    let name = package_export_name(pkgs.last(), reserved);
    let added = namespace_export(name, pascal_case_name(pkgs.last().name@));
    lemma_contains_text_concat(prev, added, line);
    if k == pkgs.len() - 1 {
        if exported_names(pkgs.drop_last(), reserved).contains(name) {
            lemma_exported_names_come_from_packages(pkgs.drop_last(), reserved, name);
            let j = choose|j: int|
                0 <= j < pkgs.drop_last().len() && package_export_name(#[trigger] pkgs.drop_last()[j], reserved)
                    == name;
            assert(pkgs[j] == pkgs.drop_last()[j]);
        }
        lemma_contains_text_self(line);
    } else {
        assert(pkgs.drop_last()[k] == pkgs[k]);
        assert forall|j: int| 0 <= j < k implies package_export_name(
            #[trigger] pkgs.drop_last()[j],
            reserved,
        ) != package_export_name(pkgs.drop_last()[k], reserved) by {
            assert(pkgs.drop_last()[j] == pkgs[j]);
        }
        lemma_package_exports_contain(pkgs.drop_last(), reserved, k);
    }
}

/// The top-level barrel file starts with its header, and exports every
/// package whose export name no earlier package has, under that name (its
/// import name, with `_pkg` appended where that is a reserved word) from the
/// PascalCase form of the package's own name.
pub proof fn lemma_top_level_barrel_exports(
    source: Seq<TopLevelPackage>,
    on_chain: Seq<TopLevelPackage>,
    reserved: Seq<Seq<char>>,
    k: int,
)
    requires
        0 <= k < (source + on_chain).len(),
        forall|j: int|
            0 <= j < k ==> package_export_name(#[trigger] (source + on_chain)[j], reserved)
                != package_export_name((source + on_chain)[k], reserved),
    ensures
        top_level_barrel(source, on_chain, reserved).take("// Package exports\n"@.len() as int)
            == "// Package exports\n"@,
        contains_text(
            top_level_barrel(source, on_chain, reserved),
            "export * as "@ + (if reserved.contains((source + on_chain)[k].import_name@) {
                (source + on_chain)[k].import_name@ + "_pkg"@
            } else {
                (source + on_chain)[k].import_name@
            }) + " from './"@ + pascal_case_name((source + on_chain)[k].name@) + "';\n"@,
        ),
{
    let all = source + on_chain;
    lemma_package_exports_contain(all, reserved, k);
    lemma_package_exports_nonempty(all, reserved);
    let head = "// Package exports\n"@;
    let body = package_exports(all, reserved);
    lemma_contains_text_concat(head, body, "export * as "@ + package_export_name(all[k], reserved)
        + " from './"@ + pascal_case_name(all[k].name@) + "';\n"@);
    assert((head + body).take(head.len() as int) =~= head);
}

/// A module's barrel file exports each of its files: `structs` and
/// `functions` directly, any other file as a namespace under its import name,
/// each from the file's own stem.
pub proof fn lemma_module_barrel_exports(files: Seq<ModuleFile>, k: int)
    requires
        0 <= k < files.len(),
    ensures
        contains_text(
            module_barrel(files),
            if files[k].stem@ == "structs"@ || files[k].stem@ == "functions"@ {
                "export * from './"@ + files[k].stem@ + "';\n"@
            } else {
                "export * as "@ + files[k].import_name@ + " from './"@ + files[k].stem@ + "';\n"@
            },
        ),
    decreases files.len(),
{
    let line = file_export(files[k]);
    let prev = module_barrel(files.drop_last());
    let added = file_export(files.last());
    lemma_contains_text_concat(prev, added, line);
    if k == files.len() - 1 {
        lemma_contains_text_self(line);
    } else {
        assert(files.drop_last()[k] == files[k]);
        lemma_module_barrel_exports(files.drop_last(), k);
    }
}

/// A file of a module directory, by its name, and whether it is a regular file.
pub struct DirEntryName {
    pub file_name: String,
    pub is_file: bool,
}

/// The index of the last `.` in `name`, or -1 when there is none.
pub open spec fn last_dot(name: Seq<char>) -> int
    decreases name.len(),
{
    if name.len() == 0 {
        -1
    } else if name.last() == '.' {
        name.len() - 1
    } else {
        last_dot(name.drop_last())
    }
}

/// The stem of a file name whose extension is `ts` (as `Path::extension` and
/// `Path::file_stem` split a name: at its last `.`, unless that `.` is the
/// first character), or `None` for any other name.
pub open spec fn ts_stem(name: Seq<char>) -> Option<Seq<char>> {
    let dot = last_dot(name);
    if dot > 0 && name.skip(dot + 1) == "ts"@ {
        Some(name.take(dot))
    } else {
        None
    }
}

/// Whether a directory entry is re-exported by the module's barrel file: a
/// TypeScript file other than `index.ts`.
pub open spec fn is_exported_file(entry: DirEntryName) -> bool {
    entry.is_file && ts_stem(entry.file_name@) is Some && entry.file_name@ != "index.ts"@
}

/// The stems of the exported files among `entries`, in their order.
pub open spec fn exported_stems(entries: Seq<DirEntryName>) -> Seq<Seq<char>>
    decreases entries.len(),
{
    if entries.len() == 0 {
        Seq::empty()
    } else {
        let prev = exported_stems(entries.drop_last());
        let last = entries.last();
        if is_exported_file(last) {
            prev.push(ts_stem(last.file_name@).unwrap())
        } else {
            prev
        }
    }
}

proof fn lemma_exported_stems_members(entries: Seq<DirEntryName>, stem: Seq<char>)
    ensures
        exported_stems(entries).contains(stem) <==> exists|i: int|
            0 <= i < entries.len() && is_exported_file(#[trigger] entries[i]) && ts_stem(
                entries[i].file_name@,
            ) == Some(stem),
    decreases entries.len(),
{
    if entries.len() > 0 {
        let prev = exported_stems(entries.drop_last());
        let last = entries.last();
        lemma_exported_stems_members(entries.drop_last(), stem);
        if exported_stems(entries).contains(stem) {
            let j = choose|j: int|
                0 <= j < exported_stems(entries).len() && exported_stems(entries)[j] == stem;
            if j < prev.len() {
                assert(prev[j] == stem);
                let i = choose|i: int|
                    0 <= i < entries.drop_last().len() && is_exported_file(
                        #[trigger] entries.drop_last()[i],
                    ) && ts_stem(entries.drop_last()[i].file_name@) == Some(stem);
                assert(entries[i] == entries.drop_last()[i]);
            } else {
                assert(entries[entries.len() - 1] == last);
            }
        }
        if exists|i: int|
            0 <= i < entries.len() && is_exported_file(#[trigger] entries[i]) && ts_stem(
                entries[i].file_name@,
            ) == Some(stem) {
            let i = choose|i: int|
                0 <= i < entries.len() && is_exported_file(#[trigger] entries[i]) && ts_stem(
                    entries[i].file_name@,
                ) == Some(stem);
            if i < entries.len() - 1 {
                assert(entries.drop_last()[i] == entries[i]);
                let j = choose|j: int| 0 <= j < prev.len() && prev[j] == stem;
                if is_exported_file(last) {
                    assert(prev.push(ts_stem(last.file_name@).unwrap())[j] == stem);
                }
            } else {
                assert(prev.push(ts_stem(last.file_name@).unwrap())[prev.len() as int] == stem);
            }
        }
    }
}

/// Listing a module directory again, after its `index.ts` was written and in
/// any order, gives the same set of exported stems: `index.ts` is never
/// exported, so the barrel file is the same.
pub proof fn lemma_index_file_not_reexported(entries: Seq<DirEntryName>, entries2: Seq<DirEntryName>)
    requires
        forall|e: DirEntryName|
            entries2.contains(e) <==> (entries.contains(e) || e.file_name@ == "index.ts"@),
    ensures
        exported_stems(entries2).to_set() == exported_stems(entries).to_set(),
{
    assert forall|stem: Seq<char>|
        exported_stems(entries2).to_set().contains(stem) <==> exported_stems(entries).to_set().contains(
            stem,
        ) by {
        lemma_exported_stems_members(entries, stem);
        lemma_exported_stems_members(entries2, stem);
        if exported_stems(entries2).contains(stem) {
            let i = choose|i: int|
                0 <= i < entries2.len() && is_exported_file(#[trigger] entries2[i]) && ts_stem(
                    entries2[i].file_name@,
                ) == Some(stem);
            assert(entries2.contains(entries2[i]));
            assert(entries.contains(entries2[i]));
            let j = choose|j: int| 0 <= j < entries.len() && entries[j] == entries2[i];
            assert(is_exported_file(entries[j]));
        }
        if exported_stems(entries).contains(stem) {
            let i = choose|i: int|
                0 <= i < entries.len() && is_exported_file(#[trigger] entries[i]) && ts_stem(
                    entries[i].file_name@,
                ) == Some(stem);
            assert(entries.contains(entries[i]));
            assert(entries2.contains(entries[i]));
            let j = choose|j: int| 0 <= j < entries2.len() && entries2[j] == entries[i];
            assert(is_exported_file(entries2[j]));
        }
    }
    assert(exported_stems(entries2).to_set() =~= exported_stems(entries).to_set());
}

fn find_last_dot(name: &str) -> (res: Option<usize>)
    ensures
        match res {
            Some(k) => k == last_dot(name@) && k < name@.len(),
            None => last_dot(name@) == -1,
        },
{
    let n = name.unicode_len();
    let mut i: usize = n;
    assert(name@.take(n as int) =~= name@);
    while i > 0
        invariant
            n == name@.len(),
            i <= n,
            last_dot(name@) == last_dot(name@.take(i as int)),
        decreases i,
    {
        assert(name@.take(i as int).drop_last() =~= name@.take(i - 1));
        if name.get_char(i - 1) == '.' {
            return Some(i - 1);
        }
        i -= 1;
    }
    assert(name@.take(0) =~= Seq::<char>::empty());
    None
}

/// The stem of `file_name` if the entry is a TypeScript file other than
/// `index.ts`, else `None`.
pub fn exported_file_stem(entry: &DirEntryName) -> (res: Option<String>)
    ensures
        match res {
            Some(stem) => is_exported_file(*entry) && stem@ == ts_stem(entry.file_name@).unwrap(),
            None => !is_exported_file(*entry),
        },
{
    if !entry.is_file {
        return None;
    }
    let name = entry.file_name.as_str();
    let dot = match find_last_dot(name) {
        Some(k) => k,
        None => return None,
    };
    if dot == 0 {
        return None;
    }
    let n = name.unicode_len();
    let ext = name.substring_char(dot + 1, n);
    let ts = "ts".to_owned();
    if ext.to_owned() != ts {
        return None;
    }
    let index = "index.ts".to_owned();
    if entry.file_name == index {
        return None;
    }
    Some(name.substring_char(0, dot).to_owned())
}

/// The stems of the files that a module's barrel file re-exports: the
/// TypeScript files among `entries` other than `index.ts`, in their order.
pub fn module_export_stems(entries: &[DirEntryName]) -> (res: Vec<String>)
    ensures
        string_views(res@) == exported_stems(entries@),
{
    let mut res: Vec<String> = Vec::new();
    let mut j: usize = 0;
    while j < entries.len()
        invariant
            j <= entries@.len(),
            string_views(res@) == exported_stems(entries@.take(j as int)),
        decreases entries@.len() - j,
    {
        assert(entries@.take(j + 1).drop_last() =~= entries@.take(j as int));
        match exported_file_stem(&entries[j]) {
            Some(stem) => {
                proof {
                    lemma_string_views_push(res@, stem);
                }
                res.push(stem);
            },
            None => {},
        }
        j += 1;
    }
    assert(entries@.take(entries@.len() as int) =~= entries@);
    res
}

/// A file that a module's barrel file re-exports: its stem, and the import
/// name that the generator derives from it.
pub struct ModuleFile {
    pub stem: String,
    pub import_name: String,
}

/// The export of one file: `structs` and `functions` are re-exported directly,
/// any other file as a namespace under its import name.
pub open spec fn file_export(file: ModuleFile) -> Seq<char> {
    if file.stem@ == "structs"@ || file.stem@ == "functions"@ {
        "export * from './"@ + file.stem@ + "';\n"@
    } else {
        namespace_export(file.import_name@, file.stem@)
    }
}

/// The exports of all files, in order.
pub open spec fn module_barrel(files: Seq<ModuleFile>) -> Seq<char>
    decreases files.len(),
{
    if files.len() == 0 {
        Seq::empty()
    } else {
        module_barrel(files.drop_last()) + file_export(files.last())
    }
}

/// The content of a module's barrel file (`index.ts`): one export per file, in
/// order. Empty when there is no file (and then no barrel file is written).
pub fn module_barrel_content(files: &[ModuleFile]) -> (res: String)
    ensures
        res@ == module_barrel(files@),
{
    let structs = "structs".to_owned();
    let functions = "functions".to_owned();
    let mut res = String::new();
    let mut j: usize = 0;
    while j < files.len()
        invariant
            j <= files@.len(),
            structs@ == "structs"@,
            functions@ == "functions"@,
            res@ == module_barrel(files@.take(j as int)),
        decreases files@.len() - j,
    {
        assert(files@.take(j + 1).drop_last() =~= files@.take(j as int));
        let file = &files[j];
        if file.stem == structs || file.stem == functions {
            res.append("export * from './");
            append_string(&mut res, &file.stem);
            res.append("';\n");
        } else {
            res.append("export * as ");
            append_string(&mut res, &file.import_name);
            res.append(" from './");
            append_string(&mut res, &file.stem);
            res.append("';\n");
        }
        j += 1;
    }
    assert(files@.take(files@.len() as int) =~= files@);
    res
}

/// A module's barrel file is empty, and so not written, exactly when there is
/// no file to re-export.
pub proof fn lemma_module_barrel_empty(files: Seq<ModuleFile>)
    ensures
        module_barrel(files).len() == 0 <==> files.len() == 0,
    decreases files.len(),
{
    reveal_strlit("';\n");
    if files.len() > 0 {
        lemma_module_barrel_empty(files.drop_last());
    }
}

/// The export line of each file, in order.
pub open spec fn export_lines(files: Seq<ModuleFile>) -> Seq<Seq<char>> {
    files.map_values(|f: ModuleFile| file_export(f))
}

proof fn lemma_module_barrel_is_its_lines(files: Seq<ModuleFile>)
    ensures
        module_barrel(files) == join(export_lines(files), Seq::empty()),
    decreases files.len(),
{
    if files.len() > 0 {
        lemma_module_barrel_is_its_lines(files.drop_last());
        assert(export_lines(files) =~= export_lines(files.drop_last()).push(file_export(files.last())));
        lemma_join_push(export_lines(files.drop_last()), Seq::empty(), file_export(files.last()));
        assert(module_barrel(files.drop_last()) + Seq::<char>::empty() =~= module_barrel(files.drop_last()));
        if files.len() == 1 {
            assert(module_barrel(files.drop_last()) =~= Seq::<char>::empty());
        }
    }
}

/// Whether `files` are the files of the given stems, in order, each named by
/// `import_name`.
pub open spec fn files_of_stems(
    files: Seq<ModuleFile>,
    stems: Seq<Seq<char>>,
    import_name: spec_fn(Seq<char>) -> Seq<char>,
) -> bool {
    &&& files.len() == stems.len()
    &&& forall|k: int|
        0 <= k < files.len() ==> #[trigger] files[k].stem@ == stems[k] && files[k].import_name@
            == import_name(stems[k])
}

/// Listing a module directory again, after its `index.ts` was written and in
/// any order, gives a barrel file with the same set of lines, when each file's
/// import name is a function of its stem: each barrel file is the
/// concatenation of its export lines, and the two sets of lines are equal.
pub proof fn lemma_relisting_keeps_barrel_lines(
    entries: Seq<DirEntryName>,
    entries2: Seq<DirEntryName>,
    files: Seq<ModuleFile>,
    files2: Seq<ModuleFile>,
    import_name: spec_fn(Seq<char>) -> Seq<char>,
)
    requires
        forall|e: DirEntryName|
            entries2.contains(e) <==> (entries.contains(e) || e.file_name@ == "index.ts"@),
        files_of_stems(files, exported_stems(entries), import_name),
        files_of_stems(files2, exported_stems(entries2), import_name),
    ensures
        module_barrel(files) == join(export_lines(files), Seq::empty()),
        module_barrel(files2) == join(export_lines(files2), Seq::empty()),
        export_lines(files2).to_set() == export_lines(files).to_set(),
{
    lemma_module_barrel_is_its_lines(files);
    lemma_module_barrel_is_its_lines(files2);
    lemma_index_file_not_reexported(entries, entries2);
    let stems = exported_stems(entries);
    let stems2 = exported_stems(entries2);
    assert forall|line: Seq<char>|
        export_lines(files2).to_set().contains(line) <==> export_lines(files).to_set().contains(line) by {
        if export_lines(files2).contains(line) {
            let k = choose|k: int| 0 <= k < export_lines(files2).len() && export_lines(files2)[k] == line;
            assert(files2[k].stem@ == stems2[k]);
            assert(stems2.to_set().contains(stems2[k]));
            assert(stems.to_set().contains(stems2[k]));
            let j = choose|j: int| 0 <= j < stems.len() && stems[j] == stems2[k];
            assert(files[j].stem@ == stems[j]);
            assert(file_export(files[j]) == file_export(files2[k]));
            assert(export_lines(files)[j] == line);
        }
        if export_lines(files).contains(line) {
            let k = choose|k: int| 0 <= k < export_lines(files).len() && export_lines(files)[k] == line;
            assert(files[k].stem@ == stems[k]);
            assert(stems.to_set().contains(stems[k]));
            assert(stems2.to_set().contains(stems[k]));
            let j = choose|j: int| 0 <= j < stems2.len() && stems2[j] == stems[k];
            assert(files2[j].stem@ == stems2[j]);
            assert(file_export(files2[j]) == file_export(files[k]));
            assert(export_lines(files2)[j] == line);
        }
    }
    assert(export_lines(files2).to_set() =~= export_lines(files).to_set());
}

} // verus!

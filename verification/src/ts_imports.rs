//! TypeScript import statements: single imports, the imports of the type
//! declarations, and the grouping of many imports into one statement per
//! module and kind.

use vstd::prelude::*;

use crate::js_tokens::{append_literal, new_tokens, push_line_break, token_items, JsTokens, TokenItem};
use vstd::seq_lib::lemma_multiset_commutative;

use crate::text::{
    append_string, contains_string, join, lemma_join_push, lemma_string_views_push,
    newline_terminated, string_views,
};

verus! {

/// Creates a TypeScript import with an option to specify a type-only import
pub struct TypedImport {
    pub module: String,
    pub name: String,
    pub alias: Option<String>,
    pub is_type_only: bool,
}

impl Clone for TypedImport {
    fn clone(&self) -> (res: Self)
        ensures
            res == *self,
    {
        let alias = match &self.alias {
            Some(alias) => Some(alias.clone()),
            None => None,
        };
        TypedImport {
            module: self.module.clone(),
            name: self.name.clone(),
            alias,
            is_type_only: self.is_type_only,
        }
    }
}

/// Creates a TypeScript import statement with an option to specify a type-only import
pub fn ts_import(module: &str, name: &str, type_only: bool) -> (res: TypedImport)
    ensures
        res.module@ == module@,
        res.name@ == name@,
        res.alias is None,
        res.is_type_only == type_only,
{
    TypedImport {
        module: module.to_owned(),
        name: name.to_owned(),
        alias: None,
        is_type_only: type_only,
    }
}

/// The text of the type-only imports that every file of type declarations starts with.
pub const TYPE_DECLARATIONS_IMPORTS: &'static str = r#"
// Type-only imports
import type {
    PhantomReified,
    PhantomToTypeStr,
    PhantomTypeArgument,
    Reified,
    StructClass,
    ToField,
    ToPhantomTypeArgument,
    ToTypeStr
} from "../../_framework/reified";

import type { FieldsWithTypes } from "../../_framework/util";
import type { SuiClient, SuiObjectData, SuiParsedData } from "@mysten/sui/client";
import type { TransactionArgument, TransactionObjectInput } from "@mysten/sui/transactions";
"#;

/// Generate TypeScript import statement for type declarations
pub fn generate_type_declarations_imports() -> (res: String)
    ensures
        res@ == TYPE_DECLARATIONS_IMPORTS@,
{
    TYPE_DECLARATIONS_IMPORTS.to_owned()
}

/// How one import is listed between the braces: `name`, or `name as alias`.
pub open spec fn import_entry(imp: TypedImport) -> Seq<char> {
    match imp.alias {
        Some(alias) => imp.name@ + " as "@ + alias@,
        None => imp.name@,
    }
}

/// The modules that the imports name, each once, in the order of their first
/// occurrence.
pub open spec fn modules_in_order(imports: Seq<TypedImport>) -> Seq<Seq<char>>
    decreases imports.len(),
{
    if imports.len() == 0 {
        Seq::empty()
    } else {
        let prev = modules_in_order(imports.drop_last());
        let module = imports.last().module@;
        if prev.contains(module) {
            prev
        } else {
            prev.push(module)
        }
    }
}

/// The entries of the imports from `module` of the given kind, in order.
pub open spec fn group_entries(imports: Seq<TypedImport>, module: Seq<char>, type_only: bool) -> Seq<
    Seq<char>,
>
    decreases imports.len(),
{
    if imports.len() == 0 {
        Seq::empty()
    } else {
        let prev = group_entries(imports.drop_last(), module, type_only);
        let last = imports.last();
        if last.module@ == module && last.is_type_only == type_only {
            prev.push(import_entry(last))
        } else {
            prev
        }
    }
}

/// One import statement: `import { a, b as c } from "module";`, with `type`
/// after `import` for type-only imports.
pub open spec fn import_line(type_only: bool, names: Seq<char>, module: Seq<char>) -> Seq<char> {
    (if type_only {
        "import type { "@
    } else {
        "import { "@
    }) + names + " } from \""@ + module + "\";"@
}

/// The statements for one module: the regular imports, then the type-only
/// imports, each only where there is at least one.
pub open spec fn group_lines(imports: Seq<TypedImport>, module: Seq<char>) -> Seq<Seq<char>> {
    let regular = group_entries(imports, module, false);
    let typed = group_entries(imports, module, true);
    (if regular.len() > 0 {
        seq![import_line(false, join(regular, ", "@), module)]
    } else {
        Seq::empty()
    }) + (if typed.len() > 0 {
        seq![import_line(true, join(typed, ", "@), module)]
    } else {
        Seq::empty()
    })
}

/// The statements for each of `modules`, in that order.
pub open spec fn lines_for_modules(imports: Seq<TypedImport>, modules: Seq<Seq<char>>) -> Seq<
    Seq<char>,
>
    decreases modules.len(),
{
    if modules.len() == 0 {
        Seq::empty()
    } else {
        lines_for_modules(imports, modules.drop_last()) + group_lines(imports, modules.last())
    }
}

/// All import statements for `imports`: one group per module.
pub open spec fn import_statements(imports: Seq<TypedImport>) -> Seq<Seq<char>> {
    lines_for_modules(imports, modules_in_order(imports))
}

fn import_entry_text(imp: &TypedImport) -> (res: String)
    ensures
        res@ == import_entry(*imp),
{
    let mut res = imp.name.clone();
    match &imp.alias {
        Some(alias) => {
            res.append(" as ");
            res.append(alias.as_str());
        },
        None => {},
    }
    res
}

fn distinct_modules(imports: &[TypedImport]) -> (res: Vec<String>)
    ensures
        string_views(res@) == modules_in_order(imports@),
{
    let mut res: Vec<String> = Vec::new();
    let mut i: usize = 0;
    while i < imports.len()
        invariant
            i <= imports@.len(),
            string_views(res@) == modules_in_order(imports@.take(i as int)),
        decreases imports@.len() - i,
    {
        assert(imports@.take(i + 1).drop_last() =~= imports@.take(i as int));
        if !contains_string(res.as_slice(), &imports[i].module) {
            proof {
                lemma_string_views_push(res@, imports@[i as int].module);
            }
            res.push(imports[i].module.clone());
        }
        i += 1;
    }
    assert(imports@.take(imports@.len() as int) =~= imports@);
    res
}

/// The joined entries of the imports from `module` of the given kind, and
/// whether there is any.
fn group_names(imports: &[TypedImport], module: &String, type_only: bool) -> (res: (String, bool))
    ensures
        res.0@ == join(group_entries(imports@, module@, type_only), ", "@),
        res.1 == (group_entries(imports@, module@, type_only).len() > 0),
{
    let mut names = String::new();
    let mut any = false;
    let mut j: usize = 0;
    while j < imports.len()
        invariant
            j <= imports@.len(),
            names@ == join(group_entries(imports@.take(j as int), module@, type_only), ", "@),
            any == (group_entries(imports@.take(j as int), module@, type_only).len() > 0),
        decreases imports@.len() - j,
    {
        assert(imports@.take(j + 1).drop_last() =~= imports@.take(j as int));
        let imp = &imports[j];
        if imp.module == *module && imp.is_type_only == type_only {
            proof {
                lemma_join_push(
                    group_entries(imports@.take(j as int), module@, type_only),
                    ", "@,
                    import_entry(*imp),
                );
            }
            if any {
                names.append(", ");
            }
            let entry = import_entry_text(imp);
            append_string(&mut names, &entry);
            any = true;
        }
        j += 1;
    }
    assert(imports@.take(imports@.len() as int) =~= imports@);
    (names, any)
}

fn import_line_text(type_only: bool, names: &String, module: &String) -> (res: String)
    ensures
        res@ == import_line(type_only, names@, module@),
{
    let mut res = String::new();
    if type_only {
        res.append("import type { ");
    } else {
        res.append("import { ");
    }
    append_string(&mut res, names);
    res.append(" } from \"");
    append_string(&mut res, module);
    res.append("\";");
    res
}

/// The import statements for `imports`, one per module and kind: for each
/// module in the order of its first import, the statement of its regular
/// imports and then that of its type-only imports, each listing its imports in
/// their order and only where there is one.
pub fn import_statement_lines(imports: &[TypedImport]) -> (lines: Vec<String>)
    ensures
        string_views(lines@) == import_statements(imports@),
{
    let modules = distinct_modules(imports);
    let mut lines: Vec<String> = Vec::new();
    let mut k: usize = 0;
    while k < modules.len()
        invariant
            k <= modules@.len(),
            string_views(lines@) == lines_for_modules(
                imports@,
                string_views(modules@).take(k as int),
            ),
        decreases modules@.len() - k,
    {
        let module = &modules[k];
        assert(string_views(modules@).take(k + 1).drop_last() =~= string_views(modules@).take(
            k as int,
        ));
        assert(string_views(modules@).take(k + 1).last() == module@);
        let ghost before = string_views(lines@);
        let (regular, has_regular) = group_names(imports, module, false);
        if has_regular {
            let line = import_line_text(false, &regular, module);
            proof {
                lemma_string_views_push(lines@, line);
            }
            lines.push(line);
        }
        let ghost middle = string_views(lines@);
        let (typed, has_typed) = group_names(imports, module, true);
        if has_typed {
            let line = import_line_text(true, &typed, module);
            proof {
                lemma_string_views_push(lines@, line);
            }
            lines.push(line);
        }
        assert(string_views(lines@) =~= before + group_lines(imports@, module@));
        k += 1;
    }
    assert(string_views(modules@).take(modules@.len() as int) =~= string_views(modules@));
    lines
}

/// The token items of a sequence of lines: each line as a literal, followed by
/// a push onto a new line.
pub open spec fn line_items(lines: Seq<Seq<char>>) -> Seq<TokenItem>
    decreases lines.len(),
{
    if lines.len() == 0 {
        Seq::empty()
    } else {
        line_items(lines.drop_last()).push(TokenItem::Literal(lines.last())).push(TokenItem::Push)
    }
}

/// The text of the import statements for `imports`, each on a line of its own:
/// what `write_typescript_imports` writes to its file.
pub fn typescript_imports_content(imports: &[TypedImport]) -> (res: String)
    ensures
        res@ == newline_terminated(import_statements(imports@)),
{
    let lines = import_statement_lines(imports);
    let mut content = String::new();
    let mut k: usize = 0;
    while k < lines.len()
        invariant
            k <= lines@.len(),
            string_views(lines@) == import_statements(imports@),
            content@ == newline_terminated(string_views(lines@).take(k as int)),
        decreases lines@.len() - k,
    {
        assert(string_views(lines@).take(k + 1).drop_last() =~= string_views(lines@).take(
            k as int,
        ));
        append_string(&mut content, &lines[k]);
        content.append("\n");
        k += 1;
    }
    assert(string_views(lines@).take(lines@.len() as int) =~= string_views(lines@));
    content
}

/// Manually format import into a JavaScript token
///
/// Each import statement becomes one literal token followed by a push onto a
/// new line.
pub fn format_typed_import(imports: &[TypedImport]) -> (tokens: JsTokens)
    ensures
        token_items(tokens) == line_items(import_statements(imports@)),
{
    let lines = import_statement_lines(imports);
    let mut tokens = new_tokens();
    let mut k: usize = 0;
    while k < lines.len()
        invariant
            k <= lines@.len(),
            string_views(lines@) == import_statements(imports@),
            token_items(tokens) == line_items(string_views(lines@).take(k as int)),
        decreases lines@.len() - k,
    {
        assert(string_views(lines@).take(k + 1).drop_last() =~= string_views(lines@).take(
            k as int,
        ));
        append_literal(&mut tokens, lines[k].clone());
        push_line_break(&mut tokens);
        k += 1;
    }
    assert(string_views(lines@).take(lines@.len() as int) =~= string_views(lines@));
    tokens
}

proof fn lemma_module_in_order(imports: Seq<TypedImport>, i: int)
    requires
        0 <= i < imports.len(),
    ensures
        modules_in_order(imports).contains(imports[i].module@),
    decreases imports.len(),
{
    let prev = modules_in_order(imports.drop_last());
    if i == imports.len() - 1 {
        if !prev.contains(imports.last().module@) {
            assert(prev.push(imports.last().module@)[prev.len() as int] == imports[i].module@);
        }
    } else {
        lemma_module_in_order(imports.drop_last(), i);
        let m = imports[i].module@;
        let k = choose|k: int| 0 <= k < prev.len() && prev[k] == m;
        if !prev.contains(imports.last().module@) {
            assert(prev.push(imports.last().module@)[k] == m);
        }
    }
}

proof fn lemma_modules_come_from_imports(imports: Seq<TypedImport>, m: Seq<char>)
    requires
        modules_in_order(imports).contains(m),
    ensures
        exists|i: int| 0 <= i < imports.len() && imports[i].module@ == m,
    decreases imports.len(),
{
    let prev = modules_in_order(imports.drop_last());
    if prev.contains(m) {
        lemma_modules_come_from_imports(imports.drop_last(), m);
        let i = choose|i: int| 0 <= i < imports.drop_last().len() && imports.drop_last()[i].module@ == m;
        assert(imports[i].module@ == m);
    } else {
        assert(imports[imports.len() - 1].module@ == m);
    }
}

proof fn lemma_modules_no_duplicates(imports: Seq<TypedImport>)
    ensures
        modules_in_order(imports).no_duplicates(),
    decreases imports.len(),
{
    if imports.len() > 0 {
        lemma_modules_no_duplicates(imports.drop_last());
    }
}

proof fn lemma_entry_in_group(imports: Seq<TypedImport>, i: int)
    requires
        0 <= i < imports.len(),
    ensures
        group_entries(imports, imports[i].module@, imports[i].is_type_only).contains(
            import_entry(imports[i]),
        ),
    decreases imports.len(),
{
    let m = imports[i].module@;
    let t = imports[i].is_type_only;
    let prev = group_entries(imports.drop_last(), m, t);
    if i == imports.len() - 1 {
        assert(prev.push(import_entry(imports[i]))[prev.len() as int] == import_entry(imports[i]));
    } else {
        lemma_entry_in_group(imports.drop_last(), i);
        assert(imports.drop_last()[i] == imports[i]);
        let k = choose|k: int| 0 <= k < prev.len() && prev[k] == import_entry(imports[i]);
        let last = imports.last();
        if last.module@ == m && last.is_type_only == t {
            assert(prev.push(import_entry(last))[k] == import_entry(imports[i]));
        }
    }
}

proof fn lemma_group_lines_listed(imports: Seq<TypedImport>, modules: Seq<Seq<char>>, k: int, line: Seq<char>)
    requires
        0 <= k < modules.len(),
        group_lines(imports, modules[k]).contains(line),
    ensures
        lines_for_modules(imports, modules).contains(line),
    decreases modules.len(),
{
    let prev = lines_for_modules(imports, modules.drop_last());
    let last = group_lines(imports, modules.last());
    if k == modules.len() - 1 {
        let j = choose|j: int| 0 <= j < last.len() && last[j] == line;
        assert((prev + last)[prev.len() + j] == line);
    } else {
        assert(modules.drop_last()[k] == modules[k]);
        lemma_group_lines_listed(imports, modules.drop_last(), k, line);
        let j = choose|j: int| 0 <= j < prev.len() && prev[j] == line;
        assert((prev + last)[j] == line);
    }
}

/// Every import is listed: the statements hold, for the module and kind of each
/// import, the statement that joins the entries of all imports of that module
/// and kind, and those entries include this import's own.
pub proof fn lemma_every_import_listed(imports: Seq<TypedImport>, i: int)
    requires
        0 <= i < imports.len(),
    ensures
        group_entries(imports, imports[i].module@, imports[i].is_type_only).contains(
            import_entry(imports[i]),
        ),
        import_statements(imports).contains(
            import_line(
                imports[i].is_type_only,
                join(group_entries(imports, imports[i].module@, imports[i].is_type_only), ", "@),
                imports[i].module@,
            ),
        ),
        group_entries(imports, imports[i].module@, imports[i].is_type_only).contains(
            match imports[i].alias {
                Some(alias) => imports[i].name@ + " as "@ + alias@,
                None => imports[i].name@,
            },
        ),
        import_statements(imports).contains(
            (if imports[i].is_type_only {
                "import type { "@
            } else {
                "import { "@
            }) + join(group_entries(imports, imports[i].module@, imports[i].is_type_only), ", "@)
                + " } from \""@ + imports[i].module@ + "\";"@,
        ),
{
    let m = imports[i].module@;
    let t = imports[i].is_type_only;
    lemma_entry_in_group(imports, i);
    lemma_module_in_order(imports, i);
    let modules = modules_in_order(imports);
    let k = choose|k: int| 0 <= k < modules.len() && modules[k] == m;
    let line = import_line(t, join(group_entries(imports, m, t), ", "@), m);
    let regular = group_entries(imports, m, false);
    let typed = group_entries(imports, m, true);
    let first: Seq<Seq<char>> = if regular.len() > 0 {
        seq![import_line(false, join(regular, ", "@), m)]
    } else {
        Seq::empty()
    };
    let second: Seq<Seq<char>> = if typed.len() > 0 {
        seq![import_line(true, join(typed, ", "@), m)]
    } else {
        Seq::empty()
    };
    assert(group_lines(imports, m) == first + second);
    if t {
        assert((first + second)[first.len() as int] == line);
    } else {
        assert((first + second)[0] == line);
    }
    lemma_group_lines_listed(imports, modules, k, line);
}

/// One group per module: the modules of the statements are the modules that
/// the imports name, each once.
pub proof fn lemma_one_group_per_module(imports: Seq<TypedImport>)
    ensures
        modules_in_order(imports).no_duplicates(),
        forall|m: Seq<char>|
            modules_in_order(imports).contains(m) <==> exists|i: int|
                0 <= i < imports.len() && #[trigger] imports[i].module@ == m,
{
    lemma_modules_no_duplicates(imports);
    assert forall|m: Seq<char>|
        modules_in_order(imports).contains(m) <==> exists|i: int|
            0 <= i < imports.len() && #[trigger] imports[i].module@ == m by {
        if modules_in_order(imports).contains(m) {
            lemma_modules_come_from_imports(imports, m);
        }
        if exists|i: int| 0 <= i < imports.len() && #[trigger] imports[i].module@ == m {
            let i = choose|i: int| 0 <= i < imports.len() && #[trigger] imports[i].module@ == m;
            lemma_module_in_order(imports, i);
        }
    }
}

/// The texts of the literal items of a token stream, in order.
pub open spec fn literal_texts(items: Seq<TokenItem>) -> Seq<Seq<char>>
    decreases items.len(),
{
    if items.len() == 0 {
        Seq::empty()
    } else {
        let prev = literal_texts(items.drop_last());
        match items.last() {
            TokenItem::Literal(text) => prev.push(text),
            _ => prev,
        }
    }
}

proof fn lemma_literal_texts_of_lines(lines: Seq<Seq<char>>)
    ensures
        literal_texts(line_items(lines)) == lines,
        line_items(lines).len() == 2 * lines.len(),
        forall|k: int|
            0 <= k < lines.len() ==> line_items(lines)[2 * k] == TokenItem::Literal(lines[k])
                && line_items(lines)[2 * k + 1] == TokenItem::Push,
    decreases lines.len(),
{
    if lines.len() > 0 {
        lemma_literal_texts_of_lines(lines.drop_last());
        assert forall|k: int| 0 <= k < lines.len() implies line_items(lines)[2 * k]
            == TokenItem::Literal(lines[k]) && line_items(lines)[2 * k + 1] == TokenItem::Push by {
            if k < lines.len() - 1 {
                assert(lines.drop_last()[k] == lines[k]);
            }
        }
        let items = line_items(lines);
        let with_line = line_items(lines.drop_last()).push(TokenItem::Literal(lines.last()));
        assert(items.drop_last() == with_line);
        assert(with_line.drop_last() == line_items(lines.drop_last()));
        assert(literal_texts(items) == literal_texts(with_line));
        assert(literal_texts(with_line) == literal_texts(line_items(lines.drop_last())).push(
            lines.last(),
        ));
        assert(lines.drop_last().push(lines.last()) =~= lines);
    }
}

/// The token stream of `format_typed_import` and the file of
/// `write_typescript_imports` hold the same statements: the literal tokens,
/// each followed by a newline, give exactly the text of the file; each
/// statement is one literal followed by exactly one push, and nothing else.
pub proof fn lemma_tokens_match_file(imports: Seq<TypedImport>)
    ensures
        newline_terminated(literal_texts(line_items(import_statements(imports))))
            == newline_terminated(import_statements(imports)),
        line_items(import_statements(imports)).len() == 2 * import_statements(imports).len(),
        forall|k: int|
            0 <= k < import_statements(imports).len() ==> line_items(import_statements(imports))[2
                * k] == TokenItem::Literal(import_statements(imports)[k]) && line_items(
                import_statements(imports),
            )[2 * k + 1] == TokenItem::Push,
{
    lemma_literal_texts_of_lines(import_statements(imports));
}

/// The imports from `module` of the given kind, in their order.
pub open spec fn group_imports(imports: Seq<TypedImport>, module: Seq<char>, type_only: bool) -> Seq<
    TypedImport,
>
    decreases imports.len(),
{
    if imports.len() == 0 {
        Seq::empty()
    } else {
        let prev = group_imports(imports.drop_last(), module, type_only);
        let last = imports.last();
        if last.module@ == module && last.is_type_only == type_only {
            prev.push(last)
        } else {
            prev
        }
    }
}

proof fn lemma_group_entries_of_imports(imports: Seq<TypedImport>, module: Seq<char>, type_only: bool)
    ensures
        group_entries(imports, module, type_only) == group_imports(imports, module, type_only).map_values(
            |imp: TypedImport| import_entry(imp),
        ),
    decreases imports.len(),
{
    if imports.len() > 0 {
        lemma_group_entries_of_imports(imports.drop_last(), module, type_only);
        let prev = group_imports(imports.drop_last(), module, type_only);
        let last = imports.last();
        if last.module@ == module && last.is_type_only == type_only {
            assert(prev.push(last).map_values(|imp: TypedImport| import_entry(imp)) =~= prev.map_values(
                |imp: TypedImport| import_entry(imp),
            ).push(import_entry(last)));
        }
    }
}

proof fn lemma_group_imports_nonempty(imports: Seq<TypedImport>, module: Seq<char>, type_only: bool)
    ensures
        group_imports(imports, module, type_only).len() > 0 <==> exists|i: int|
            0 <= i < imports.len() && imports[i].module@ == module && imports[i].is_type_only
                == type_only,
    decreases imports.len(),
{
    if imports.len() > 0 {
        lemma_group_imports_nonempty(imports.drop_last(), module, type_only);
        if exists|i: int|
            0 <= i < imports.drop_last().len() && imports.drop_last()[i].module@ == module
                && imports.drop_last()[i].is_type_only == type_only {
            let i = choose|i: int|
                0 <= i < imports.drop_last().len() && imports.drop_last()[i].module@ == module
                    && imports.drop_last()[i].is_type_only == type_only;
            assert(imports[i] == imports.drop_last()[i]);
        }
        if exists|i: int|
            0 <= i < imports.len() && imports[i].module@ == module && imports[i].is_type_only
                == type_only {
            let i = choose|i: int|
                0 <= i < imports.len() && imports[i].module@ == module && imports[i].is_type_only
                    == type_only;
            if i < imports.len() - 1 {
                assert(imports.drop_last()[i] == imports[i]);
            }
        }
    }
}

proof fn lemma_lines_same(imports: Seq<TypedImport>, imports2: Seq<TypedImport>, modules: Seq<Seq<char>>)
    requires
        forall|m: Seq<char>| #[trigger] group_lines(imports2, m) == group_lines(imports, m),
    ensures
        lines_for_modules(imports2, modules) == lines_for_modules(imports, modules),
    decreases modules.len(),
{
    if modules.len() > 0 {
        lemma_lines_same(imports, imports2, modules.drop_last());
        assert(group_lines(imports2, modules.last()) == group_lines(imports, modules.last()));
    }
}

proof fn lemma_lines_remove(imports: Seq<TypedImport>, modules: Seq<Seq<char>>, k: int)
    requires
        0 <= k < modules.len(),
    ensures
        lines_for_modules(imports, modules).to_multiset() == lines_for_modules(
            imports,
            modules.remove(k),
        ).to_multiset().add(group_lines(imports, modules[k]).to_multiset()),
    decreases modules.len(),
{
    broadcast use vstd::multiset::group_multiset_axioms;

    let prev = lines_for_modules(imports, modules.drop_last());
    let last = group_lines(imports, modules.last());
    lemma_multiset_commutative(prev, last);
    if k == modules.len() - 1 {
        assert(modules.remove(k) =~= modules.drop_last());
    } else {
        lemma_lines_remove(imports, modules.drop_last(), k);
        assert(modules.remove(k) =~= modules.drop_last().remove(k).push(modules.last()));
        assert(modules.remove(k).drop_last() =~= modules.drop_last().remove(k));
        let rest = lines_for_modules(imports, modules.drop_last().remove(k));
        lemma_multiset_commutative(rest, last);
        assert(modules.drop_last()[k] == modules[k]);
        assert(lines_for_modules(imports, modules).to_multiset() =~= lines_for_modules(
            imports,
            modules.remove(k),
        ).to_multiset().add(group_lines(imports, modules[k]).to_multiset()));
    }
}

proof fn lemma_lines_permuted(imports: Seq<TypedImport>, modules: Seq<Seq<char>>, modules2: Seq<Seq<char>>)
    requires
        modules.no_duplicates(),
        modules2.no_duplicates(),
        forall|m: Seq<char>| modules.contains(m) <==> modules2.contains(m),
    ensures
        lines_for_modules(imports, modules).to_multiset() == lines_for_modules(
            imports,
            modules2,
        ).to_multiset(),
    decreases modules.len(),
{
    broadcast use vstd::multiset::group_multiset_axioms;

    if modules.len() == 0 {
        if modules2.len() > 0 {
            assert(modules2.contains(modules2[0]));
        }
        assert(modules2 =~= Seq::<Seq<char>>::empty());
    } else {
        let m = modules.last();
        assert(modules.contains(m));
        let k = choose|k: int| 0 <= k < modules2.len() && modules2[k] == m;
        let rest = modules.drop_last();
        let rest2 = modules2.remove(k);
        modules2.remove_ensures(k);
        assert(rest2.no_duplicates()) by {
            assert forall|i: int, j: int| 0 <= i < rest2.len() && 0 <= j < rest2.len() && i != j implies rest2[i]
                != rest2[j] by {
                let a = if i < k { i } else { i + 1 };
                let b = if j < k { j } else { j + 1 };
                assert(rest2[i] == modules2[a] && rest2[j] == modules2[b]);
            }
        }
        assert forall|x: Seq<char>| rest.contains(x) <==> rest2.contains(x) by {
            if rest.contains(x) {
                let i = choose|i: int| 0 <= i < rest.len() && rest[i] == x;
                assert(modules[i] == x);
                assert(modules.contains(x));
                assert(x != m);
                let j = choose|j: int| 0 <= j < modules2.len() && modules2[j] == x;
                assert(j != k);
                let j2 = if j < k { j } else { j - 1 };
                assert(rest2[j2] == x);
            }
            if rest2.contains(x) {
                let j = choose|j: int| 0 <= j < rest2.len() && rest2[j] == x;
                let a = if j < k { j } else { j + 1 };
                assert(modules2[a] == x);
                assert(a != k);
                assert(modules2.contains(x));
                assert(modules.contains(x));
                let i = choose|i: int| 0 <= i < modules.len() && modules[i] == x;
                assert(i != modules.len() - 1);
                assert(rest[i] == x);
            }
        }
        lemma_lines_permuted(imports, rest, rest2);
        lemma_lines_remove(imports, modules2, k);
        lemma_multiset_commutative(lines_for_modules(imports, rest), group_lines(imports, m));
    }
}

/// Reordering the imports, as long as the imports of each module and kind keep
/// their relative order, leaves the import statements the same, up to the
/// order of the statements.
pub proof fn lemma_regrouping_keeps_statements(imports: Seq<TypedImport>, imports2: Seq<TypedImport>)
    requires
        forall|m: Seq<char>, t: bool| #[trigger] group_imports(imports2, m, t) == group_imports(imports, m, t),
    ensures
        import_statements(imports2).to_multiset() == import_statements(imports).to_multiset(),
{
    assert forall|m: Seq<char>| #[trigger] group_lines(imports2, m) == group_lines(imports, m) by {
        lemma_group_entries_of_imports(imports, m, false);
        lemma_group_entries_of_imports(imports, m, true);
        lemma_group_entries_of_imports(imports2, m, false);
        lemma_group_entries_of_imports(imports2, m, true);
        assert(group_imports(imports2, m, false) == group_imports(imports, m, false));
        assert(group_imports(imports2, m, true) == group_imports(imports, m, true));
    }
    let modules = modules_in_order(imports);
    let modules2 = modules_in_order(imports2);
    lemma_one_group_per_module(imports);
    lemma_one_group_per_module(imports2);
    assert forall|m: Seq<char>| modules.contains(m) <==> modules2.contains(m) by {
        lemma_group_imports_nonempty(imports, m, false);
        lemma_group_imports_nonempty(imports, m, true);
        lemma_group_imports_nonempty(imports2, m, false);
        lemma_group_imports_nonempty(imports2, m, true);
        assert(group_imports(imports2, m, false) == group_imports(imports, m, false));
        assert(group_imports(imports2, m, true) == group_imports(imports, m, true));
        if modules.contains(m) {
            let i = choose|i: int| 0 <= i < imports.len() && #[trigger] imports[i].module@ == m;
            let t = imports[i].is_type_only;
            if t {
                let j = choose|j: int|
                    0 <= j < imports2.len() && imports2[j].module@ == m && imports2[j].is_type_only == true;
                assert(imports2[j].module@ == m);
            } else {
                let j = choose|j: int|
                    0 <= j < imports2.len() && imports2[j].module@ == m && imports2[j].is_type_only == false;
                assert(imports2[j].module@ == m);
            }
        }
        if modules2.contains(m) {
            let i = choose|i: int| 0 <= i < imports2.len() && #[trigger] imports2[i].module@ == m;
            let t = imports2[i].is_type_only;
            if t {
                let j = choose|j: int|
                    0 <= j < imports.len() && imports[j].module@ == m && imports[j].is_type_only == true;
                assert(imports[j].module@ == m);
            } else {
                let j = choose|j: int|
                    0 <= j < imports.len() && imports[j].module@ == m && imports[j].is_type_only == false;
                assert(imports[j].module@ == m);
            }
        }
    }
    lemma_lines_same(imports, imports2, modules2);
    lemma_lines_permuted(imports, modules, modules2);
}

} // verus!

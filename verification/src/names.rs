//! Names in the generated code: PascalCase directory names of packages, and
//! import names that steer clear of JavaScript's reserved words.

use convert_case::{Case, Casing};
use vstd::prelude::*;

use crate::text::{append_string, contains_char, contains_string, string_views};

verus! {

/// What `convert_case` makes of `name` read as snake_case and written as
/// PascalCase (`name.from_case(Case::Snake).to_case(Case::Pascal)`).
pub uninterp spec fn pascal_from_snake(name: Seq<char>) -> Seq<char>;

/// What `convert_case` makes of `name` read as camelCase and written as
/// PascalCase (`name.from_case(Case::Camel).to_case(Case::Pascal)`).
pub uninterp spec fn pascal_from_camel(name: Seq<char>) -> Seq<char>;

/// `convert_case`'s `from_case(Case::Snake)` then `to_case(Case::Pascal)`. The
/// result is a function of the name alone; the words are split at underscores.
#[verifier::external_body]
fn snake_to_pascal(name: &String) -> (res: String)
    ensures
        res@ == pascal_from_snake(name@),
{
    name.from_case(Case::Snake).to_case(Case::Pascal)
}

/// `convert_case`'s `from_case(Case::Camel)` then `to_case(Case::Pascal)`. The
/// result is a function of the name alone; the words are split where the case
/// changes.
#[verifier::external_body]
fn camel_to_pascal(name: &String) -> (res: String)
    ensures
        res@ == pascal_from_camel(name@),
{
    name.from_case(Case::Camel).to_case(Case::Pascal)
}

/// The PascalCase form of a package name: a name with an underscore is read as
/// snake_case, any other as camelCase.
pub open spec fn pascal_case_name(name: Seq<char>) -> Seq<char> {
    if name.contains('_') {
        pascal_from_snake(name)
    } else {
        pascal_from_camel(name)
    }
}

/// The PascalCase form of a package name, under which its directory is
/// generated and imported.
pub fn pascal_case_path(name: &String) -> (res: String)
    ensures
        res@ == pascal_case_name(name@),
{
    if contains_char(name.as_str(), '_') {
        snake_to_pascal(name)
    } else {
        camel_to_pascal(name)
    }
}

/// An import name that is safe to use in JavaScript: a reserved word gets
/// `suffix` appended, any other name stays as it is.
pub open spec fn safe_name(name: Seq<char>, reserved: Seq<Seq<char>>, suffix: Seq<char>) -> Seq<
    char,
> {
    if reserved.contains(name) {
        name + suffix
    } else {
        name
    }
}

/// `name`, with `suffix` appended if it is one of the `reserved` words.
pub fn safe_import_name(name: &String, reserved: &[String], suffix: &str) -> (res: String)
    ensures
        res@ == safe_name(name@, string_views(reserved@), suffix@),
{
    let mut res = name.clone();
    if contains_string(reserved, name) {
        res.append(suffix);
    }
    res
}

} // verus!

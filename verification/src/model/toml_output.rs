//! Writing a lint configuration as TOML, which the `toml` crate does.
use vstd::prelude::*;

verus! {

#[verifier::external_type_specification]
#[verifier::external_body]
pub struct ExTomlSerError(toml::ser::Error);

#[verifier::external_type_specification]
#[verifier::external_body]
pub struct ExTomlDeError(toml::de::Error);

/// The TOML document `toml::to_string` writes for a table `outer`, holding a
/// table `inner`, holding the `(key, value)` entries; `None` when it fails.
pub uninterp spec fn toml_table(
    outer: Seq<char>,
    inner: Seq<char>,
    entries: Seq<(Seq<char>, bool)>,
) -> Option<Seq<char>>;

/// Calls `toml::to_string` on the nested `BTreeMap`
/// `{outer: {inner: {key: value, ...}}}` made of the arguments.
///
/// Claims only that the result is a function of the arguments: the text on
/// success, the `toml::ser::Error` otherwise.
#[verifier::external_body]
pub(crate) fn toml_document(outer: &str, inner: &str, entries: &Vec<(String, bool)>) -> (r: Result<
    String,
    toml::ser::Error,
>)
    ensures
        match r {
            Ok(s) => toml_table(outer@, inner@, entries.deep_view()) == Some(s@),
            Err(_) => toml_table(outer@, inner@, entries.deep_view()) is None,
        },
{
    let table: std::collections::BTreeMap<String, bool> = entries.iter().cloned().collect();
    let mut middle = std::collections::BTreeMap::new();
    middle.insert(inner.to_owned(), table);
    let mut document = std::collections::BTreeMap::new();
    document.insert(outer.to_owned(), middle);
    toml::to_string(&document)
}

} // verus!

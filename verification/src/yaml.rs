//! Trusted access to recipe documents through the saphyr crate.
//!
//! Parsing is a pure function of the document text, and saphyr's mappings
//! iterate in document order, so everything the recipe interpreter reads
//! can be named as a function of the text: the document count, the
//! `recipe.args` items, the `install_files` string, and the `patch_files`
//! entries. The verified interpreter works on those named, plain-valued
//! results alone.

use vstd::prelude::*;

use saphyr::LoadableYamlNode;

verus! {

/// The view of an optional string.
pub open spec fn opt_str_view(o: Option<String>) -> Option<Seq<char>> {
    match o {
        Some(s) => Some(s@),
        None => None,
    }
}

/// The view of a list of optional strings.
pub open spec fn opt_items_view(v: Seq<Option<String>>) -> Seq<Option<Seq<char>>> {
    v.map_values(|o: Option<String>| opt_str_view(o))
}

/// The view of a list of patch entries: the key when it is a string,
/// whether the payload is an array, and the payload's rendering when the
/// emitter accepts it.
pub open spec fn doc_entries_view(v: Seq<(Option<String>, bool, Option<String>)>) -> Seq<
    (Option<Seq<char>>, bool, Option<Seq<char>>),
> {
    v.map_values(
        |e: (Option<String>, bool, Option<String>)| (opt_str_view(e.0), e.1, opt_str_view(e.2)),
    )
}

/// How many documents `saphyr::Yaml::load_from_str` parses a YAML text
/// into, or nothing when the text is not valid YAML. Parsing is a pure
/// function of the text alone.
pub uninterp spec fn yaml_docs_of(s: Seq<char>) -> Option<nat>;

/// The items of the first document's `recipe.args` sequence, in document
/// order, each a string or not; nothing when the text does not parse or
/// no such sequence exists.
pub uninterp spec fn args_of(s: Seq<char>) -> Option<Seq<Option<Seq<char>>>>;

/// The first document's `install_files` string; nothing when the text
/// does not parse or the field is absent or not a string.
pub uninterp spec fn install_files_of(s: Seq<char>) -> Option<Seq<char>>;

/// The entries of the first document's `patch_files` mapping, in document
/// order; nothing when the text does not parse or the field is absent or
/// not a mapping.
pub uninterp spec fn patch_docs_of(s: Seq<char>) -> Option<
    Seq<(Option<Seq<char>>, bool, Option<Seq<char>>)>,
>;

/// Relies on `saphyr::Yaml::load_from_str`: how many documents the text
/// parses into; fails on a scan error.
#[verifier::external_body]
pub(crate) fn doc_count(text: &str) -> (r: Option<usize>)
    ensures
        match r {
            Some(n) => yaml_docs_of(text@) == Some(n as nat),
            None => yaml_docs_of(text@) is None,
        },
{
    saphyr::Yaml::load_from_str(text).ok().map(|docs| docs.len())
}

/// Relies on `saphyr::Yaml::load_from_str`, `Yaml::as_mapping_get`,
/// `Yaml::as_vec` and `Yaml::as_str`: the items of the first document's
/// `recipe.args` sequence, each converted to its string when it is one.
#[verifier::external_body]
pub(crate) fn doc_arg_items(text: &str) -> (r: Option<Vec<Option<String>>>)
    ensures
        match r {
            Some(v) => args_of(text@) == Some(opt_items_view(v@)),
            None => args_of(text@) is None,
        },
{
    let docs = saphyr::Yaml::load_from_str(text).ok()?;
    let args = docs.first()?.as_mapping_get("recipe")?.as_mapping_get("args")?;
    let items = args.as_vec()?;
    Some(items.iter().map(|y| y.as_str().map(str::to_owned)).collect())
}

/// Relies on `saphyr::Yaml::load_from_str`, `Yaml::as_mapping_get` and
/// `Yaml::as_str`: the first document's `install_files` string.
#[verifier::external_body]
pub(crate) fn doc_install_files(text: &str) -> (r: Option<String>)
    ensures
        match r {
            Some(s) => install_files_of(text@) == Some(s@),
            None => install_files_of(text@) is None,
        },
{
    let docs = saphyr::Yaml::load_from_str(text).ok()?;
    let value = docs.first()?.as_mapping_get("install_files")?.as_str()?;
    Some(value.to_owned())
}

/// Relies on `saphyr::Yaml::load_from_str`, `Yaml::as_mapping_get`,
/// `Yaml::as_mapping` (insertion-ordered, so document order),
/// `Yaml::as_str`, `Yaml::as_vec` and `saphyr::YamlEmitter::dump`: the
/// first document's `patch_files` entries, each with its key as a string
/// when it is one, whether its payload is an array, and the payload's
/// rendered document text when the emitter accepts it.
#[verifier::external_body]
pub(crate) fn doc_patch_entries(text: &str) -> (r: Option<Vec<(Option<String>, bool, Option<String>)>>)
    ensures
        match r {
            Some(v) => patch_docs_of(text@) == Some(doc_entries_view(v@)),
            None => patch_docs_of(text@) is None,
        },
{
    let docs = saphyr::Yaml::load_from_str(text).ok()?;
    let mapping = docs.first()?.as_mapping_get("patch_files")?.as_mapping()?;
    Some(
        mapping.iter().map(
            |(k, v)| {
                let name = k.as_str().map(str::to_owned);
                let is_array = v.as_vec().is_some();
                let mut out = String::new();
                let emitted = saphyr::YamlEmitter::new(&mut out).dump(v).is_ok();
                (name, is_array, if emitted { Some(out) } else { None })
            },
        ).collect(),
    )
}

} // verus!

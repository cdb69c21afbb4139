//! The patch engine: idempotence, block replacement, corruption detection
//! and variable substitution.

use rimeka::optmap::OptionMap;
use rimeka::patch::apply_patch;

fn no_options() -> OptionMap {
    OptionMap::new()
}

#[test]
fn patching_an_empty_file_is_idempotent() {
    let opts = no_options();
    let once = apply_patch("", "X", "---\na: 1", &opts).unwrap();
    assert_eq!(once.as_str(), "__patch:\n# Rx: X {\n  a: 1\n# }\n");
    let twice = apply_patch(once.as_str(), "X", "---\na: 1", &opts).unwrap();
    assert_eq!(twice, once);
}

#[test]
fn changed_payload_replaces_only_its_block() {
    let opts = no_options();
    let content = "before: 1\n__patch:\n# Rx: X {\n  a: 1\n# }\nafter: 2\n";
    let out = apply_patch(content, "X", "---\nb: 2", &opts).unwrap();
    assert_eq!(
        out.as_str(),
        "before: 1\n__patch:\nafter: 2\n# Rx: X {\n  b: 2\n# }\n"
    );
}

#[test]
fn blocks_of_other_identities_are_kept() {
    let opts = no_options();
    let content = "__patch:\n# Rx: other {\n  keep: 1\n# }\n";
    let out = apply_patch(content, "X", "---\na: 1", &opts).unwrap();
    assert_eq!(
        out.as_str(),
        "__patch:\n# Rx: other {\n  keep: 1\n# }\n# Rx: X {\n  a: 1\n# }\n"
    );
}

#[test]
fn missing_footer_is_a_corruption() {
    let opts = no_options();
    let content = "__patch:\n# Rx: X {\n  a: 1\n";
    let err = apply_patch(content, "X", "---\nb: 2", &opts).unwrap_err();
    assert_eq!(
        err.message().as_str(),
        "failed to parse the previously patched file"
    );
}

#[test]
fn header_without_footer_even_bare_fails() {
    let opts = no_options();
    assert!(apply_patch("# Rx: X {\n", "X", "---\na: 1", &opts).is_err());
}

#[test]
fn missing_footer_of_another_identity_is_harmless() {
    let opts = no_options();
    let content = "# Rx: other {\n";
    assert!(apply_patch(content, "X", "---\na: 1", &opts).is_ok());
}

#[test]
fn known_variables_are_substituted() {
    let mut opts = OptionMap::new();
    opts.insert(String::from("KEY"), String::from("42"));
    let out = apply_patch("", "id", "---\nk: ${KEY}\nm: ${MISSING}", &opts).unwrap();
    assert_eq!(
        out.as_str(),
        "__patch:\n# Rx: id {\n  k: 42\n  m: ${MISSING}\n# }\n"
    );
}

#[test]
fn dollar_name_form_is_substituted_too() {
    let mut opts = OptionMap::new();
    opts.insert(String::from("COLOR"), String::from("red"));
    let out = apply_patch("", "id", "---\nc: $COLOR", &opts).unwrap();
    assert_eq!(out.as_str(), "__patch:\n# Rx: id {\n  c: red\n# }\n");
}

#[test]
fn anchor_is_added_once() {
    let opts = no_options();
    let content = "__patch:\nvalue: 1\n";
    let out = apply_patch(content, "X", "---\na: 1", &opts).unwrap();
    assert_eq!(
        out.as_str(),
        "__patch:\nvalue: 1\n# Rx: X {\n  a: 1\n# }\n"
    );
}

#[test]
fn crlf_endings_are_accepted() {
    let opts = no_options();
    let content = "keep: 1\r\n__patch:\r\n";
    let out = apply_patch(content, "X", "---\na: 1", &opts).unwrap();
    assert_eq!(out.as_str(), "keep: 1\n__patch:\n# Rx: X {\n  a: 1\n# }\n");
}

#[test]
fn reapplying_over_an_existing_block_stabilises() {
    let opts = no_options();
    let content = "x: 1\n__patch:\n# Rx: X {\n  a: 1\n# }\n";
    let once = apply_patch(content, "X", "---\na: 1", &opts).unwrap();
    assert_eq!(once.as_str(), content);
    let twice = apply_patch(once.as_str(), "X", "---\na: 1", &opts).unwrap();
    assert_eq!(twice, once);
}

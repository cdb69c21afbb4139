//! Target grammar acceptance, rejection and field extraction.

use rimeka::target::{ParseError, Recipe, Spec};

fn parse(t: &str) -> Spec {
    Spec::from_target(t).expect(t)
}

#[test]
fn bare_name_expands_into_builtin_namespace() {
    let sp = parse("pinyin");
    assert_eq!(sp.repo(), "rime/rime-pinyin");
    assert!(sp.branch().is_none());
    assert!(sp.recipe().is_none());
    assert_eq!(sp.args().len(), 0);
}

#[test]
fn owner_name_is_kept_unchanged() {
    let sp = parse("rime/rime-pinyin");
    assert_eq!(sp.repo(), "rime/rime-pinyin");
    let sp = parse("me/pinyin");
    assert_eq!(sp.repo(), "me/pinyin");
}

#[test]
fn branch_is_extracted() {
    let sp = parse("foo/bar@dev");
    assert_eq!(sp.repo(), "foo/bar");
    assert_eq!(sp.branch(), Some("dev"));
    assert!(sp.recipe().is_none());
}

#[test]
fn multi_segment_branch_is_accepted() {
    let sp = parse("foo@release/v1.2");
    assert_eq!(sp.branch(), Some("release/v1.2"));
}

#[test]
fn explicit_recipe_is_extracted() {
    let sp = parse("foo:recipe-name");
    assert_eq!(sp.repo(), "rime/rime-foo");
    match sp.recipe() {
        Some(Recipe::Explicit(n)) => assert_eq!(n.as_str(), "recipe-name"),
        other => panic!("unexpected recipe {:?}", other),
    }
}

#[test]
fn recipe_options_are_extracted() {
    let sp = parse("foo:recipe:opt=1,other=2");
    assert_eq!(sp.repo(), "rime/rime-foo");
    match sp.recipe() {
        Some(Recipe::Explicit(n)) => assert_eq!(n.as_str(), "recipe"),
        other => panic!("unexpected recipe {:?}", other),
    }
    assert_eq!(sp.args().len(), 2);
    assert_eq!(sp.args().get("opt").unwrap().as_str(), "1");
    assert_eq!(sp.args().get("other").unwrap().as_str(), "2");
}

#[test]
fn later_duplicate_option_wins() {
    let sp = parse("foo:recipe:a=1,a=2");
    assert_eq!(sp.args().len(), 1);
    assert_eq!(sp.args().get("a").unwrap().as_str(), "2");
}

#[test]
fn recipe_filename_collapses_to_implicit() {
    let sp = parse("foo:recipe.yaml");
    assert!(matches!(sp.recipe(), Some(Recipe::Implicit)));
}

#[test]
fn recipe_file_suffix_is_stripped() {
    let sp = parse("foo:bar.recipe.yaml");
    match sp.recipe() {
        Some(Recipe::Explicit(n)) => assert_eq!(n.as_str(), "bar"),
        other => panic!("unexpected recipe {:?}", other),
    }
}

#[test]
fn surrounding_whitespace_is_trimmed() {
    let sp = parse("  pinyin\n");
    assert_eq!(sp.repo(), "rime/rime-pinyin");
}

#[test]
fn dotted_branch_start_is_rejected() {
    assert!(Spec::from_target("foo@.bad").is_err());
}

#[test]
fn trailing_branch_slash_is_rejected() {
    assert!(Spec::from_target("foo@bad/").is_err());
}

#[test]
fn legacy_package_files_are_rejected() {
    assert!(matches!(
        Spec::from_target("x-packages.conf"),
        Err(ParseError::Unsupported)
    ));
    assert!(matches!(
        Spec::from_target("y-packages.bat"),
        Err(ParseError::Unsupported)
    ));
}

#[test]
fn empty_recipe_reference_is_rejected() {
    assert!(matches!(
        Spec::from_target("foo::"),
        Err(ParseError::Invalid { .. })
    ));
}

#[test]
fn trailing_option_separator_is_rejected() {
    assert!(Spec::from_target("foo:recipe:").is_err());
    assert!(Spec::from_target("foo:recipe:a=1,").is_err());
}

#[test]
fn malformed_targets_are_rejected() {
    assert!(Spec::from_target("").is_err());
    assert!(Spec::from_target("foo@").is_err());
    assert!(Spec::from_target("a/b/c").is_err());
    assert!(Spec::from_target("foo:r:a").is_err());
    assert!(Spec::from_target("foo:r:=1").is_err());
    assert!(Spec::from_target("foo bar").is_err());
    assert!(Spec::from_target("owner//name").is_err());
}

#[test]
fn dotted_recipe_segments_are_accepted() {
    let sp = parse("foo:.hidden/rx");
    match sp.recipe() {
        Some(Recipe::Explicit(n)) => assert_eq!(n.as_str(), ".hidden/rx"),
        other => panic!("unexpected recipe {:?}", other),
    }
}

#[test]
fn spec_name_includes_explicit_recipe() {
    assert_eq!(parse("foo:rx").name().as_str(), "rime/rime-foo:rx");
    assert_eq!(parse("foo").name().as_str(), "rime/rime-foo");
    assert_eq!(parse("foo:recipe.yaml").name().as_str(), "rime/rime-foo");
}

#[test]
fn recipe_filenames_are_built() {
    assert_eq!(Recipe::Implicit.filename().as_str(), "recipe.yaml");
    assert_eq!(
        Recipe::Explicit(String::from("bar")).filename().as_str(),
        "bar.recipe.yaml"
    );
}

#[test]
fn error_messages_name_the_failure() {
    let e = Spec::from_target("x-packages.conf").unwrap_err();
    assert_eq!(
        e.message().as_str(),
        "*-packages.conf and *-packages.bat are not supported"
    );
    let e = Spec::from_target("foo::").unwrap_err();
    assert_eq!(e.message().as_str(), "invalid package or recipe");
}

#[test]
fn implicit_recipe_may_still_carry_options() {
    let sp = parse("foo:recipe.yaml:k=1");
    assert!(matches!(sp.recipe(), Some(Recipe::Implicit)));
    assert_eq!(sp.args().get("k").unwrap().as_str(), "1");
}

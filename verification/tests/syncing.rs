//! File-sync selection and the skip-on-identical decision.

use rimeka::glob::PatternSet;
use rimeka::sync::{bytes_equal, select_paths, should_copy};

fn strings(xs: &[&str]) -> Vec<String> {
    xs.iter().map(|x| String::from(*x)).collect()
}

#[test]
fn selection_honours_both_pattern_sets() {
    let inc = PatternSet::new(&strings(&["*.yaml"])).unwrap();
    let exc = PatternSet::new(&strings(&["**/*.custom.yaml"])).unwrap();
    let tree = strings(&["a.yaml", "a.custom.yaml", "sub/b.txt"]);
    let picked = select_paths(&tree, &inc, &exc);
    assert_eq!(picked, strings(&["a.yaml"]));
}

#[test]
fn recursive_patterns_cross_directories() {
    let inc = PatternSet::new(&strings(&["**/*.yaml"])).unwrap();
    let exc = PatternSet::new(&strings(&[])).unwrap();
    let tree = strings(&["a.yaml", "deep/dir/b.yaml", "c.txt"]);
    let picked = select_paths(&tree, &inc, &exc);
    assert_eq!(picked, strings(&["a.yaml", "deep/dir/b.yaml"]));
}

#[test]
fn invalid_patterns_are_refused() {
    let err = PatternSet::new(&strings(&["[abc"])).unwrap_err();
    assert_eq!(err.message().as_str(), "invalid glob pattern");
}

#[test]
fn brace_alternation_is_supported() {
    let inc = PatternSet::new(&strings(&["**/*.{recipe.yaml,custom.yaml}"])).unwrap();
    let exc = PatternSet::new(&strings(&[])).unwrap();
    let tree = strings(&["a.recipe.yaml", "sub/b.custom.yaml", "c.yaml"]);
    let picked = select_paths(&tree, &inc, &exc);
    assert_eq!(picked, strings(&["a.recipe.yaml", "sub/b.custom.yaml"]));
}

#[test]
fn identical_destination_is_skipped() {
    let content = b"same bytes".to_vec();
    assert!(!should_copy(&content, Some(&content)));
}

#[test]
fn differing_or_missing_destination_is_copied() {
    let src = b"new".to_vec();
    let old = b"old".to_vec();
    assert!(should_copy(&src, Some(&old)));
    assert!(should_copy(&src, None));
}

#[test]
fn byte_equality_is_exact() {
    assert!(bytes_equal(b"", b""));
    assert!(bytes_equal(b"abc", b"abc"));
    assert!(!bytes_equal(b"abc", b"abd"));
    assert!(!bytes_equal(b"abc", b"ab"));
}

#[test]
fn empty_inclusion_set_selects_nothing() {
    let inc = PatternSet::new(&strings(&[])).unwrap();
    let exc = PatternSet::new(&strings(&[])).unwrap();
    let tree = strings(&["a.yaml", "b.txt"]);
    assert!(select_paths(&tree, &inc, &exc).is_empty());
}

//! Target resolution, builtin bundles, fetch plans and run options.

use rimeka::builtins;
use rimeka::fetcher::{parse_head_ref, FetchAction, GitHubFetcher};
use rimeka::optmap::OptionMap;
use rimeka::options::Frontend;
use rimeka::target::{resolve_targets, Spec};

#[test]
fn preset_bundle_expands_in_declaration_order() {
    let v = builtins::preset().unwrap();
    assert_eq!(v.len(), 7);
    assert_eq!(v[0].repo(), "rime/rime-bopomofo");
    assert_eq!(v[3].repo(), "rime/rime-luna-pinyin");
    assert_eq!(v[6].repo(), "rime/rime-terra-pinyin");
    assert!(v.iter().all(|s| s.branch().is_none() && s.recipe().is_none()));
}

#[test]
fn extra_bundle_expands_in_declaration_order() {
    let v = builtins::extra().unwrap();
    assert_eq!(v.len(), 15);
    assert_eq!(v[0].repo(), "rime/rime-array");
    assert_eq!(v[14].repo(), "rime/rime-wugniu");
}

#[test]
fn all_is_preset_then_extra() {
    let v = builtins::all().unwrap();
    assert_eq!(v.len(), 22);
    assert_eq!(v[0].repo(), "rime/rime-bopomofo");
    assert_eq!(v[7].repo(), "rime/rime-array");
    assert_eq!(v[21].repo(), "rime/rime-wugniu");
}

#[test]
fn sentinel_targets_expand_to_bundles() {
    assert_eq!(Spec::resolve(":preset").unwrap().len(), 7);
    assert_eq!(Spec::resolve(":extra").unwrap().len(), 15);
    assert_eq!(Spec::resolve(":all").unwrap().len(), 22);
}

#[test]
fn ordinary_targets_resolve_to_one_spec() {
    let v = Spec::resolve("pinyin").unwrap();
    assert_eq!(v.len(), 1);
    assert_eq!(v[0].repo(), "rime/rime-pinyin");
    assert!(Spec::resolve("foo@.bad").is_err());
}

#[test]
fn fetch_plans_point_at_the_hosting_service() {
    let sp = Spec::from_target("me/pinyin@dev").unwrap();
    let f = GitHubFetcher::new(&sp, "packages/me/pinyin");
    assert_eq!(f.url().as_str(), "https://github.com/me/pinyin");
    assert_eq!(f.dir().as_str(), "packages/me/pinyin");
    assert_eq!(f.branch().unwrap().as_str(), "dev");
}

#[test]
fn default_branch_is_read_from_symref_output() {
    let output = "ref: refs/heads/main\tHEAD\n0123abcd\tHEAD\n";
    assert_eq!(parse_head_ref(output).unwrap().as_str(), "main");
    assert!(parse_head_ref("0123abcd\tHEAD\n").is_none());
    assert!(parse_head_ref("").is_none());
}

#[test]
fn frontend_names_round_trip() {
    assert_eq!(Frontend::from_name("ibus-rime"), Some(Frontend::Ibus));
    assert_eq!(Frontend::from_name("rime/squirrel"), Some(Frontend::Squirrel));
    assert_eq!(Frontend::from_name("weasel"), Some(Frontend::Weasel));
    assert_eq!(Frontend::from_name("fcitx5-rime"), Some(Frontend::Fcitx5));
    assert_eq!(Frontend::from_name("nonsense"), None);
    assert_eq!(Frontend::Ibus.label().as_str(), "rime/ibus-rime");
    assert_eq!(Frontend::Unknown.label().as_str(), "unknown");
}

#[test]
fn frontends_know_their_directories() {
    assert_eq!(
        Frontend::Ibus.rime_subdir().unwrap().as_str(),
        ".config/ibus/rime"
    );
    assert_eq!(
        Frontend::Weasel.rime_subdir().unwrap().as_str(),
        "AppData/Roaming/Rime"
    );
    assert!(Frontend::Unknown.rime_subdir().is_none());
}

#[test]
fn option_maps_keep_sorted_unique_keys() {
    let mut m = OptionMap::new();
    m.insert(String::from("b"), String::from("2"));
    m.insert(String::from("a"), String::from("1"));
    m.insert(String::from("b"), String::from("3"));
    assert_eq!(m.len(), 2);
    let entries = m.entries();
    assert_eq!(entries[0].0.as_str(), "a");
    assert_eq!(entries[1].0.as_str(), "b");
    assert_eq!(m.get("b").unwrap().as_str(), "3");
    assert!(m.get("c").is_none());
}

#[test]
fn targets_resolve_in_order_and_concatenate() {
    let targets = vec![String::from("pinyin"), String::from(":preset")];
    let v = resolve_targets(&targets).unwrap();
    assert_eq!(v.len(), 8);
    assert_eq!(v[0].repo(), "rime/rime-pinyin");
    assert_eq!(v[1].repo(), "rime/rime-bopomofo");
    let bad = vec![String::from("pinyin"), String::from("foo@.bad")];
    assert!(resolve_targets(&bad).is_err());
}

#[test]
fn fetch_action_depends_on_the_repository_marker() {
    let sp = Spec::from_target("foo").unwrap();
    let f = GitHubFetcher::new(&sp, "dir");
    assert!(matches!(f.action(true), FetchAction::Pull));
    assert!(matches!(f.action(false), FetchAction::Clone));
}

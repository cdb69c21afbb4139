//! Recipe interpretation, effective options, block identities and the
//! installation-mode decision.

use rimeka::installer::{
    block_id, effective_options, parse_default_args, DefaultInstaller, InstallError,
    RecipeInstaller,
};
use rimeka::optmap::OptionMap;
use rimeka::package::{InstallMode, Package};
use rimeka::patch::apply_patch;
use rimeka::target::{Recipe, Spec};

fn strings(xs: &[&str]) -> Vec<String> {
    xs.iter().map(|x| String::from(*x)).collect()
}

fn opts(pairs: &[(&str, &str)]) -> OptionMap {
    let mut m = OptionMap::new();
    for (k, v) in pairs {
        m.insert(String::from(*k), String::from(*v));
    }
    m
}

#[test]
fn default_args_split_at_first_equals() {
    let m = parse_default_args(&strings(&["A=1", "B=x=y", "junk", "A=2"]));
    assert_eq!(m.len(), 2);
    assert_eq!(m.get("A").unwrap().as_str(), "2");
    assert_eq!(m.get("B").unwrap().as_str(), "x=y");
    assert!(m.get("junk").is_none());
}

#[test]
fn caller_options_win_over_defaults() {
    let defaults = opts(&[("SIZE", "small"), ("COLOR", "red")]);
    let overrides = opts(&[("SIZE", "big")]);
    let eff = effective_options(&defaults, &overrides);
    assert_eq!(eff.get("SIZE").unwrap().as_str(), "big");
    assert_eq!(eff.get("COLOR").unwrap().as_str(), "red");
    assert_eq!(eff.len(), 2);
}

#[test]
fn block_identities_sort_their_options() {
    let m = opts(&[("zkey", "2"), ("akey", "1")]);
    let id = block_id("owner/name", &Recipe::Explicit(String::from("rx")), &m);
    assert_eq!(id.as_str(), "owner/name:rx:akey=1,zkey=2");
    let empty = OptionMap::new();
    let id = block_id("owner/name", &Recipe::Implicit, &empty);
    assert_eq!(id.as_str(), "owner/name:recipe.yaml");
}

#[test]
fn install_mode_prefers_the_named_recipe() {
    let sp = Spec::from_target("foo:rx").unwrap();
    let pkg = Package::new(&sp, "packages");
    assert!(matches!(
        pkg.install_mode(true),
        InstallMode::Recipe(Recipe::Explicit(_))
    ));
    let sp = Spec::from_target("foo").unwrap();
    let pkg = Package::new(&sp, "packages");
    assert!(matches!(
        pkg.install_mode(true),
        InstallMode::Recipe(Recipe::Implicit)
    ));
    assert!(matches!(pkg.install_mode(false), InstallMode::Default));
}

#[test]
fn package_directories_are_cleaned_joins() {
    let sp = Spec::from_target("foo").unwrap();
    let pkg = Package::new(&sp, "base/./packages");
    assert_eq!(pkg.dir().as_str(), "base/packages/rime/rime-foo");
}

#[test]
fn recipe_plan_carries_options_files_and_patches() {
    let sp = Spec::from_target("foo/bar:myrecipe:SIZE=big").unwrap();
    let pkg = Package::new(&sp, "packages");
    let rx = match sp.recipe() {
        Some(r) => r.duplicate(),
        None => panic!("recipe expected"),
    };
    let installer = RecipeInstaller::new(&pkg, String::from("dest"), rx);
    let text = "recipe:\n  args: [\"SIZE=small\", \"COLOR=red\"]\ninstall_files: \"*.yaml 'extra file.txt'\"\npatch_files:\n  default.custom.yaml:\n    - patch:\n        color: ${COLOR}\n        size: ${SIZE}\n";
    let plan = installer.install(text).unwrap();
    assert_eq!(plan.options.get("SIZE").unwrap().as_str(), "big");
    assert_eq!(plan.options.get("COLOR").unwrap().as_str(), "red");
    assert_eq!(
        plan.block_id.as_str(),
        "foo/bar:myrecipe:COLOR=red,SIZE=big"
    );
    assert_eq!(
        plan.file_patterns.as_ref().unwrap(),
        &strings(&["*.yaml", "extra file.txt"])
    );
    assert_eq!(plan.patches.len(), 1);
    assert_eq!(plan.patches[0].filename.as_str(), "default.custom.yaml");

    // Applying the planned patch renders the payload with the effective
    // options substituted.
    let out = apply_patch(
        "",
        plan.block_id.as_str(),
        plan.patches[0].payload_text.as_str(),
        &plan.options,
    )
    .unwrap();
    assert!(out.starts_with("__patch:\n# Rx: foo/bar:myrecipe:COLOR=red,SIZE=big {\n"));
    assert!(out.contains("color: \"red\""));
    assert!(out.contains("size: \"big\""));
    assert!(out.ends_with("# }\n"));
}

#[test]
fn recipe_without_patches_or_files_plans_nothing() {
    let sp = Spec::from_target("foo").unwrap();
    let pkg = Package::new(&sp, "packages");
    let installer = RecipeInstaller::new(&pkg, String::from("dest"), Recipe::Implicit);
    let plan = installer.install("recipe:\n  args: []\n").unwrap();
    assert!(plan.file_patterns.is_none());
    assert!(plan.patches.is_empty());
    assert_eq!(plan.options.len(), 0);
    assert_eq!(plan.block_id.as_str(), "rime/rime-foo:recipe.yaml");
}

#[test]
fn recipe_shape_violations_are_reported() {
    let sp = Spec::from_target("foo").unwrap();
    let pkg = Package::new(&sp, "packages");
    let installer = RecipeInstaller::new(&pkg, String::from("dest"), Recipe::Implicit);
    assert!(matches!(
        installer.install("key: [unclosed"),
        Err(InstallError::YamlParse)
    ));
    assert!(matches!(
        installer.install(""),
        Err(InstallError::EmptyDocument)
    ));
    assert!(matches!(
        installer.install("patch_files:\n  7:\n    - a\n"),
        Err(InstallError::FilenameNotString)
    ));
    assert!(matches!(
        installer.install("patch_files:\n  f.yaml: scalar\n"),
        Err(InstallError::PatchNotArray)
    ));
    assert!(matches!(
        installer.install("install_files: \"unclosed 'quote\"\n"),
        Err(InstallError::FileListSyntax)
    ));
}

#[test]
fn default_install_copies_the_plausible_files() {
    let sp = Spec::from_target("foo").unwrap();
    let pkg = Package::new(&sp, "packages");
    let installer = DefaultInstaller::new(&pkg, String::from("dest"));
    let files = strings(&[
        "main.yaml",
        "recipe.yaml",
        "extra.recipe.yaml",
        "mine.custom.yaml",
        "words.txt",
        "model.gram",
        "opencc/t2s.json",
        "data.ocd",
    ]);
    let picked = installer.install(&files).unwrap();
    assert_eq!(picked, strings(&["main.yaml", "model.gram"]));
}

#[test]
fn patch_entries_keep_document_order() {
    let sp = Spec::from_target("foo").unwrap();
    let pkg = Package::new(&sp, "packages");
    let installer = RecipeInstaller::new(&pkg, String::from("dest"), Recipe::Implicit);
    let text = "patch_files:\n  zz.yaml:\n    - z: 1\n  aa.yaml:\n    - a: 2\n";
    let plan = installer.install(text).unwrap();
    assert_eq!(plan.patches.len(), 2);
    assert_eq!(plan.patches[0].filename.as_str(), "zz.yaml");
    assert_eq!(plan.patches[1].filename.as_str(), "aa.yaml");
}

#[test]
fn non_string_arg_items_are_passed_over() {
    let sp = Spec::from_target("foo").unwrap();
    let pkg = Package::new(&sp, "packages");
    let installer = RecipeInstaller::new(&pkg, String::from("dest"), Recipe::Implicit);
    let text = "recipe:\n  args: [\"A=1\", 42, \"B=2\"]\n";
    let plan = installer.install(text).unwrap();
    assert_eq!(plan.options.len(), 2);
    assert_eq!(plan.options.get("A").unwrap().as_str(), "1");
    assert_eq!(plan.options.get("B").unwrap().as_str(), "2");
}

//! Recipe-driven and default installation: interpreting a recipe document
//! into an installation plan, resolving effective options, and building
//! patch block identities.

use vstd::prelude::*;

use crate::glob::{glob_valid, GlobError, PatternSet};
use crate::optmap::{
    lemma_pairs_concat, lemma_sorted_get_agree, pairs_get_last, seq_get, OptionMap,
};
use crate::package::Package;
use crate::patch::lines_view;
use crate::sync::{select_paths, spec_selected};
use crate::target::Recipe;
use crate::text::{find_char_from, spec_find};
use crate::yaml::{
    args_of, doc_arg_items, doc_count, doc_entries_view, doc_install_files, doc_patch_entries,
    install_files_of, opt_items_view, opt_str_view, patch_docs_of, yaml_docs_of,
};

verus! {

/// Why interpreting a recipe document failed.
#[derive(Debug)]
pub enum InstallError {
    /// The document is not valid YAML.
    YamlParse,
    /// The text holds no document at all.
    EmptyDocument,
    /// A key under `patch_files` is not a string.
    FilenameNotString,
    /// A value under `patch_files` is not an array.
    PatchNotArray,
    /// The `install_files` string is not a well-formed shell word list.
    FileListSyntax,
    /// A patch payload could not be rendered back to text.
    EmitFailed,
}

impl InstallError {
    /// A human-readable description of the failure.
    pub fn message(&self) -> (r: String)
        ensures
            self is YamlParse ==> r@ == "failed to parse yaml"@,
            self is EmptyDocument ==> r@ == "the recipe holds no document"@,
            self is FilenameNotString ==> r@ == "filename must be a string"@,
            self is PatchNotArray ==> r@ == "patch must be an array"@,
            self is FileListSyntax ==> r@ == "syntax error in the file list"@,
            self is EmitFailed ==> r@ == "failed to render a patch payload"@,
    {
        match self {
            InstallError::YamlParse => String::from_str("failed to parse yaml"),
            InstallError::EmptyDocument => String::from_str("the recipe holds no document"),
            InstallError::FilenameNotString => String::from_str("filename must be a string"),
            InstallError::PatchNotArray => String::from_str("patch must be an array"),
            InstallError::FileListSyntax => String::from_str("syntax error in the file list"),
            InstallError::EmitFailed => String::from_str("failed to render a patch payload"),
        }
    }
}

/// What `shlex::split` returns for a string: its shell words, or nothing
/// for erroneous input. Depends on the string alone.
pub uninterp spec fn shell_split(s: Seq<char>) -> Option<Seq<Seq<char>>>;

/// Relies on `shlex::split`: splits a string into shell words, with quoting
/// and escaping; fails on erroneous input such as an unclosed quote.
#[verifier::external_body]
fn split_shell_words(s: &str) -> (r: Option<Vec<String>>)
    ensures
        match r {
            Some(v) => shell_split(s@) matches Some(ws) && lines_view(v@) == ws,
            None => shell_split(s@) is None,
        },
{
    shlex::split(s)
}

/// The option entries declared by a list of `key=value` argument strings,
/// in order; strings without `=` are passed over.
pub open spec fn spec_arg_pairs(ss: Seq<Seq<char>>) -> Seq<(Seq<char>, Seq<char>)>
    decreases ss.len(),
{
    if ss.len() == 0 {
        Seq::empty()
    } else {
        let rest = spec_arg_pairs(ss.drop_last());
        let s = ss.last();
        let j = spec_find(s, '=');
        if 0 <= j < s.len() {
            rest.push((s.subrange(0, j), s.subrange(j + 1, s.len() as int)))
        } else {
            rest
        }
    }
}

/// Reads default options out of a recipe's `args` strings: each
/// `key=value` string declares one option, split at its first `=`; later
/// duplicates win.
pub fn parse_default_args(args: &Vec<String>) -> (r: OptionMap)
    ensures
        r.wf(),
        forall|q: Seq<char>|
            #[trigger] r.spec_get(q) == pairs_get_last(spec_arg_pairs(lines_view(args@)), q),
{
    let n = args.len();
    let mut r = OptionMap::new();
    let mut i: usize = 0;
    proof {
        crate::optmap::lemma_empty_lookups(r@);
        assert(lines_view(args@).take(0) =~= Seq::<Seq<char>>::empty());
    }
    while i < n
        invariant
            i <= n,
            n == args@.len(),
            r.wf(),
            forall|q: Seq<char>|
                #[trigger] r.spec_get(q) == pairs_get_last(
                    spec_arg_pairs(lines_view(args@).take(i as int)),
                    q,
                ),
        decreases n - i,
    {
        let s = &args[i];
        let sn = s.as_str().unicode_len();
        let j = find_char_from(s.as_str(), 0, '=');
        let ghost pv = lines_view(args@);
        proof {
            assert(s@.subrange(0, s@.len() as int) =~= s@);
            assert(pv.take(i + 1).drop_last() =~= pv.take(i as int));
            assert(pv.take(i + 1).last() == s@);
        }
        if j < sn {
            let key = s.as_str().substring_char(0, j).to_owned();
            let val = s.as_str().substring_char(j + 1, sn).to_owned();
            let ghost pre = r;
            let ghost kv = (key@, val@);
            r.insert(key, val);
            proof {
                let ps = spec_arg_pairs(pv.take(i + 1));
                assert(ps == spec_arg_pairs(pv.take(i as int)).push(kv));
                assert(ps.drop_last() =~= spec_arg_pairs(pv.take(i as int)));
                assert(ps.last() == kv);
                assert forall|q: Seq<char>|
                    #[trigger] r.spec_get(q) == pairs_get_last(ps, q) by {
                    assert(seq_get(r@, q) == if q == kv.0 {
                        Some(kv.1)
                    } else {
                        seq_get(pre@, q)
                    });
                    assert(pre.spec_get(q) == pairs_get_last(
                        spec_arg_pairs(pv.take(i as int)),
                        q,
                    ));
                    if q == kv.0 {
                    } else {
                        assert(pairs_get_last(ps, q) == pairs_get_last(
                            spec_arg_pairs(pv.take(i as int)),
                            q,
                        ));
                    }
                }
            }
        } else {
            proof {
                assert(spec_arg_pairs(pv.take(i + 1)) == spec_arg_pairs(pv.take(i as int)));
            }
        }
        i += 1;
    }
    proof {
        assert(lines_view(args@).take(n as int) =~= lines_view(args@));
    }
    r
}

/// The effective options of an installation: the recipe's defaults
/// overridden entry by entry by the caller-supplied options; the caller
/// wins on a key collision.
pub fn effective_options(defaults: &OptionMap, overrides: &OptionMap) -> (r: OptionMap)
    requires
        defaults.wf(),
        overrides.wf(),
    ensures
        r.wf(),
        forall|q: Seq<char>|
            #[trigger] r.spec_get(q) == if overrides.spec_get(q) is Some {
                overrides.spec_get(q)
            } else {
                defaults.spec_get(q)
            },
{
    let mut r = OptionMap::new();
    proof {
        crate::optmap::lemma_empty_lookups(r@);
    }
    let d = defaults.entries();
    let nd = d.len();
    let mut i: usize = 0;
    proof {
        assert(defaults@.take(0) =~= Seq::<(Seq<char>, Seq<char>)>::empty());
    }
    while i < nd
        invariant
            i <= nd,
            nd == defaults@.len(),
            d@.len() == defaults@.len(),
            forall|k: int|
                0 <= k < defaults@.len() ==> (#[trigger] d@[k]).0@ == defaults@[k].0 && d@[k].1@
                    == defaults@[k].1,
            r.wf(),
            forall|q: Seq<char>|
                #[trigger] r.spec_get(q) == pairs_get_last(defaults@.take(i as int), q),
        decreases nd - i,
    {
        let key = d[i].0.clone();
        let val = d[i].1.clone();
        let ghost kv = (key@, val@);
        let ghost rpre = r;
        r.insert(key, val);
        proof {
            let post = defaults@.take(i + 1);
            assert(post.drop_last() =~= defaults@.take(i as int));
            assert(post.last() == defaults@[i as int]);
            assert(kv == defaults@[i as int]);
            assert forall|q: Seq<char>|
                #[trigger] r.spec_get(q) == pairs_get_last(post, q) by {
                assert(seq_get(r@, q) == if q == kv.0 {
                    Some(kv.1)
                } else {
                    seq_get(rpre@, q)
                });
                assert(rpre.spec_get(q) == pairs_get_last(defaults@.take(i as int), q));
                if q == kv.0 {
                } else {
                    assert(pairs_get_last(post, q) == pairs_get_last(defaults@.take(i as int), q));
                }
            }
        }
        i += 1;
    }
    let o = overrides.entries();
    let no = o.len();
    let mut j: usize = 0;
    proof {
        assert(defaults@.take(nd as int) =~= defaults@);
        assert(overrides@.take(0) =~= Seq::<(Seq<char>, Seq<char>)>::empty());
        assert(defaults@ + overrides@.take(0) =~= defaults@);
    }
    while j < no
        invariant
            j <= no,
            no == overrides@.len(),
            o@.len() == overrides@.len(),
            forall|k: int|
                0 <= k < overrides@.len() ==> (#[trigger] o@[k]).0@ == overrides@[k].0 && o@[k].1@
                    == overrides@[k].1,
            r.wf(),
            forall|q: Seq<char>|
                #[trigger] r.spec_get(q) == pairs_get_last(
                    defaults@ + overrides@.take(j as int),
                    q,
                ),
        decreases no - j,
    {
        let key = o[j].0.clone();
        let val = o[j].1.clone();
        let ghost kv = (key@, val@);
        let ghost rpre = r;
        r.insert(key, val);
        proof {
            let pre = defaults@ + overrides@.take(j as int);
            let post = defaults@ + overrides@.take(j + 1);
            assert(post.drop_last() =~= pre);
            assert(post.last() == overrides@[j as int]);
            assert(kv == overrides@[j as int]);
            assert forall|q: Seq<char>|
                #[trigger] r.spec_get(q) == pairs_get_last(post, q) by {
                assert(seq_get(r@, q) == if q == kv.0 {
                    Some(kv.1)
                } else {
                    seq_get(rpre@, q)
                });
                assert(rpre.spec_get(q) == pairs_get_last(pre, q));
                if q == kv.0 {
                } else {
                    assert(pairs_get_last(post, q) == pairs_get_last(pre, q));
                }
            }
        }
        j += 1;
    }
    proof {
        assert(defaults@ + overrides@.take(no as int) =~= defaults@ + overrides@);
        assert forall|q: Seq<char>|
            #[trigger] r.spec_get(q) == if overrides.spec_get(q) is Some {
                overrides.spec_get(q)
            } else {
                defaults.spec_get(q)
            } by {
            lemma_pairs_concat(defaults@, overrides@, q);
            lemma_sorted_get_agree(defaults@, q);
            lemma_sorted_get_agree(overrides@, q);
        }
    }
    r
}

/// The rendering of sorted option entries as `key=value` joined by commas.
pub open spec fn spec_join_opts(es: Seq<(Seq<char>, Seq<char>)>) -> Seq<char>
    decreases es.len(),
{
    if es.len() == 0 {
        Seq::empty()
    } else if es.len() == 1 {
        es[0].0 + "="@ + es[0].1
    } else {
        spec_join_opts(es.drop_last()) + ","@ + es.last().0 + "="@ + es.last().1
    }
}

/// The identity of a patch block: the repository, the recipe name, and,
/// when options are present, the option list in ascending key order.
pub open spec fn spec_block_id(
    repo: Seq<char>,
    rec: Recipe,
    entries: Seq<(Seq<char>, Seq<char>)>,
) -> Seq<char> {
    let base = repo + ":"@ + rec.spec_id_name();
    if entries.len() == 0 {
        base
    } else {
        base + ":"@ + spec_join_opts(entries)
    }
}

/// Builds the patch block identity for a repository, recipe and effective
/// options. Two installations that differ only in options get distinct,
/// deterministic identities: the map holds its entries sorted by key.
pub fn block_id(repo: &str, rec: &Recipe, options: &OptionMap) -> (r: String)
    ensures
        r@ == spec_block_id(repo@, *rec, options@),
{
    let name = rec.id_name();
    let mut s = String::from_str(repo).concat(":").concat(name.as_str());
    let ghost base = repo@ + ":"@ + rec.spec_id_name();
    proof {
        assert(s@ =~= base);
    }
    let es = options.entries();
    let n = es.len();
    if n == 0 {
        return s;
    }
    s = s.concat(":");
    let mut i: usize = 0;
    proof {
        assert(options@.take(0) =~= Seq::<(Seq<char>, Seq<char>)>::empty());
        assert(s@ =~= base + ":"@ + spec_join_opts(options@.take(0)));
    }
    while i < n
        invariant
            i <= n,
            n == options@.len(),
            n > 0,
            es@.len() == options@.len(),
            forall|k: int|
                0 <= k < options@.len() ==> (#[trigger] es@[k]).0@ == options@[k].0 && es@[k].1@
                    == options@[k].1,
            base == repo@ + ":"@ + rec.spec_id_name(),
            s@ == base + ":"@ + spec_join_opts(options@.take(i as int)),
        decreases n - i,
    {
        if i > 0 {
            s = s.concat(",");
        }
        s = s.concat(es[i].0.as_str()).concat("=").concat(es[i].1.as_str());
        proof {
            let ov = options@;
            assert(ov.take(i + 1).drop_last() =~= ov.take(i as int));
            assert(ov.take(i + 1).last() == ov[i as int]);
            if i == 0 {
                assert(spec_join_opts(ov.take(1)) =~= ov[0].0 + "="@ + ov[0].1);
                assert(s@ =~= base + ":"@ + spec_join_opts(ov.take(1)));
            } else {
                assert(spec_join_opts(ov.take(i + 1)) =~= spec_join_opts(ov.take(i as int)) + ","@
                    + ov[i as int].0 + "="@ + ov[i as int].1);
                assert(s@ =~= base + ":"@ + spec_join_opts(ov.take(i + 1)));
            }
        }
        i += 1;
    }
    proof {
        assert(options@.take(n as int) =~= options@);
    }
    s
}

/// The string items of a document's argument list, in order.
pub open spec fn spec_string_items(items: Seq<Option<Seq<char>>>) -> Seq<Seq<char>>
    decreases items.len(),
{
    if items.len() == 0 {
        Seq::empty()
    } else {
        let rest = spec_string_items(items.drop_last());
        match items.last() {
            Some(s) => rest.push(s),
            None => rest,
        }
    }
}

/// The default option entries a document declares: its `recipe.args`
/// strings, split at their first `=`.
pub open spec fn spec_default_entries(text: Seq<char>) -> Seq<(Seq<char>, Seq<char>)> {
    match args_of(text) {
        None => Seq::empty(),
        Some(items) => spec_arg_pairs(spec_string_items(items)),
    }
}

/// The document's patch entries; empty when it declares none.
pub open spec fn spec_doc_patches(text: Seq<char>) -> Seq<
    (Option<Seq<char>>, bool, Option<Seq<char>>),
> {
    match patch_docs_of(text) {
        None => Seq::empty(),
        Some(es) => es,
    }
}

/// The patch tasks the document's entries yield, in document order, or
/// the first failing entry's error: a key that is not a string, a
/// payload that is not an array, or a payload the emitter refuses.
pub open spec fn spec_patch_plan(es: Seq<(Option<Seq<char>>, bool, Option<Seq<char>>)>) -> Result<
    Seq<(Seq<char>, Seq<char>)>,
    InstallError,
>
    decreases es.len(),
{
    if es.len() == 0 {
        Ok(Seq::empty())
    } else {
        match es[0].0 {
            None => Err(InstallError::FilenameNotString),
            Some(f) => if !es[0].1 {
                Err(InstallError::PatchNotArray)
            } else {
                match es[0].2 {
                    None => Err(InstallError::EmitFailed),
                    Some(t) => match spec_patch_plan(es.drop_first()) {
                        Err(e) => Err(e),
                        Ok(rest) => Ok(seq![(f, t)] + rest),
                    },
                }
            },
        }
    }
}

/// Keeps the items that are strings, in order.
fn collect_strings(items: &Vec<Option<String>>) -> (r: Vec<String>)
    ensures
        lines_view(r@) == spec_string_items(opt_items_view(items@)),
{
    let n = items.len();
    let mut r: Vec<String> = Vec::new();
    let mut i: usize = 0;
    proof {
        assert(lines_view(r@) =~= spec_string_items(opt_items_view(items@).take(0)));
    }
    while i < n
        invariant
            i <= n,
            n == items@.len(),
            lines_view(r@) =~= spec_string_items(opt_items_view(items@).take(i as int)),
        decreases n - i,
    {
        let ghost iv = opt_items_view(items@);
        let ghost rpre = lines_view(r@);
        match &items[i] {
            Some(s) => {
                r.push(s.clone());
            },
            None => {},
        }
        proof {
            assert(iv.take(i + 1).drop_last() =~= iv.take(i as int));
            assert(iv.take(i + 1).last() == iv[i as int]);
            assert(iv[i as int] == opt_str_view(items@[i as int]));
            match items@[i as int] {
                Some(s) => {
                    assert(lines_view(r@) =~= rpre.push(s@));
                },
                None => {},
            }
            assert(lines_view(r@) =~= spec_string_items(iv.take(i + 1)));
        }
        i += 1;
    }
    proof {
        assert(opt_items_view(items@).take(n as int) =~= opt_items_view(items@));
    }
    r
}

/// One text patch an installation plan injects.
#[derive(Debug)]
pub struct PatchTask {
    /// The destination file, relative to the destination directory.
    pub filename: String,
    /// The payload rendered as a YAML document text.
    pub payload_text: String,
}

/// The filenames and payload texts of planned patches.
pub open spec fn patches_view(ps: Seq<PatchTask>) -> Seq<(Seq<char>, Seq<char>)> {
    ps.map_values(|p: PatchTask| (p.filename@, p.payload_text@))
}

/// Everything a recipe asks an installation to do.
#[derive(Debug)]
pub struct RecipePlan {
    /// The effective options: recipe defaults overridden by the target's.
    pub options: OptionMap,
    /// The identity under which patch blocks are tracked.
    pub block_id: String,
    /// The shell words of `install_files`, when the recipe lists files.
    pub file_patterns: Option<Vec<String>>,
    /// The patches of `patch_files`, in document order.
    pub patches: Vec<PatchTask>,
}

/// Installs a package by its recipe document.
#[derive(Debug)]
pub struct RecipeInstaller<'a> {
    package: &'a Package<'a>,
    dest: String,
    recipe: Recipe,
}

impl<'a> RecipeInstaller<'a> {
    pub closed spec fn spec_package(self) -> Package<'a> {
        *self.package
    }

    pub closed spec fn spec_dest(self) -> Seq<char> {
        self.dest@
    }

    pub closed spec fn spec_recipe(self) -> Recipe {
        self.recipe
    }

    pub open spec fn wf(self) -> bool {
        self.spec_package().wf()
    }

    pub fn new(package: &'a Package<'a>, dest: String, recipe: Recipe) -> (r: Self)
        ensures
            r.spec_package() == *package,
            r.spec_dest() == dest@,
            r.spec_recipe() == recipe,
    {
        RecipeInstaller { package, dest, recipe }
    }

    pub fn dest(&self) -> (r: &String)
        ensures
            r@ == self.spec_dest(),
    {
        &self.dest
    }

    /// Interprets the recipe document into an installation plan. The
    /// effective options resolve the document's default `args` with the
    /// target's options, the target's options winning on collisions; the
    /// block identity is built from the repository, the recipe name and
    /// those effective options; the plan lists the document's
    /// `install_files` shell words exactly when the document declares
    /// them, and its `patch_files` entries in document order. Failures
    /// are pinned to their causes: unparsable text, an empty text, an
    /// unsplittable file list, and the first ill-shaped patch entry.
    pub fn install(&self, recipe_text: &str) -> (r: Result<RecipePlan, InstallError>)
        requires
            self.wf(),
        ensures
            (r matches Err(e) && e is YamlParse) <==> yaml_docs_of(recipe_text@) is None,
            (r matches Err(e) && e is EmptyDocument) <==> yaml_docs_of(recipe_text@) == Some(
                0nat,
            ),
            ({
                let parsed = yaml_docs_of(recipe_text@) matches Some(n) && n > 0;
                let flist_bad = install_files_of(recipe_text@) matches Some(s) && shell_split(s)
                    is None;
                &&& ((r matches Err(e) && e is FileListSyntax) <==> (parsed && flist_bad))
                &&& ((parsed && !flist_bad) ==> match spec_patch_plan(
                    spec_doc_patches(recipe_text@),
                ) {
                    Err(pe) => r == Err::<RecipePlan, InstallError>(pe),
                    Ok(pairs) => r matches Ok(plan) && {
                        &&& patches_view(plan.patches@) == pairs
                        &&& match install_files_of(recipe_text@) {
                            None => plan.file_patterns is None,
                            Some(s) => plan.file_patterns matches Some(v) && shell_split(s)
                                == Some(lines_view(v@)),
                        }
                        &&& plan.options.wf()
                        &&& (forall|q: Seq<char>|
                            #[trigger] plan.options.spec_get(q) == if self.spec_package(
                            ).spec_spec().spec_options().spec_get(q) is Some {
                                self.spec_package().spec_spec().spec_options().spec_get(q)
                            } else {
                                pairs_get_last(spec_default_entries(recipe_text@), q)
                            })
                        &&& plan.block_id@ == spec_block_id(
                            self.spec_package().spec_spec().spec_repo(),
                            self.spec_recipe(),
                            plan.options@,
                        )
                    },
                })
            }),
    {
        match doc_count(recipe_text) {
            None => {
                return Err(InstallError::YamlParse);
            },
            Some(n) => {
                if n == 0 {
                    return Err(InstallError::EmptyDocument);
                }
            },
        }

        // Default options declared by the document.
        let arg_strings: Vec<String> = match doc_arg_items(recipe_text) {
            Some(items) => {
                let v = collect_strings(&items);
                proof {
                    assert(spec_arg_pairs(lines_view(v@)) == spec_default_entries(recipe_text@));
                }
                v
            },
            None => {
                let v: Vec<String> = Vec::new();
                proof {
                    assert(lines_view(v@) =~= Seq::<Seq<char>>::empty());
                    assert(spec_arg_pairs(lines_view(v@)) == spec_default_entries(recipe_text@));
                }
                v
            },
        };
        let defaults = parse_default_args(&arg_strings);
        let eff = effective_options(&defaults, self.package.spec().args());
        let id = block_id(self.package.spec().repo(), &self.recipe, &eff);
        proof {
            let target_opts = self.spec_package().spec_spec().spec_options();
            assert forall|q: Seq<char>|
                #[trigger] eff.spec_get(q) == if target_opts.spec_get(q) is Some {
                    target_opts.spec_get(q)
                } else {
                    pairs_get_last(spec_default_entries(recipe_text@), q)
                } by {
                assert(defaults.spec_get(q) == pairs_get_last(
                    spec_arg_pairs(lines_view(arg_strings@)),
                    q,
                ));
            }
        }

        // Files listed for copying.
        let file_patterns = match doc_install_files(recipe_text) {
            Some(s) => match split_shell_words(s.as_str()) {
                Some(ws) => Some(ws),
                None => {
                    return Err(InstallError::FileListSyntax);
                },
            },
            None => None,
        };

        // Patches to inject, in document order.
        let mut patches: Vec<PatchTask> = Vec::new();
        match doc_patch_entries(recipe_text) {
            Some(entries) => {
                let ghost ev = doc_entries_view(entries@);
                let m = entries.len();
                let mut i: usize = 0;
                proof {
                    assert(ev.subrange(0, ev.len() as int) =~= ev);
                    assert(patches_view(patches@) =~= Seq::<(Seq<char>, Seq<char>)>::empty());
                }
                while i < m
                    invariant
                        i <= m,
                        m == entries@.len(),
                        ev == doc_entries_view(entries@),
                        ev == spec_doc_patches(recipe_text@),
                        yaml_docs_of(recipe_text@) matches Some(n) && n > 0,
                        !(install_files_of(recipe_text@) matches Some(s) && shell_split(s)
                            is None),
                        ({
                            let whole = spec_patch_plan(ev);
                            let rest = spec_patch_plan(ev.subrange(i as int, ev.len() as int));
                            &&& (rest matches Ok(rp) ==> (whole matches Ok(wp) && wp
                                == patches_view(patches@) + rp))
                            &&& (rest matches Err(e2) ==> whole == Err::<
                                Seq<(Seq<char>, Seq<char>)>,
                                InstallError,
                            >(e2))
                        }),
                    decreases m - i,
                {
                    let ghost suffix = ev.subrange(i as int, ev.len() as int);
                    proof {
                        assert(suffix[0] == ev[i as int]);
                        assert(ev[i as int] == (
                            opt_str_view(entries@[i as int].0),
                            entries@[i as int].1,
                            opt_str_view(entries@[i as int].2),
                        ));
                        assert(suffix.drop_first() =~= ev.subrange(i + 1, ev.len() as int));
                    }
                    let filename = match &entries[i].0 {
                        Some(s) => s.clone(),
                        None => {
                            return Err(InstallError::FilenameNotString);
                        },
                    };
                    if !entries[i].1 {
                        return Err(InstallError::PatchNotArray);
                    }
                    let payload_text = match &entries[i].2 {
                        Some(t) => t.clone(),
                        None => {
                            return Err(InstallError::EmitFailed);
                        },
                    };
                    let ghost ppre = patches_view(patches@);
                    let ghost pair = (filename@, payload_text@);
                    patches.push(PatchTask { filename, payload_text });
                    proof {
                        assert(patches_view(patches@) =~= ppre.push(pair));
                        assert(suffix[0].0 == Some(pair.0) && suffix[0].1 && suffix[0].2 == Some(
                            pair.1,
                        ));
                        let rest2 = spec_patch_plan(ev.subrange(i + 1, ev.len() as int));
                        assert(spec_patch_plan(suffix) == match rest2 {
                            Err(e2) => Err::<Seq<(Seq<char>, Seq<char>)>, InstallError>(e2),
                            Ok(rp2) => Ok(seq![pair] + rp2),
                        });
                        if rest2 is Ok {
                            assert(ppre + (seq![pair] + rest2->Ok_0) =~= patches_view(patches@)
                                + rest2->Ok_0);
                        }
                    }
                    i += 1;
                }
                proof {
                    assert(ev.subrange(m as int, ev.len() as int) =~= Seq::<
                        (Option<Seq<char>>, bool, Option<Seq<char>>),
                    >::empty());
                    assert(patches_view(patches@) + Seq::<(Seq<char>, Seq<char>)>::empty()
                        =~= patches_view(patches@));
                }
            },
            None => {
                proof {
                    assert(spec_doc_patches(recipe_text@) =~= Seq::<
                        (Option<Seq<char>>, bool, Option<Seq<char>>),
                    >::empty());
                    assert(patches_view(patches@) =~= Seq::<(Seq<char>, Seq<char>)>::empty());
                }
            },
        }

        Ok(RecipePlan { options: eff, block_id: id, file_patterns, patches })
    }
}

/// The fixed patterns of a default install: everything plausible is
/// copied, recipe machinery and other config formats are not.
pub open spec fn default_inc_patterns() -> Seq<Seq<char>> {
    seq!["*.yaml"@, "*.txt"@, "*.gram"@, "opencc/*.*"@]
}

pub open spec fn default_exc_patterns() -> Seq<Seq<char>> {
    seq![
        "recipe.yaml"@,
        "**/*.recipe.yaml"@,
        "**/*.custom.yaml"@,
        "**/*.json"@,
        "**/*.ocd"@,
        "**/*.txt"@,
    ]
}

/// Installs a package that has no recipe: a sync with fixed patterns.
#[derive(Debug)]
pub struct DefaultInstaller<'a> {
    package: &'a Package<'a>,
    dest: String,
}

impl<'a> DefaultInstaller<'a> {
    pub closed spec fn spec_package(self) -> Package<'a> {
        *self.package
    }

    pub closed spec fn spec_dest(self) -> Seq<char> {
        self.dest@
    }

    pub fn new(package: &'a Package<'a>, dest: String) -> (r: Self)
        ensures
            r.spec_package() == *package,
            r.spec_dest() == dest@,
    {
        DefaultInstaller { package, dest }
    }

    pub fn dest(&self) -> (r: &String)
        ensures
            r@ == self.spec_dest(),
    {
        &self.dest
    }

    /// Selects, from the package's files (relative paths), those a default
    /// install copies: files matching the fixed inclusion patterns and not
    /// the fixed exclusion patterns. Fails only when one of those fixed
    /// patterns is not a well-formed glob.
    pub fn install(&self, files: &Vec<String>) -> (r: Result<Vec<String>, GlobError>)
        ensures
            match r {
                Ok(sel) => lines_view(sel@) == spec_selected(
                    lines_view(files@),
                    default_inc_patterns(),
                    default_exc_patterns(),
                ),
                Err(e) => (exists|i: int|
                    0 <= i < default_inc_patterns().len() && !glob_valid(
                        #[trigger] default_inc_patterns()[i],
                    )) || (exists|i: int|
                    0 <= i < default_exc_patterns().len() && !glob_valid(
                        #[trigger] default_exc_patterns()[i],
                    )),
            },
    {
        let mut inc_v: Vec<String> = Vec::new();
        inc_v.push(String::from_str("*.yaml"));
        inc_v.push(String::from_str("*.txt"));
        inc_v.push(String::from_str("*.gram"));
        inc_v.push(String::from_str("opencc/*.*"));
        let mut exc_v: Vec<String> = Vec::new();
        exc_v.push(String::from_str("recipe.yaml"));
        exc_v.push(String::from_str("**/*.recipe.yaml"));
        exc_v.push(String::from_str("**/*.custom.yaml"));
        exc_v.push(String::from_str("**/*.json"));
        exc_v.push(String::from_str("**/*.ocd"));
        exc_v.push(String::from_str("**/*.txt"));
        proof {
            assert(lines_view(inc_v@) =~= default_inc_patterns());
            assert(lines_view(exc_v@) =~= default_exc_patterns());
        }
        let inc = match PatternSet::new(&inc_v) {
            Ok(ps) => ps,
            Err(e) => {
                proof {
                    let i = choose|i: int|
                        0 <= i < inc_v@.len() && !glob_valid(#[trigger] inc_v@[i]@);
                    assert(default_inc_patterns()[i] == lines_view(inc_v@)[i]);
                    assert(!glob_valid(default_inc_patterns()[i]));
                }
                return Err(e);
            },
        };
        let exc = match PatternSet::new(&exc_v) {
            Ok(ps) => ps,
            Err(e) => {
                proof {
                    let i = choose|i: int|
                        0 <= i < exc_v@.len() && !glob_valid(#[trigger] exc_v@[i]@);
                    assert(default_exc_patterns()[i] == lines_view(exc_v@)[i]);
                    assert(!glob_valid(default_exc_patterns()[i]));
                }
                return Err(e);
            },
        };
        proof {
            assert(inc@ =~= default_inc_patterns());
            assert(exc@ =~= default_exc_patterns());
        }
        Ok(select_paths(files, &inc, &exc))
    }
}

} // verus!

//! Package specifications and the parser that produces them from target
//! strings.

use vstd::prelude::*;

use crate::grammar::{
    check_path, check_span, spec_entry, spec_options, spec_target, CharClass, RawTarget,
    valid_repo,
};
use crate::optmap::{pairs_get_last, OptionMap};
use crate::text::{
    ends_with_str, find_char_from, spec_ends_with, spec_find, spec_trim, str_eq, trim_str,
};

verus! {

/// How a target refers to a recipe: the repository's single unnamed recipe
/// file, or a named recipe file.
#[derive(Debug, Clone)]
pub enum Recipe {
    Implicit,
    Explicit(String),
}

/// The filename of the implicit recipe document.
pub open spec fn implicit_recipe_name() -> Seq<char> {
    "recipe.yaml"@
}

/// The filename suffix of named recipe documents.
pub open spec fn recipe_suffix() -> Seq<char> {
    ".recipe.yaml"@
}

/// A named recipe reference with the recipe filename suffix removed.
pub open spec fn strip_recipe_suffix(n: Seq<char>) -> Seq<char> {
    if spec_ends_with(n, recipe_suffix()) {
        n.take(n.len() - recipe_suffix().len())
    } else {
        n
    }
}

impl Recipe {
    pub open spec fn spec_filename(self) -> Seq<char> {
        match self {
            Recipe::Implicit => implicit_recipe_name(),
            Recipe::Explicit(n) => n@ + recipe_suffix(),
        }
    }

    /// The name of the recipe file inside the package directory.
    pub fn filename(&self) -> (r: String)
        ensures
            r@ == self.spec_filename(),
    {
        match self {
            Recipe::Implicit => String::from_str("recipe.yaml"),
            Recipe::Explicit(n) => n.clone().concat(".recipe.yaml"),
        }
    }

    /// The name under which the recipe appears in a patch block identity.
    pub open spec fn spec_id_name(self) -> Seq<char> {
        match self {
            Recipe::Implicit => implicit_recipe_name(),
            Recipe::Explicit(n) => n@,
        }
    }

    pub fn id_name(&self) -> (r: String)
        ensures
            r@ == self.spec_id_name(),
    {
        match self {
            Recipe::Implicit => String::from_str("recipe.yaml"),
            Recipe::Explicit(n) => n.clone(),
        }
    }
}

/// Why a target string was rejected.
#[derive(Debug)]
pub enum ParseError {
    /// The target names a legacy multi-package file, which is rejected
    /// outright rather than parsed.
    Unsupported,
    /// The target is not in the grammar; the span (in characters of the
    /// trimmed target) points at the offending region.
    Invalid { start: usize, end: usize },
}

impl ParseError {
    /// A human-readable description of the failure.
    pub fn message(&self) -> (r: String)
        ensures
            self is Unsupported ==> r@ == "*-packages.conf and *-packages.bat are not supported"@,
            self is Invalid ==> r@ == "invalid package or recipe"@,
    {
        match self {
            ParseError::Unsupported => String::from_str(
                "*-packages.conf and *-packages.bat are not supported",
            ),
            ParseError::Invalid { .. } => String::from_str("invalid package or recipe"),
        }
    }
}

/// Targets that end in a legacy multi-package filename are rejected without
/// being parsed.
pub open spec fn spec_unsupported(s: Seq<char>) -> bool {
    spec_ends_with(s, "-packages.conf"@) || spec_ends_with(s, "-packages.bat"@)
}

/// Bare names are rewritten into the builtin namespace.
pub open spec fn expand_repo(r: Seq<char>) -> Seq<char> {
    if r.contains('/') {
        r
    } else {
        "rime/rime-"@ + r
    }
}

/// A parsed target: repository identity, optional branch, optional recipe
/// reference, and recipe options.
#[derive(Debug)]
pub struct Spec {
    repo: String,
    branch: Option<String>,
    recipe: Option<Recipe>,
    options: OptionMap,
}

impl Spec {
    pub closed spec fn spec_repo(self) -> Seq<char> {
        self.repo@
    }

    pub closed spec fn spec_branch(self) -> Option<Seq<char>> {
        match self.branch {
            Some(b) => Some(b@),
            None => None,
        }
    }

    pub closed spec fn spec_recipe(self) -> Option<Recipe> {
        self.recipe
    }

    pub closed spec fn spec_options(self) -> OptionMap {
        self.options
    }

    pub open spec fn wf(self) -> bool {
        self.spec_options().wf()
    }

    pub fn repo(&self) -> (r: &str)
        ensures
            r@ == self.spec_repo(),
    {
        self.repo.as_str()
    }

    pub fn branch(&self) -> (r: Option<&str>)
        ensures
            match r {
                Some(b) => self.spec_branch() == Some(b@),
                None => self.spec_branch() is None,
            },
    {
        match &self.branch {
            Some(b) => Some(b.as_str()),
            None => None,
        }
    }

    pub fn recipe(&self) -> (r: Option<&Recipe>)
        ensures
            match r {
                Some(x) => self.spec_recipe() == Some(*x),
                None => self.spec_recipe() is None,
            },
    {
        match &self.recipe {
            Some(x) => Some(x),
            None => None,
        }
    }

    pub fn args(&self) -> (r: &OptionMap)
        ensures
            *r == self.spec_options(),
    {
        &self.options
    }

    /// The display name of the target: `repo:recipe` for a named recipe,
    /// otherwise the repository alone.
    pub open spec fn spec_name(self) -> Seq<char> {
        match self.spec_recipe() {
            Some(Recipe::Explicit(n)) => self.spec_repo() + ":"@ + n@,
            _ => self.spec_repo(),
        }
    }

    pub fn name(&self) -> (r: String)
        ensures
            r@ == self.spec_name(),
    {
        match &self.recipe {
            Some(Recipe::Explicit(n)) => self.repo.clone().concat(":").concat(n.as_str()),
            _ => self.repo.clone(),
        }
    }
}

/// The fields a parsed [`Spec`] must carry for the raw pieces `rt`.
pub open spec fn spec_from_raw(sp: Spec, rt: RawTarget) -> bool {
    &&& sp.spec_repo() == expand_repo(rt.repo)
    &&& match rt.branch {
        None => sp.spec_branch() is None,
        Some(b) => sp.spec_branch() == Some(b),
    }
    &&& match rt.recipe {
        None => sp.spec_recipe() is None,
        Some(nm) => if nm == implicit_recipe_name() {
            sp.spec_recipe() == Some(Recipe::Implicit)
        } else {
            sp.spec_recipe() matches Some(Recipe::Explicit(e)) && e@ == strip_recipe_suffix(nm)
        },
    }
    &&& sp.spec_options().wf()
    &&& forall|q: Seq<char>|
        #[trigger] sp.spec_options().spec_get(q) == pairs_get_last(rt.options, q)
}

/// Parses the option list `s[lo..]`, later entries overriding earlier ones.
fn parse_options(s: &str, lo: usize) -> (r: Option<OptionMap>)
    requires
        lo <= s@.len(),
    ensures
        match r {
            Some(om) => {
                &&& om.wf()
                &&& spec_options(s@.subrange(lo as int, s@.len() as int)) matches Some(ps)
                &&& forall|q: Seq<char>|
                    #[trigger] om.spec_get(q) == pairs_get_last(
                        (spec_options(s@.subrange(lo as int, s@.len() as int))->Some_0),
                        q,
                    )
            },
            None => spec_options(s@.subrange(lo as int, s@.len() as int)) is None,
        },
{
    let n = s.unicode_len();
    let mut om = OptionMap::new();
    let mut pos = lo;
    let ghost mut done: Seq<(Seq<char>, Seq<char>)> = Seq::empty();
    loop
        invariant
            lo <= pos <= n,
            n == s@.len(),
            om.wf(),
            forall|q: Seq<char>| #[trigger] om.spec_get(q) == pairs_get_last(done, q),
            ({
                let whole = spec_options(s@.subrange(lo as int, n as int));
                let rest = spec_options(s@.subrange(pos as int, n as int));
                &&& (rest is Some ==> (whole matches Some(w) && w == done + rest->Some_0))
                &&& (rest is None ==> whole is None)
            }),
        decreases n - pos,
    {
        let comma = find_char_from(s, pos, ',');
        let eq = find_char_from(s, pos, '=');
        let ghost entry = s@.subrange(pos as int, comma as int);
        let ghost sub = s@.subrange(pos as int, n as int);
        let ghost rest_pre = spec_options(sub);
        proof {
            crate::text::lemma_find_unique(s@, pos as int, ',', comma as int);
            assert(spec_find(sub, ',') == comma - pos);
            assert(entry =~= sub.subrange(0, comma - pos));
            crate::text::lemma_find_unique(s@, pos as int, '=', eq as int);
            assert(spec_find(sub, '=') == eq - pos);
            crate::text::lemma_spec_find_prefix(sub, comma - pos, '=');
        }
        if eq >= comma {
            proof {
                assert(spec_find(entry, '=') == entry.len());
            }
            return None;
        }
        let key_ok = check_span(s, pos, eq, CharClass::Word);
        let val_ok = check_span(s, eq + 1, comma, CharClass::Word);
        proof {
            assert(spec_find(entry, '=') == eq - pos);
            assert(s@.subrange(pos as int, eq as int) =~= entry.subrange(0, eq - pos));
            assert(s@.subrange(eq + 1, comma as int) =~= entry.subrange(
                eq - pos + 1,
                entry.len() as int,
            ));
        }
        if !key_ok || !val_ok {
            return None;
        }
        let key = s.substring_char(pos, eq).to_owned();
        let val = s.substring_char(eq + 1, comma).to_owned();
        let ghost kv = (key@, val@);
        let ghost prev = done;
        proof {
            done = prev.push(kv);
            assert(spec_entry(entry) == Some(kv));
        }
        let ghost om_pre = om;
        om.insert(key, val);
        proof {
            assert(done.last() == kv);
            assert(done.drop_last() =~= prev);
            assert forall|q: Seq<char>| #[trigger] om.spec_get(q) == pairs_get_last(done, q) by {
                assert(crate::optmap::seq_get(om@, q) == if q == kv.0 {
                    Some(kv.1)
                } else {
                    crate::optmap::seq_get(om_pre@, q)
                });
                if q == kv.0 {
                    assert(pairs_get_last(done, q) == Some(kv.1));
                } else {
                    assert(om_pre.spec_get(q) == pairs_get_last(prev, q));
                    assert(pairs_get_last(done, q) == pairs_get_last(prev, q));
                }
            }
        }
        if comma >= n {
            proof {
                assert(rest_pre == Some(seq![kv]));
                assert(prev + seq![kv] =~= done);
                let whole = spec_options(s@.subrange(lo as int, n as int));
                assert(whole == Some(done));
            }
            return Some(om);
        }
        proof {
            let suffix_next = s@.subrange(comma + 1, n as int);
            assert(suffix_next =~= sub.subrange(comma - pos + 1, sub.len() as int));
            let rest2 = spec_options(suffix_next);
            assert(rest_pre == match rest2 {
                None => None::<Seq<(Seq<char>, Seq<char>)>>,
                Some(r2) => Some(seq![kv] + r2),
            });
            if rest2 is Some {
                assert(prev + rest_pre->Some_0 =~= done + rest2->Some_0);
            }
        }
        pos = comma + 1;
    }
}

} // verus!

verus! {

/// Interprets a recipe-name region: the implicit recipe filename collapses
/// to the implicit variant, and an explicit recipe-file suffix is stripped.
fn recipe_of_name(name_s: &str) -> (r: Recipe)
    ensures
        name_s@ == implicit_recipe_name() ==> r is Implicit,
        name_s@ != implicit_recipe_name() ==> (r matches Recipe::Explicit(e) && e@
            == strip_recipe_suffix(name_s@)),
{
    if str_eq(name_s, "recipe.yaml") {
        Recipe::Implicit
    } else if ends_with_str(name_s, ".recipe.yaml") {
        let nn = name_s.unicode_len();
        proof {
            reveal_strlit(".recipe.yaml");
            assert(name_s@.take(name_s@.len() - recipe_suffix().len()) =~= name_s@.subrange(
                0,
                nn - 12,
            ));
        }
        Recipe::Explicit(name_s.substring_char(0, nn - 12).to_owned())
    } else {
        Recipe::Explicit(name_s.to_owned())
    }
}

/// Validates the repository region `t[0..repo_end]` and expands a bare name
/// into the builtin namespace. `slash` must be the position of the first
/// `/` in `t` (or past the end when there is none).
fn parse_repo_region(t: &str, repo_end: usize, slash: usize) -> (r: Option<String>)
    requires
        repo_end <= t@.len(),
        slash <= t@.len(),
        forall|j: int| 0 <= j < slash ==> t@[j] != '/',
        slash < t@.len() ==> t@[slash as int] == '/',
    ensures
        (r is Some) == valid_repo(t@.subrange(0, repo_end as int)),
        r matches Some(x) ==> x@ == expand_repo(t@.subrange(0, repo_end as int)),
{
    let ghost sub = t@.subrange(0, repo_end as int);
    if slash < repo_end {
        proof {
            assert(sub[slash as int] == t@[slash as int]);
            assert(sub.contains('/'));
            assert forall|j: int| 0 <= j < slash implies sub[j] != '/' by {
                assert(sub[j] == t@[j]);
            }
            crate::text::lemma_find_unique(sub, 0, '/', slash as int);
            assert(sub.subrange(0, sub.len() as int) =~= sub);
            assert(spec_find(sub, '/') == slash);
            assert(t@.subrange(0, slash as int) =~= sub.subrange(0, slash as int));
            assert(t@.subrange(slash + 1, repo_end as int) =~= sub.subrange(
                slash + 1,
                sub.len() as int,
            ));
        }
        if check_span(t, 0, slash, CharClass::Owner) && check_span(
            t,
            slash + 1,
            repo_end,
            CharClass::Name,
        ) {
            Some(t.substring_char(0, repo_end).to_owned())
        } else {
            None
        }
    } else {
        proof {
            assert forall|j: int| 0 <= j < sub.len() implies sub[j] != '/' by {
                assert(sub[j] == t@[j]);
            }
            assert(!sub.contains('/'));
        }
        if check_span(t, 0, repo_end, CharClass::Name) {
            Some(String::from_str("rime/rime-").concat(t.substring_char(0, repo_end)))
        } else {
            None
        }
    }
}

impl Spec {
    /// Parses one target string into a specification.
    ///
    /// Succeeds exactly on targets in the grammar (after trimming
    /// whitespace), except that targets naming legacy multi-package files
    /// are rejected outright. On success the returned specification carries
    /// exactly the parsed fields, with bare repository names expanded into
    /// the builtin namespace and the recipe reference collapsed to the
    /// implicit variant when it names the implicit recipe file.
    #[verifier::rlimit(100)]
    pub fn from_target(target: &str) -> (r: Result<Spec, ParseError>)
        ensures
            ({
                let t = spec_trim(target@);
                match r {
                    Ok(sp) => {
                        &&& !spec_unsupported(target@)
                        &&& spec_target(t) is Some
                        &&& spec_from_raw(sp, spec_target(t)->Some_0)
                        &&& crate::grammar::exactly_one_slash(sp.spec_repo())
                    },
                    Err(e) => {
                        &&& (e is Unsupported) == spec_unsupported(target@)
                        &&& (!spec_unsupported(target@) ==> spec_target(t) is None)
                        &&& (e matches ParseError::Invalid { start, end } ==> start <= end <= t.len())
                    },
                }
            }),
    {
        if ends_with_str(target, "-packages.conf") || ends_with_str(target, "-packages.bat") {
            return Err(ParseError::Unsupported);
        }
        let t = trim_str(target);
        let n = t.unicode_len();
        let at = find_char_from(t, 0, '@');
        let co = find_char_from(t, 0, ':');
        let slash = find_char_from(t, 0, '/');
        proof {
            assert(t@.subrange(0, t@.len() as int) =~= t@);
        }
        let repo_end = if at < co {
            at
        } else {
            co
        };
        let repo = match parse_repo_region(t, repo_end, slash) {
            Some(x) => x,
            None => {
                return Err(ParseError::Invalid { start: 0, end: repo_end });
            },
        };
        if at < co {
            if !check_path(t, at + 1, co, false) {
                return Err(ParseError::Invalid { start: at + 1, end: co });
            }
        }
        let branch = if at < co {
            Some(t.substring_char(at + 1, co).to_owned())
        } else {
            None
        };
        if co < n {
            let k2 = find_char_from(t, co + 1, ':');
            let ghost rsub = t@.subrange(co + 1, n as int);
            proof {
                assert(spec_find(rsub, ':') == k2 - (co + 1));
                assert(t@.subrange(co + 1, k2 as int) =~= rsub.subrange(0, k2 - (co + 1)));
            }
            if !check_path(t, co + 1, k2, true) {
                return Err(ParseError::Invalid { start: co + 1, end: k2 });
            }
            let name_s = t.substring_char(co + 1, k2);
            let rec = recipe_of_name(name_s);
            let options = if k2 < n {
                proof {
                    assert(t@.subrange(k2 + 1, n as int) =~= rsub.subrange(
                        k2 - (co + 1) + 1,
                        rsub.len() as int,
                    ));
                }
                match parse_options(t, k2 + 1) {
                    Some(om) => om,
                    None => {
                        return Err(ParseError::Invalid { start: k2 + 1, end: n });
                    },
                }
            } else {
                OptionMap::new()
            };
            let sp = Spec { repo, branch, recipe: Some(rec), options };
            proof {
                let tv = t@;
                let st = spec_target(tv);
                assert(st is Some);
                let rt = st->Some_0;
                assert(rt.repo == tv.subrange(0, repo_end as int));
                assert(rt.recipe == Some(rsub.subrange(0, k2 - (co + 1))));
                assert(sp.spec_repo() == expand_repo(rt.repo));
                if k2 < n {
                    assert(rt.options == spec_options(tv.subrange(k2 + 1, n as int))->Some_0);
                } else {
                    assert(rt.options.len() == 0);
                    crate::optmap::lemma_empty_lookups(sp.spec_options()@);
                    crate::optmap::lemma_empty_lookups(rt.options);
                }
                crate::grammar::lemma_repo_one_slash(rt.repo);
            }
            return Ok(sp);
        }
        let sp = Spec { repo, branch, recipe: None, options: OptionMap::new() };
        proof {
            let tv = t@;
            let st = spec_target(tv);
            assert(st is Some);
            let rt = st->Some_0;
            assert(rt.repo == tv.subrange(0, repo_end as int));
            assert(rt.recipe is None);
            assert(rt.options.len() == 0);
            assert(sp.spec_repo() == expand_repo(rt.repo));
            crate::optmap::lemma_empty_lookups(sp.spec_options()@);
            crate::optmap::lemma_empty_lookups(rt.options);
            crate::grammar::lemma_repo_one_slash(rt.repo);
        }
        Ok(sp)
    }
}

} // verus!

verus! {

/// What holds of the one parsed specification when a target parses.
pub open spec fn spec_parsed_ok(target: Seq<char>, sp: Spec) -> bool {
    &&& !spec_unsupported(target)
    &&& spec_target(spec_trim(target)) is Some
    &&& spec_from_raw(sp, spec_target(spec_trim(target))->Some_0)
}

/// When parsing a target fails.
pub open spec fn spec_parse_fails(target: Seq<char>) -> bool {
    spec_unsupported(target) || spec_target(spec_trim(target)) is None
}

/// A specification as a bare builtin name yields it: the expanded
/// repository and nothing else.
pub open spec fn spec_builtin(sp: Spec, name: Seq<char>) -> bool {
    &&& sp.spec_repo() == "rime/rime-"@ + name
    &&& sp.spec_branch() is None
    &&& sp.spec_recipe() is None
    &&& sp.wf()
    &&& sp.spec_options()@.len() == 0
}

/// The specification that a bare builtin package name expands to.
pub fn bare_builtin(name: &str) -> (r: Spec)
    ensures
        spec_builtin(r, name@),
{
    let options = OptionMap::new();
    proof {
        crate::optmap::lemma_empty_lookups(options@);
    }
    Spec {
        repo: String::from_str("rime/rime-").concat(name),
        branch: None,
        recipe: None,
        options,
    }
}

impl Spec {
    /// Resolves a target into specifications: the three sentinel targets
    /// expand to fixed bundles, anything else is parsed as a single target.
    pub fn resolve(target: &str) -> (r: Result<Vec<Spec>, ParseError>)
        ensures
            target@ == ":preset"@ ==> (r matches Ok(v) && crate::builtins::spec_preset_list(v@)),
            target@ == ":extra"@ ==> (r matches Ok(v) && crate::builtins::spec_extra_list(v@)),
            target@ == ":all"@ ==> (r matches Ok(v) && v@.len() == 22
                && crate::builtins::spec_preset_list(v@.subrange(0, 7))
                && crate::builtins::spec_extra_list(v@.subrange(7, 22))),
            (target@ != ":preset"@ && target@ != ":extra"@ && target@ != ":all"@) ==> match r {
                Ok(v) => v@.len() == 1 && spec_parsed_ok(target@, v@[0]),
                Err(e) => {
                    &&& spec_parse_fails(target@)
                    &&& (e is Unsupported) == spec_unsupported(target@)
                },
            },
    {
        proof {
            broadcast use vstd::string::group_string_axioms;

            reveal_strlit(":preset");
            reveal_strlit(":extra");
            reveal_strlit(":all");
            assert(":preset"@.len() == 7);
            assert(":extra"@.len() == 6);
            assert(":all"@.len() == 4);
        }
        if str_eq(target, ":preset") {
            crate::builtins::preset()
        } else if str_eq(target, ":extra") {
            crate::builtins::extra()
        } else if str_eq(target, ":all") {
            crate::builtins::all()
        } else {
            match Spec::from_target(target) {
                Ok(sp) => {
                    let mut v: Vec<Spec> = Vec::new();
                    v.push(sp);
                    Ok(v)
                },
                Err(e) => Err(e),
            }
        }
    }
}

} // verus!

verus! {

impl Spec {
    /// The package this specification names under a base directory.
    pub fn locate_package<'a>(&'a self, base: &str) -> (r: crate::package::Package<'a>)
        ensures
            r.spec_spec() == *self,
            r.spec_dir() == crate::package::cleaned(base@ + "/"@ + self.spec_repo()),
    {
        crate::package::Package::new(self, base)
    }
}

impl Recipe {
    /// A copy of the recipe reference with the same value.
    pub fn duplicate(&self) -> (r: Recipe)
        ensures
            r == *self,
    {
        match self {
            Recipe::Implicit => Recipe::Implicit,
            Recipe::Explicit(n) => Recipe::Explicit(n.clone()),
        }
    }
}

} // verus!

verus! {

/// Whether one target resolves: one of the sentinel bundles, or a target
/// the grammar accepts.
pub open spec fn spec_resolves(t: Seq<char>) -> bool {
    t == ":preset"@ || t == ":extra"@ || t == ":all"@ || !spec_parse_fails(t)
}

/// How many specifications one target yields.
pub open spec fn spec_batch_len(t: Seq<char>) -> int {
    if t == ":preset"@ {
        7
    } else if t == ":extra"@ {
        15
    } else if t == ":all"@ {
        22
    } else {
        1
    }
}

/// What the specifications of one resolved target are.
pub open spec fn spec_batch(t: Seq<char>, b: Seq<Spec>) -> bool {
    if t == ":preset"@ {
        crate::builtins::spec_preset_list(b)
    } else if t == ":extra"@ {
        crate::builtins::spec_extra_list(b)
    } else if t == ":all"@ {
        b.len() == 22 && crate::builtins::spec_preset_list(b.subrange(0, 7))
            && crate::builtins::spec_extra_list(b.subrange(7, 22))
    } else {
        b.len() == 1 && spec_parsed_ok(t, b[0])
    }
}

/// `out` is the concatenation, in order, of one batch per target.
pub open spec fn spec_resolution(targets: Seq<Seq<char>>, out: Seq<Spec>) -> bool
    decreases targets.len(),
{
    if targets.len() == 0 {
        out.len() == 0
    } else {
        let k = spec_batch_len(targets[0]);
        &&& out.len() >= k
        &&& spec_batch(targets[0], out.subrange(0, k))
        &&& spec_resolution(targets.drop_first(), out.subrange(k, out.len() as int))
    }
}

/// Resolutions concatenate: a batch list for `a` followed by one for `b`
/// is a batch list for `a + b`.
#[verifier::rlimit(60)]
#[verifier::spinoff_prover]
proof fn lemma_resolution_concat(a: Seq<Seq<char>>, x: Seq<Spec>, b: Seq<Seq<char>>, y: Seq<Spec>)
    requires
        spec_resolution(a, x),
        spec_resolution(b, y),
    ensures
        spec_resolution(a + b, x + y),
    decreases a.len(),
{
    if a.len() == 0 {
        assert(a + b =~= b);
        assert(x + y =~= y);
    } else {
        let k = spec_batch_len(a[0]);
        assert((a + b)[0] == a[0]);
        assert(x.len() >= k);
        assert((x + y).subrange(0, k) =~= x.subrange(0, k));
        lemma_resolution_concat(a.drop_first(), x.subrange(k, x.len() as int), b, y);
        assert((a + b).drop_first() =~= a.drop_first() + b);
        assert((x + y).subrange(k, (x + y).len() as int) =~= x.subrange(k, x.len() as int) + y);
    }
}

/// Resolves every target in order and concatenates the resulting
/// specifications, stopping at the first target that does not resolve.
/// Succeeds exactly when every target resolves; the output is one batch
/// per target, in target order, and every returned specification is
/// well formed.
pub fn resolve_targets(targets: &Vec<String>) -> (r: Result<Vec<Spec>, ParseError>)
    ensures
        (r is Ok) == (forall|i: int|
            0 <= i < targets@.len() ==> spec_resolves(#[trigger] targets@[i]@)),
        r matches Ok(v) ==> spec_resolution(crate::text::strings_view(targets@), v@),
        r matches Ok(v) ==> forall|j: int| 0 <= j < v@.len() ==> (#[trigger] v@[j]).wf(),
{
    let ghost tv = crate::text::strings_view(targets@);
    let n = targets.len();
    let mut out: Vec<Spec> = Vec::new();
    let mut i: usize = 0;
    proof {
        assert(tv.subrange(0, 0) =~= Seq::<Seq<char>>::empty());
    }
    while i < n
        invariant
            i <= n,
            n == targets@.len(),
            tv == crate::text::strings_view(targets@),
            forall|j: int| 0 <= j < i ==> spec_resolves(#[trigger] targets@[j]@),
            forall|j: int| 0 <= j < out@.len() ==> (#[trigger] out@[j]).wf(),
            spec_resolution(tv.subrange(0, i as int), out@),
        decreases n - i,
    {
        let t = targets[i].as_str();
        match Spec::resolve(t) {
            Ok(mut batch) => {
                proof {
                    assert(tv[i as int] == t@);
                    if t@ == ":preset"@ {
                        crate::builtins::lemma_preset_list_wf(batch@);
                        assert(batch@.subrange(0, 7) =~= batch@);
                    } else if t@ == ":extra"@ {
                        crate::builtins::lemma_extra_list_wf(batch@);
                        assert(batch@.subrange(0, 15) =~= batch@);
                    } else if t@ == ":all"@ {
                        crate::builtins::lemma_preset_list_wf(batch@.subrange(0, 7));
                        crate::builtins::lemma_extra_list_wf(batch@.subrange(7, 22));
                        assert(batch@.subrange(0, 22) =~= batch@);
                        assert forall|j: int| 0 <= j < batch@.len() implies (#[trigger] batch@[j]).wf() by {
                            if j < 7 {
                                assert(batch@[j] == batch@.subrange(0, 7)[j]);
                            } else {
                                assert(batch@[j] == batch@.subrange(7, 22)[j - 7]);
                            }
                        }
                    } else {
                        assert(batch@.subrange(0, 1) =~= batch@);
                    }
                    let single = seq![tv[i as int]];
                    let k = spec_batch_len(tv[i as int]);
                    assert(spec_batch(tv[i as int], batch@.subrange(0, k)));
                    assert(batch@.subrange(k, batch@.len() as int) =~= Seq::<Spec>::empty());
                    assert(single.drop_first() =~= Seq::<Seq<char>>::empty());
                    assert(spec_resolution(Seq::<Seq<char>>::empty(), Seq::<Spec>::empty()));
                    assert(spec_resolution(single, batch@));
                    lemma_resolution_concat(tv.subrange(0, i as int), out@, single, batch@);
                    assert(tv.subrange(0, i as int) + single =~= tv.subrange(0, i + 1));
                }
                let ghost pre = out@;
                let ghost batchv = batch@;
                out.append(&mut batch);
                proof {
                    assert(out@ == pre + batchv);
                    assert forall|j: int| 0 <= j < out@.len() implies (#[trigger] out@[j]).wf() by {
                        if j < pre.len() {
                            assert(out@[j] == pre[j]);
                        } else {
                            assert(out@[j] == batchv[j - pre.len()]);
                        }
                    }
                }
            },
            Err(e) => {
                return Err(e);
            },
        }
        i += 1;
    }
    proof {
        assert(tv.subrange(0, n as int) =~= tv);
    }
    Ok(out)
}

} // verus!

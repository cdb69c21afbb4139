//! Shell-glob pattern sets used to select the files a package install
//! copies.

use vstd::prelude::*;

verus! {

/// Whether `globset::Glob::new` accepts `pattern`. Depends on the pattern
/// alone.
pub uninterp spec fn glob_valid(pattern: Seq<char>) -> bool;

/// Whether the pattern matches the relative path, with shell-glob
/// semantics including `**` recursive segments and `{a,b}` alternation.
/// Depends on the pattern and the path alone.
pub uninterp spec fn glob_match(pattern: Seq<char>, path: Seq<char>) -> bool;

/// Relies on `globset::Glob::new`: whether the pattern is a well-formed
/// glob. The result depends on the pattern alone.
#[verifier::external_body]
fn glob_pattern_ok(pattern: &str) -> (r: bool)
    ensures
        r == glob_valid(pattern@),
{
    globset::Glob::new(pattern).is_ok()
}

/// Relies on `globset::Glob::new` and `globset::GlobMatcher::is_match`:
/// shell-glob matching of a path string, with `**` recursive segments and
/// `{a,b}` alternation. The result depends on the pattern and the path
/// alone; a pattern that does not compile matches nothing.
#[verifier::external_body]
fn glob_match_str(pattern: &str, path: &str) -> (r: bool)
    ensures
        glob_valid(pattern@) ==> r == glob_match(pattern@, path@),
        !glob_valid(pattern@) ==> r == false,
{
    match globset::Glob::new(pattern) {
        Ok(g) => g.compile_matcher().is_match(path),
        Err(_) => false,
    }
}

/// One of the patterns in a set was not a well-formed glob.
#[derive(Debug)]
pub struct GlobError;

impl GlobError {
    /// A human-readable description of the failure.
    pub fn message(&self) -> (r: String)
        ensures
            r@ == "invalid glob pattern"@,
    {
        String::from_str("invalid glob pattern")
    }
}

/// A set of validated shell-glob patterns.
#[derive(Debug)]
pub struct PatternSet {
    patterns: Vec<String>,
}

impl View for PatternSet {
    type V = Seq<Seq<char>>;

    closed spec fn view(&self) -> Seq<Seq<char>> {
        self.patterns@.map_values(|p: String| p@)
    }
}

/// Whether some pattern of the list matches the path.
pub open spec fn spec_matches_any(pats: Seq<Seq<char>>, path: Seq<char>) -> bool {
    exists|i: int| 0 <= i < pats.len() && glob_match(#[trigger] pats[i], path)
}

impl PatternSet {
    pub open spec fn wf(self) -> bool {
        forall|i: int| 0 <= i < self@.len() ==> glob_valid(#[trigger] self@[i])
    }

    /// Whether some pattern of the set matches the path.
    pub open spec fn spec_matches(self, path: Seq<char>) -> bool {
        spec_matches_any(self@, path)
    }

    /// Builds a pattern set. Fails exactly when some pattern is not a
    /// well-formed glob.
    pub fn new(patterns: &Vec<String>) -> (r: Result<PatternSet, GlobError>)
        ensures
            match r {
                Ok(ps) => {
                    &&& ps.wf()
                    &&& ps@.len() == patterns@.len()
                    &&& forall|i: int| 0 <= i < patterns@.len() ==> #[trigger] ps@[i] == patterns@[i]@
                },
                Err(e) => exists|i: int|
                    0 <= i < patterns@.len() && !glob_valid(#[trigger] patterns@[i]@),
            },
    {
        let n = patterns.len();
        let mut ok: Vec<String> = Vec::new();
        let mut i: usize = 0;
        while i < n
            invariant
                i <= n,
                n == patterns@.len(),
                ok@.len() == i,
                forall|j: int| 0 <= j < i ==> (#[trigger] ok@[j])@ == patterns@[j]@,
                forall|j: int| 0 <= j < i ==> glob_valid(#[trigger] patterns@[j]@),
            decreases n - i,
        {
            if !glob_pattern_ok(patterns[i].as_str()) {
                return Err(GlobError);
            }
            ok.push(patterns[i].clone());
            i += 1;
        }
        let ps = PatternSet { patterns: ok };
        proof {
            assert(forall|j: int| 0 <= j < n ==> #[trigger] ps@[j] == patterns@[j]@);
        }
        Ok(ps)
    }

    /// Whether any pattern of the set matches the path.
    pub fn matches(&self, path: &str) -> (r: bool)
        requires
            self.wf(),
        ensures
            r == self.spec_matches(path@),
    {
        let n = self.patterns.len();
        let mut i: usize = 0;
        while i < n
            invariant
                i <= n,
                n == self@.len(),
                self@.len() == self.patterns@.len(),
                forall|j: int| 0 <= j < self@.len() ==> (#[trigger] self.patterns@[j])@ == self@[j],
                self.wf(),
                forall|j: int| 0 <= j < i ==> !glob_match(#[trigger] self@[j], path@),
            decreases n - i,
        {
            if glob_match_str(self.patterns[i].as_str(), path) {
                return true;
            }
            i += 1;
        }
        false
    }
}

} // verus!

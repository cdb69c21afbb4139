//! A package: a resolved specification bound to its local source
//! directory.

use vstd::prelude::*;

use crate::target::{Recipe, Spec};

verus! {

/// What `path_clean::clean` returns for a path string.
pub uninterp spec fn cleaned(p: Seq<char>) -> Seq<char>;

/// Relies on `path_clean::clean`: lexical normalization of a path string
/// (drops `.` segments, collapses separators, resolves `..` where it can).
/// The result depends on the path alone.
#[verifier::external_body]
fn clean_path(p: &str) -> (r: String)
    ensures
        r@ == cleaned(p@),
{
    path_clean::clean(p).to_string_lossy().into_owned()
}

/// Which of the three installation branches runs for a package.
#[derive(Debug)]
pub enum InstallMode {
    Recipe(Recipe),
    Default,
}

/// A specification located under a base directory of fetched packages.
#[derive(Debug)]
pub struct Package<'a> {
    spec: &'a Spec,
    dir: String,
}

impl<'a> Package<'a> {
    pub closed spec fn spec_spec(self) -> Spec {
        *self.spec
    }

    pub closed spec fn spec_dir(self) -> Seq<char> {
        self.dir@
    }

    pub open spec fn wf(self) -> bool {
        self.spec_spec().wf()
    }

    /// Locates the package of a specification: its directory is the
    /// cleaned join of the base directory and the repository identity.
    pub fn new(spec: &'a Spec, base: &str) -> (r: Package<'a>)
        ensures
            r.spec_spec() == *spec,
            r.spec_dir() == cleaned(base@ + "/"@ + spec.spec_repo()),
    {
        let joined = String::from_str(base).concat("/").concat(spec.repo());
        proof {
            assert(joined@ =~= base@ + "/"@ + spec.spec_repo());
        }
        Package { spec, dir: clean_path(joined.as_str()) }
    }

    pub fn spec(&self) -> (r: &Spec)
        ensures
            *r == self.spec_spec(),
    {
        self.spec
    }

    pub fn dir(&self) -> (r: &String)
        ensures
            r@ == self.spec_dir(),
    {
        &self.dir
    }

    /// Decides which installation branch runs: the explicit recipe when
    /// the target named one, else the implicit recipe when the package
    /// ships the implicit recipe file, else the default install. Exactly
    /// one branch is chosen.
    pub fn install_mode(&self, implicit_recipe_exists: bool) -> (r: InstallMode)
        ensures
            match self.spec_spec().spec_recipe() {
                Some(rec) => r == InstallMode::Recipe(rec),
                None => if implicit_recipe_exists {
                    r == InstallMode::Recipe(Recipe::Implicit)
                } else {
                    r is Default
                },
            },
    {
        match self.spec.recipe() {
            Some(rec) => InstallMode::Recipe(rec.duplicate()),
            None => {
                if implicit_recipe_exists {
                    InstallMode::Recipe(Recipe::Implicit)
                } else {
                    InstallMode::Default
                }
            },
        }
    }
}

} // verus!

//! The pure parts of fetching: the clone URL of a repository and the
//! parsing of `git ls-remote --symref` output into a default branch name.

use vstd::prelude::*;

use crate::patch::{lines_view, spec_lines, split_lines};
use crate::target::Spec;
use crate::text::{
    ends_with_str, spec_ends_with, spec_starts_with, spec_trim, starts_with_str, trim_str,
};

verus! {

/// Where a repository is fetched from and into, and on which branch.
#[derive(Debug)]
pub struct GitHubFetcher {
    url: String,
    dir: String,
    branch: Option<String>,
}

impl GitHubFetcher {
    pub closed spec fn spec_url(self) -> Seq<char> {
        self.url@
    }

    pub closed spec fn spec_dir(self) -> Seq<char> {
        self.dir@
    }

    pub closed spec fn spec_branch(self) -> Option<Seq<char>> {
        match self.branch {
            Some(b) => Some(b@),
            None => None,
        }
    }

    /// The fetch plan of a specification: its clone URL under the fixed
    /// hosting service, the local directory, and the requested branch.
    pub fn new(spec: &Spec, dir: &str) -> (r: GitHubFetcher)
        ensures
            r.spec_url() == "https://github.com/"@ + spec.spec_repo(),
            r.spec_dir() == dir@,
            r.spec_branch() == spec.spec_branch(),
    {
        let url = String::from_str("https://github.com/").concat(spec.repo());
        let branch = match spec.branch() {
            Some(b) => Some(b.to_owned()),
            None => None,
        };
        GitHubFetcher { url, dir: dir.to_owned(), branch }
    }

    pub fn url(&self) -> (r: &String)
        ensures
            r@ == self.spec_url(),
    {
        &self.url
    }

    pub fn dir(&self) -> (r: &String)
        ensures
            r@ == self.spec_dir(),
    {
        &self.dir
    }

    pub fn branch(&self) -> (r: Option<&String>)
        ensures
            match r {
                Some(b) => self.spec_branch() == Some(b@),
                None => self.spec_branch() is None,
            },
    {
        match &self.branch {
            Some(b) => Some(b),
            None => None,
        }
    }
}

/// Whether one output line names the default branch.
pub open spec fn spec_head_ref_line(l: Seq<char>) -> bool {
    spec_starts_with(l, "ref: refs/heads/"@) && spec_ends_with(
        l.skip("ref: refs/heads/"@.len() as int),
        "\tHEAD"@,
    )
}

/// The branch name carried by such a line.
pub open spec fn spec_head_ref_of(l: Seq<char>) -> Seq<char> {
    spec_trim(l.subrange("ref: refs/heads/"@.len() as int, l.len() - "\tHEAD"@.len()))
}

/// The first line naming the default branch, if any.
pub open spec fn spec_head_ref(ls: Seq<Seq<char>>) -> Option<Seq<char>>
    decreases ls.len(),
{
    if ls.len() == 0 {
        None
    } else if spec_head_ref_line(ls[0]) {
        Some(spec_head_ref_of(ls[0]))
    } else {
        spec_head_ref(ls.drop_first())
    }
}

/// Reads the default branch out of the output of
/// `git ls-remote --symref origin HEAD`: the first line of the form
/// `ref: refs/heads/<branch>\tHEAD`, with the branch name trimmed.
pub fn parse_head_ref(output: &str) -> (r: Option<String>)
    ensures
        match r {
            Some(b) => spec_head_ref(spec_lines(output@)) == Some(b@),
            None => spec_head_ref(spec_lines(output@)) is None,
        },
{
    let lines = split_lines(output);
    let n = lines.len();
    let mut i: usize = 0;
    while i < n
        invariant
            i <= n,
            n == lines@.len(),
            lines_view(lines@) == spec_lines(output@),
            forall|j: int| 0 <= j < i ==> !spec_head_ref_line(#[trigger] lines_view(lines@)[j]),
        decreases n - i,
    {
        proof {
            broadcast use vstd::string::group_string_axioms;

            reveal_strlit("ref: refs/heads/");
            reveal_strlit("\tHEAD");
            assert("ref: refs/heads/"@.len() == 16);
            assert("\tHEAD"@.len() == 5);
        }
        let l = lines[i].as_str();
        let ln = l.unicode_len();
        if starts_with_str(l, "ref: refs/heads/") {
            let rest = l.substring_char(16, ln);
            proof {
                assert(rest@ =~= l@.skip(16));
            }
            if ends_with_str(rest, "\tHEAD") {
                let mid = l.substring_char(16, ln - 5);
                let b = trim_str(mid).to_owned();
                proof {
                    assert(mid@ =~= l@.subrange(16, l@.len() - 5));
                    lemma_head_ref_at(lines_view(lines@), i as int);
                }
                return Some(b);
            }
        }
        proof {
            assert(!spec_head_ref_line(lines_view(lines@)[i as int]));
        }
        i += 1;
    }
    proof {
        lemma_head_ref_none(lines_view(lines@));
    }
    None
}

/// When the first matching line is at `i`, the search resolves there.
proof fn lemma_head_ref_at(ls: Seq<Seq<char>>, i: int)
    requires
        0 <= i < ls.len(),
        spec_head_ref_line(ls[i]),
        forall|j: int| 0 <= j < i ==> !spec_head_ref_line(#[trigger] ls[j]),
    ensures
        spec_head_ref(ls) == Some(spec_head_ref_of(ls[i])),
    decreases i,
{
    if i > 0 {
        lemma_head_ref_at(ls.drop_first(), i - 1);
    }
}

/// When no line matches, the search fails.
proof fn lemma_head_ref_none(ls: Seq<Seq<char>>)
    requires
        forall|j: int| 0 <= j < ls.len() ==> !spec_head_ref_line(#[trigger] ls[j]),
    ensures
        spec_head_ref(ls) is None,
    decreases ls.len(),
{
    if ls.len() > 0 {
        assert forall|j: int| 0 <= j < ls.drop_first().len() implies !spec_head_ref_line(
            #[trigger] ls.drop_first()[j],
        ) by {
            assert(ls.drop_first()[j] == ls[j + 1]);
        }
        lemma_head_ref_none(ls.drop_first());
    }
}

} // verus!

verus! {

/// Which transport step a fetch runs.
#[derive(Debug, PartialEq, Eq, Structural)]
pub enum FetchAction {
    Clone,
    Pull,
}

impl GitHubFetcher {
    /// A directory that already holds a repository is updated in place;
    /// anything else is cloned afresh.
    pub fn action(&self, repository_exists: bool) -> (r: FetchAction)
        ensures
            (r is Pull) == repository_exists,
    {
        if repository_exists {
            FetchAction::Pull
        } else {
            FetchAction::Clone
        }
    }
}

} // verus!

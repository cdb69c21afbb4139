//! Planning which files a sync run copies: pattern selection and the
//! byte-identity check that lets unchanged files be skipped.

use vstd::prelude::*;

use crate::glob::{spec_matches_any, PatternSet};
use crate::patch::lines_view;

verus! {

/// The relative paths a sync run copies: those that match the inclusion
/// set and do not match the exclusion set.
pub open spec fn spec_selected(
    paths: Seq<Seq<char>>,
    inc: Seq<Seq<char>>,
    exc: Seq<Seq<char>>,
) -> Seq<Seq<char>>
    decreases paths.len(),
{
    if paths.len() == 0 {
        Seq::empty()
    } else {
        let rest = spec_selected(paths.drop_last(), inc, exc);
        if spec_matches_any(inc, paths.last()) && !spec_matches_any(exc, paths.last()) {
            rest.push(paths.last())
        } else {
            rest
        }
    }
}

/// Filters a list of relative paths down to those a sync run copies,
/// keeping their order.
pub fn select_paths(paths: &Vec<String>, inc: &PatternSet, exc: &PatternSet) -> (r: Vec<String>)
    requires
        inc.wf(),
        exc.wf(),
    ensures
        lines_view(r@) == spec_selected(lines_view(paths@), inc@, exc@),
{
    let n = paths.len();
    let mut r: Vec<String> = Vec::new();
    let mut i: usize = 0;
    proof {
        assert(lines_view(paths@).take(0) =~= Seq::<Seq<char>>::empty());
        assert(lines_view(r@) =~= spec_selected(lines_view(paths@).take(0), inc@, exc@));
    }
    while i < n
        invariant
            i <= n,
            n == paths@.len(),
            inc.wf(),
            exc.wf(),
            lines_view(r@) =~= spec_selected(lines_view(paths@).take(i as int), inc@, exc@),
        decreases n - i,
    {
        let ghost pv = lines_view(paths@);
        let ghost rpre = lines_view(r@);
        let hit = inc.matches(paths[i].as_str()) && !exc.matches(paths[i].as_str());
        if hit {
            r.push(paths[i].clone());
        }
        proof {
            assert(pv.take(i + 1).drop_last() =~= pv.take(i as int));
            assert(pv.take(i + 1).last() == pv[i as int]);
            assert(pv[i as int] == paths@[i as int]@);
            if hit {
                assert(lines_view(r@) =~= rpre.push(pv[i as int]));
            }
            assert(lines_view(r@) =~= spec_selected(pv.take(i + 1), inc@, exc@));
        }
        i += 1;
    }
    proof {
        assert(lines_view(paths@).take(n as int) =~= lines_view(paths@));
    }
    r
}

/// Byte-for-byte equality of two buffers.
pub fn bytes_equal(a: &[u8], b: &[u8]) -> (r: bool)
    ensures
        r == (a@ == b@),
{
    let na = a.len();
    let nb = b.len();
    if na != nb {
        return false;
    }
    let mut i: usize = 0;
    while i < na
        invariant
            i <= na,
            na == a@.len(),
            na == b@.len(),
            forall|j: int| 0 <= j < i ==> a@[j] == b@[j],
        decreases na - i,
    {
        if a[i] != b[i] {
            return false;
        }
        i += 1;
    }
    proof {
        assert(a@ =~= b@);
    }
    true
}

/// Whether a candidate file must be copied: only a destination that
/// already holds identical bytes is skipped.
pub open spec fn spec_should_copy(src: Seq<u8>, dest: Option<Seq<u8>>) -> bool {
    match dest {
        Some(d) => d != src,
        None => true,
    }
}

pub fn should_copy(src: &[u8], dest: Option<&[u8]>) -> (r: bool)
    ensures
        r == spec_should_copy(
            src@,
            match dest {
                Some(d) => Some(d@),
                None => None,
            },
        ),
{
    match dest {
        Some(d) => !bytes_equal(src, d),
        None => true,
    }
}

/// Re-running a sync over a destination that already matches the source
/// byte for byte copies nothing: the decision for an identical
/// destination is always a skip.
pub proof fn lemma_sync_skip_identical(content: Seq<u8>)
    ensures
        !spec_should_copy(content, Some(content)),
{
}

} // verus!

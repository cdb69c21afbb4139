//! A map from option keys to string values, kept as an association list
//! sorted strictly by key. The sorted order makes the rendering of option
//! lists (for patch block identities) deterministic, and strictness makes
//! keys unique.

use vstd::prelude::*;

use crate::text::{lemma_lex_irrefl, lemma_lex_total, lemma_lex_trans, lex_lt, str_eq, str_lt};

verus! {

/// Value of the first entry whose key is `k`, if any.
pub open spec fn seq_get(es: Seq<(Seq<char>, Seq<char>)>, k: Seq<char>) -> Option<Seq<char>>
    decreases es.len(),
{
    if es.len() == 0 {
        None
    } else if es[0].0 == k {
        Some(es[0].1)
    } else {
        seq_get(es.drop_first(), k)
    }
}

/// Value of the last entry whose key is `k`, if any: the lookup a written
/// option list describes when later entries override earlier ones.
pub open spec fn pairs_get_last(ps: Seq<(Seq<char>, Seq<char>)>, k: Seq<char>) -> Option<Seq<char>>
    decreases ps.len(),
{
    if ps.len() == 0 {
        None
    } else if ps.last().0 == k {
        Some(ps.last().1)
    } else {
        pairs_get_last(ps.drop_last(), k)
    }
}

/// Keys strictly increase, so each key occurs at most once.
pub open spec fn entries_sorted(es: Seq<(Seq<char>, Seq<char>)>) -> bool {
    forall|i: int, j: int| 0 <= i < j < es.len() ==> lex_lt(#[trigger] es[i].0, #[trigger] es[j].0)
}

pub proof fn lemma_seq_get_match(es: Seq<(Seq<char>, Seq<char>)>, k: Seq<char>)
    ensures
        match seq_get(es, k) {
            Some(v) => exists|i: int|
                0 <= i < es.len() && #[trigger] es[i].0 == k && es[i].1 == v,
            None => forall|i: int| 0 <= i < es.len() ==> (#[trigger] es[i].0) != k,
        },
    decreases es.len(),
{
    if es.len() > 0 && es[0].0 != k {
        lemma_seq_get_match(es.drop_first(), k);
        match seq_get(es, k) {
            Some(v) => {
                let i = choose|i: int|
                    0 <= i < es.drop_first().len() && #[trigger] es.drop_first()[i].0 == k
                        && es.drop_first()[i].1 == v;
                assert(es[i + 1].0 == k && es[i + 1].1 == v);
            },
            None => {
                assert forall|i: int| 0 <= i < es.len() implies (#[trigger] es[i].0) != k by {
                    if i > 0 {
                        assert(es.drop_first()[i - 1].0 != k);
                    }
                }
            },
        }
    }
}

/// In a sorted list, any entry with key `k` is the result of the lookup.
pub proof fn lemma_seq_get_unique(es: Seq<(Seq<char>, Seq<char>)>, k: Seq<char>, i: int)
    requires
        entries_sorted(es),
        0 <= i < es.len(),
        es[i].0 == k,
    ensures
        seq_get(es, k) == Some(es[i].1),
    decreases es.len(),
{
    if i == 0 {
    } else {
        assert(lex_lt(es[0].0, es[i].0));
        lemma_lex_irrefl(es[0].0);
        assert(es[0].0 != k);
        lemma_seq_get_unique(es.drop_first(), k, i - 1);
    }
}

/// A mapping from option keys to values, with unique keys held in ascending
/// order.
#[derive(Debug)]
pub struct OptionMap {
    entries: Vec<(String, String)>,
}

impl View for OptionMap {
    type V = Seq<(Seq<char>, Seq<char>)>;

    closed spec fn view(&self) -> Seq<(Seq<char>, Seq<char>)> {
        self.entries@.map_values(|e: (String, String)| (e.0@, e.1@))
    }
}

impl OptionMap {
    pub open spec fn wf(self) -> bool {
        entries_sorted(self@)
    }

    pub open spec fn spec_get(self, k: Seq<char>) -> Option<Seq<char>> {
        seq_get(self@, k)
    }

    /// The map described by the entries, for use in specifications.
    pub open spec fn as_map(self) -> Map<Seq<char>, Seq<char>> {
        Map::new(|k: Seq<char>| seq_get(self@, k) is Some, |k: Seq<char>| seq_get(self@, k)->Some_0)
    }

    pub fn new() -> (r: OptionMap)
        ensures
            r.wf(),
            r@ =~= Seq::<(Seq<char>, Seq<char>)>::empty(),
    {
        OptionMap { entries: Vec::new() }
    }

    pub fn len(&self) -> (r: usize)
        ensures
            r == self@.len(),
    {
        self.entries.len()
    }

    /// The entries in ascending key order.
    pub fn entries(&self) -> (r: &Vec<(String, String)>)
        ensures
            r@.len() == self@.len(),
            forall|i: int|
                0 <= i < self@.len() ==> (#[trigger] r@[i]).0@ == self@[i].0 && r@[i].1@
                    == self@[i].1,
    {
        &self.entries
    }

    /// Value stored for `k`, if any.
    pub fn get<'a>(&'a self, k: &str) -> (r: Option<&'a String>)
        ensures
            match r {
                Some(v) => self.spec_get(k@) == Some(v@),
                None => self.spec_get(k@) is None,
            },
    {
        let n = self.entries.len();
        let mut i: usize = 0;
        while i < n
            invariant
                i <= n,
                n == self@.len(),
                self@.len() == self.entries@.len(),
                forall|j: int|
                    0 <= j < self@.len() ==> (#[trigger] self.entries@[j]).0@ == self@[j].0
                        && self.entries@[j].1@ == self@[j].1,
                forall|j: int| 0 <= j < i ==> (#[trigger] self@[j]).0 != k@,
            decreases n - i,
        {
            if str_eq(self.entries[i].0.as_str(), k) {
                proof {
                    lemma_seq_get_first_match(self@, k@, i as int);
                }
                return Some(&self.entries[i].1);
            }
            i += 1;
        }
        proof {
            lemma_seq_get_match(self@, k@);
        }
        None
    }

    /// Inserts `v` under `k`, replacing any previous value.
    pub fn insert(&mut self, k: String, v: String)
        requires
            old(self).wf(),
        ensures
            final(self).wf(),
            forall|q: Seq<char>|
                #[trigger] seq_get(final(self)@, q) == if q == k@ {
                    Some(v@)
                } else {
                    seq_get(old(self)@, q)
                },
    {
        let ghost ks = k@;
        let ghost vs = v@;
        let ghost pre = self@;
        let n = self.entries.len();
        let mut i: usize = 0;
        while i < n && str_lt(self.entries[i].0.as_str(), k.as_str())
            invariant
                i <= n,
                n == self.entries@.len(),
                self@ == pre,
                self@.len() == self.entries@.len(),
                forall|j: int|
                    0 <= j < self@.len() ==> (#[trigger] self.entries@[j]).0@ == self@[j].0
                        && self.entries@[j].1@ == self@[j].1,
                forall|j: int| 0 <= j < i ==> lex_lt((#[trigger] pre[j]).0, k@),
            decreases n - i,
        {
            i += 1;
        }
        if i < n && str_eq(self.entries[i].0.as_str(), k.as_str()) {
            self.entries.remove(i);
            self.entries.insert(i, (k, v));
            proof {
                assert(self@ =~= pre.remove(i as int).insert(i as int, (ks, vs)));
                lemma_update_entry(pre, self@, i as int, ks, vs);
            }
        } else {
            proof {
                if i < n {
                    lemma_lex_total(pre[i as int].0, ks);
                }
            }
            self.entries.insert(i, (k, v));
            proof {
                assert(self@ =~= pre.insert(i as int, (ks, vs)));
                lemma_splice_entry(pre, self@, i as int, ks, vs);
            }
        }
    }
}

/// Lookup resolves to position `i` when it holds the first occurrence of `k`.
proof fn lemma_seq_get_first_match(es: Seq<(Seq<char>, Seq<char>)>, k: Seq<char>, i: int)
    requires
        0 <= i < es.len(),
        es[i].0 == k,
        forall|j: int| 0 <= j < i ==> (#[trigger] es[j]).0 != k,
    ensures
        seq_get(es, k) == Some(es[i].1),
    decreases i,
{
    if i > 0 {
        lemma_seq_get_first_match(es.drop_first(), k, i - 1);
    }
}

/// Replacing the entry at `i` (whose key is `k`) with `(k, v)` keeps the list
/// sorted and changes only the binding of `k`.
proof fn lemma_update_entry(
    pre: Seq<(Seq<char>, Seq<char>)>,
    post: Seq<(Seq<char>, Seq<char>)>,
    i: int,
    k: Seq<char>,
    v: Seq<char>,
)
    requires
        entries_sorted(pre),
        0 <= i < pre.len(),
        pre[i].0 == k,
        post =~= pre.remove(i).insert(i, (k, v)),
    ensures
        entries_sorted(post),
        forall|q: Seq<char>|
            #[trigger] seq_get(post, q) == if q == k {
                Some(v)
            } else {
                seq_get(pre, q)
            },
{
    assert(forall|j: int| 0 <= j < pre.len() && j != i ==> post[j] == pre[j]);
    assert(post[i] == (k, v));
    assert(entries_sorted(post));
    assert forall|q: Seq<char>|
        #[trigger] seq_get(post, q) == if q == k {
            Some(v)
        } else {
            seq_get(pre, q)
        } by {
        if q == k {
            lemma_seq_get_unique(post, q, i);
        } else {
            lemma_seq_get_match(post, q);
            lemma_seq_get_match(pre, q);
            match seq_get(post, q) {
                Some(w) => {
                    let j = choose|j: int|
                        0 <= j < post.len() && #[trigger] post[j].0 == q && post[j].1 == w;
                    assert(j != i);
                    lemma_seq_get_unique(pre, q, j);
                },
                None => {
                    match seq_get(pre, q) {
                        Some(w) => {
                            let j = choose|j: int|
                                0 <= j < pre.len() && #[trigger] pre[j].0 == q && pre[j].1 == w;
                            assert(post[j].0 == q);
                        },
                        None => {},
                    }
                },
            }
        }
    }
}

/// Inserting `(k, v)` at the sorted position `i` keeps the list sorted and
/// adds exactly the binding of `k`.
proof fn lemma_splice_entry(
    pre: Seq<(Seq<char>, Seq<char>)>,
    post: Seq<(Seq<char>, Seq<char>)>,
    i: int,
    k: Seq<char>,
    v: Seq<char>,
)
    requires
        entries_sorted(pre),
        0 <= i <= pre.len(),
        forall|j: int| 0 <= j < i ==> lex_lt((#[trigger] pre[j]).0, k),
        i < pre.len() ==> lex_lt(k, pre[i].0),
        post =~= pre.insert(i, (k, v)),
    ensures
        entries_sorted(post),
        forall|q: Seq<char>|
            #[trigger] seq_get(post, q) == if q == k {
                Some(v)
            } else {
                seq_get(pre, q)
            },
{
    assert(forall|j: int| 0 <= j < i ==> post[j] == pre[j]);
    assert(forall|j: int| i < j < post.len() ==> post[j] == pre[j - 1]);
    assert(post[i] == (k, v));
    assert forall|a: int, b: int| 0 <= a < b < post.len() implies lex_lt(
        #[trigger] post[a].0,
        #[trigger] post[b].0,
    ) by {
        if a == i {
            assert(lex_lt(k, pre[i].0));
            if b > i + 1 {
                lemma_lex_trans(k, pre[i].0, pre[b - 1].0);
            }
        } else if b == i {
            assert(lex_lt(pre[a].0, k));
        } else if a < i && b > i {
            assert(lex_lt(pre[a].0, pre[b - 1].0));
        }
    }
    assert forall|q: Seq<char>|
        #[trigger] seq_get(post, q) == if q == k {
            Some(v)
        } else {
            seq_get(pre, q)
        } by {
        if q == k {
            lemma_seq_get_unique(post, q, i);
        } else {
            lemma_seq_get_match(post, q);
            lemma_seq_get_match(pre, q);
            match seq_get(post, q) {
                Some(w) => {
                    let j = choose|j: int|
                        0 <= j < post.len() && #[trigger] post[j].0 == q && post[j].1 == w;
                    assert(j != i);
                    if j < i {
                        lemma_seq_get_unique(pre, q, j);
                    } else {
                        lemma_seq_get_unique(pre, q, j - 1);
                    }
                },
                None => {
                    match seq_get(pre, q) {
                        Some(w) => {
                            let j = choose|j: int|
                                0 <= j < pre.len() && #[trigger] pre[j].0 == q && pre[j].1 == w;
                            if j < i {
                                assert(post[j].0 == q);
                            } else {
                                assert(post[j + 1].0 == q);
                            }
                        },
                        None => {},
                    }
                },
            }
        }
    }
}

} // verus!

verus! {

/// Lookups in an empty entry list or pair list find nothing.
pub proof fn lemma_empty_lookups(es: Seq<(Seq<char>, Seq<char>)>)
    requires
        es.len() == 0,
    ensures
        forall|q: Seq<char>| (#[trigger] seq_get(es, q)) is None,
        forall|q: Seq<char>| (#[trigger] pairs_get_last(es, q)) is None,
{
}

} // verus!

verus! {

/// Mirror of `lemma_seq_get_match` for last-match lookup.
pub proof fn lemma_pairs_get_match(ps: Seq<(Seq<char>, Seq<char>)>, k: Seq<char>)
    ensures
        match pairs_get_last(ps, k) {
            Some(v) => exists|i: int| 0 <= i < ps.len() && #[trigger] ps[i].0 == k && ps[i].1 == v,
            None => forall|i: int| 0 <= i < ps.len() ==> (#[trigger] ps[i].0) != k,
        },
    decreases ps.len(),
{
    if ps.len() > 0 && ps.last().0 != k {
        lemma_pairs_get_match(ps.drop_last(), k);
        match pairs_get_last(ps, k) {
            Some(v) => {
                let i = choose|i: int|
                    0 <= i < ps.drop_last().len() && #[trigger] ps.drop_last()[i].0 == k
                        && ps.drop_last()[i].1 == v;
                assert(ps[i].0 == k && ps[i].1 == v);
            },
            None => {
                assert forall|i: int| 0 <= i < ps.len() implies (#[trigger] ps[i].0) != k by {
                    if i < ps.len() - 1 {
                        assert(ps.drop_last()[i].0 != k);
                    }
                }
            },
        }
    }
}

/// On a sorted list the first-match and last-match lookups agree: keys are
/// unique.
pub proof fn lemma_sorted_get_agree(es: Seq<(Seq<char>, Seq<char>)>, k: Seq<char>)
    requires
        entries_sorted(es),
    ensures
        pairs_get_last(es, k) == seq_get(es, k),
{
    lemma_pairs_get_match(es, k);
    lemma_seq_get_match(es, k);
    match pairs_get_last(es, k) {
        Some(v) => {
            let i = choose|i: int| 0 <= i < es.len() && #[trigger] es[i].0 == k && es[i].1 == v;
            lemma_seq_get_unique(es, k, i);
        },
        None => {
            match seq_get(es, k) {
                Some(w) => {
                    let j = choose|j: int|
                        0 <= j < es.len() && #[trigger] es[j].0 == k && es[j].1 == w;
                    assert(es[j].0 != k);
                },
                None => {},
            }
        },
    }
}

/// A last-match lookup over a concatenation prefers the right-hand list.
pub proof fn lemma_pairs_concat(
    d: Seq<(Seq<char>, Seq<char>)>,
    o: Seq<(Seq<char>, Seq<char>)>,
    k: Seq<char>,
)
    ensures
        pairs_get_last(d + o, k) == if pairs_get_last(o, k) is Some {
            pairs_get_last(o, k)
        } else {
            pairs_get_last(d, k)
        },
    decreases o.len(),
{
    if o.len() == 0 {
        assert(d + o =~= d);
    } else {
        assert((d + o).last() == o.last());
        assert((d + o).drop_last() =~= d + o.drop_last());
        if o.last().0 != k {
            lemma_pairs_concat(d, o.drop_last(), k);
        }
    }
}

} // verus!

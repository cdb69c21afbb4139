//! The target-string grammar.
//!
//! A target names a repository, an optional branch, an optional recipe and
//! optional recipe options:
//!
//! ```text
//! target    := repo [ '@' branch ] [ ':' recipe ]
//! repo      := (owner '/')? name
//! owner     := [A-Za-z0-9-]+
//! name      := [A-Za-z0-9_.-]+
//! branch    := segment ('/' segment)*      segments must not start with '.'
//! recipe    := recipename (':' options)?
//! recipename:= segment ('/' segment)*      segments may start with '.'
//! options   := key '=' value (',' key '=' value)*
//! key,value := [A-Za-z0-9_]+
//! ```
//!
//! This module defines the accepted language and the extracted fields as
//! specification functions, and verified scanners for each region.

use vstd::prelude::*;

use crate::text::spec_find;

verus! {

pub open spec fn is_alnum(c: char) -> bool {
    ('0' <= c && c <= '9') || ('a' <= c && c <= 'z') || ('A' <= c && c <= 'Z')
}

pub open spec fn is_owner_char(c: char) -> bool {
    is_alnum(c) || c == '-'
}

pub open spec fn is_name_char(c: char) -> bool {
    is_alnum(c) || c == '_' || c == '.' || c == '-'
}

pub open spec fn is_word_char(c: char) -> bool {
    is_alnum(c) || c == '_'
}

/// The three character classes the scanners distinguish.
pub enum CharClass {
    Owner,
    Name,
    Word,
}

pub open spec fn in_class(c: char, k: CharClass) -> bool {
    match k {
        CharClass::Owner => is_owner_char(c),
        CharClass::Name => is_name_char(c),
        CharClass::Word => is_word_char(c),
    }
}

fn class_char(c: char, k: &CharClass) -> (b: bool)
    ensures
        b == in_class(c, *k),
{
    let basic = ('0' <= c && c <= '9') || ('a' <= c && c <= 'z') || ('A' <= c && c <= 'Z');
    match k {
        CharClass::Owner => basic || c == '-',
        CharClass::Name => basic || c == '_' || c == '.' || c == '-',
        CharClass::Word => basic || c == '_',
    }
}

/// A non-empty run of characters of one class.
pub open spec fn valid_span(s: Seq<char>, k: CharClass) -> bool {
    s.len() > 0 && forall|i: int| 0 <= i < s.len() ==> in_class(#[trigger] s[i], k)
}

pub open spec fn valid_owner(s: Seq<char>) -> bool {
    valid_span(s, CharClass::Owner)
}

pub open spec fn valid_name(s: Seq<char>) -> bool {
    valid_span(s, CharClass::Name)
}

pub open spec fn valid_word(s: Seq<char>) -> bool {
    valid_span(s, CharClass::Word)
}

/// `owner/name`, or a bare `name` without a slash.
pub open spec fn valid_repo(s: Seq<char>) -> bool {
    if s.contains('/') {
        let k = spec_find(s, '/');
        valid_owner(s.subrange(0, k)) && valid_name(s.subrange(k + 1, s.len() as int))
    } else {
        valid_name(s)
    }
}

/// Slash-separated non-empty segments of name characters. When `dotfile` is
/// false no segment may start with `.`.
pub open spec fn valid_path(s: Seq<char>, dotfile: bool) -> bool {
    &&& s.len() > 0
    &&& forall|i: int| 0 <= i < s.len() ==> is_name_char(#[trigger] s[i]) || s[i] == '/'
    &&& s[0] != '/'
    &&& s[s.len() - 1] != '/'
    &&& forall|i: int| 0 <= i < s.len() - 1 ==> !(#[trigger] s[i] == '/' && s[i + 1] == '/')
    &&& (dotfile || forall|i: int|
        0 <= i < s.len() && (i == 0 || s[i - 1] == '/') ==> (#[trigger] s[i]) != '.')
}

/// The key and value of one `key=value` entry, if it is well-formed.
pub open spec fn spec_entry(e: Seq<char>) -> Option<(Seq<char>, Seq<char>)> {
    let j = spec_find(e, '=');
    if 0 <= j < e.len() && valid_word(e.subrange(0, j)) && valid_word(
        e.subrange(j + 1, e.len() as int),
    ) {
        Some((e.subrange(0, j), e.subrange(j + 1, e.len() as int)))
    } else {
        None
    }
}

/// The entries of a comma-separated option list, in written order, or `None`
/// when the list is not well-formed.
pub open spec fn spec_options(s: Seq<char>) -> Option<Seq<(Seq<char>, Seq<char>)>>
    decreases s.len(),
{
    let k = spec_find(s, ',');
    if !(0 <= k <= s.len()) {
        None
    } else {
        match spec_entry(s.subrange(0, k)) {
            None => None,
            Some(p) => if k == s.len() {
                Some(seq![p])
            } else {
                match spec_options(s.subrange(k + 1, s.len() as int)) {
                    None => None,
                    Some(rest) => Some(seq![p] + rest),
                }
            },
        }
    }
}

/// The raw pieces of a target string, before namespace expansion and recipe
/// interpretation.
pub ghost struct RawTarget {
    pub repo: Seq<char>,
    pub branch: Option<Seq<char>>,
    pub recipe: Option<Seq<char>>,
    pub options: Seq<(Seq<char>, Seq<char>)>,
}

/// Splits a target at its separators and validates every region. `None`
/// exactly when the string is not in the target language.
pub open spec fn spec_target(s: Seq<char>) -> Option<RawTarget> {
    let n = s.len() as int;
    let at = spec_find(s, '@');
    let co = spec_find(s, ':');
    let repo_end = if at < co {
        at
    } else {
        co
    };
    if !valid_repo(s.subrange(0, repo_end)) {
        None
    } else if at < co && !valid_path(s.subrange(at + 1, co), false) {
        None
    } else if co < n {
        let r = s.subrange(co + 1, n);
        let k = spec_find(r, ':');
        if !valid_path(r.subrange(0, k), true) {
            None
        } else if k == r.len() {
            Some(
                RawTarget {
                    repo: s.subrange(0, repo_end),
                    branch: if at < co {
                        Some(s.subrange(at + 1, co))
                    } else {
                        None
                    },
                    recipe: Some(r.subrange(0, k)),
                    options: Seq::empty(),
                },
            )
        } else {
            match spec_options(r.subrange(k + 1, r.len() as int)) {
                None => None,
                Some(ps) => Some(
                    RawTarget {
                        repo: s.subrange(0, repo_end),
                        branch: if at < co {
                            Some(s.subrange(at + 1, co))
                        } else {
                            None
                        },
                        recipe: Some(r.subrange(0, k)),
                        options: ps,
                    },
                ),
            }
        }
    } else {
        Some(
            RawTarget {
                repo: s.subrange(0, repo_end),
                branch: if at < co {
                    Some(s.subrange(at + 1, co))
                } else {
                    None
                },
                recipe: None,
                options: Seq::empty(),
            },
        )
    }
}

/// Checks that `s[lo..hi]` is a non-empty run of `k`-class characters.
pub fn check_span(s: &str, lo: usize, hi: usize, k: CharClass) -> (b: bool)
    requires
        lo <= hi <= s@.len(),
    ensures
        b == valid_span(s@.subrange(lo as int, hi as int), k),
{
    let ghost sub = s@.subrange(lo as int, hi as int);
    if hi == lo {
        return false;
    }
    let mut i = lo;
    while i < hi
        invariant
            lo <= i <= hi <= s@.len(),
            sub == s@.subrange(lo as int, hi as int),
            forall|j: int| 0 <= j < i - lo ==> in_class(#[trigger] sub[j], k),
        decreases hi - i,
    {
        if !class_char(s.get_char(i), &k) {
            proof {
                assert(sub[i - lo] == s@[i as int]);
            }
            return false;
        }
        proof {
            assert(sub[i - lo] == s@[i as int]);
        }
        i += 1;
    }
    true
}

/// Checks that `s[lo..hi]` is a valid slash-separated path.
pub fn check_path(s: &str, lo: usize, hi: usize, dotfile: bool) -> (b: bool)
    requires
        lo <= hi <= s@.len(),
    ensures
        b == valid_path(s@.subrange(lo as int, hi as int), dotfile),
{
    let ghost sub = s@.subrange(lo as int, hi as int);
    if hi == lo {
        return false;
    }
    let mut i = lo;
    while i < hi
        invariant
            lo <= i <= hi <= s@.len(),
            hi > lo,
            sub == s@.subrange(lo as int, hi as int),
            forall|j: int| 0 <= j < i - lo ==> is_name_char(#[trigger] sub[j]) || sub[j] == '/',
            i > lo ==> sub[0] != '/',
            forall|j: int| 0 <= j < i - lo ==> (#[trigger] sub[j]) == '/' ==> j < hi - lo - 1,
            forall|j: int| 0 <= j < i - lo - 1 ==> !(#[trigger] sub[j] == '/' && sub[j + 1] == '/'),
            dotfile || forall|j: int|
                0 <= j < i - lo && (j == 0 || sub[j - 1] == '/') ==> (#[trigger] sub[j]) != '.',
        decreases hi - i,
    {
        let c = s.get_char(i);
        proof {
            assert(sub[i - lo] == s@[i as int]);
        }
        if !class_char(c, &CharClass::Name) && c != '/' {
            return false;
        }
        if c == '/' {
            if i == lo || i == hi - 1 {
                return false;
            }
            if s.get_char(i - 1) == '/' {
                proof {
                    assert(sub[i - lo - 1] == s@[i - 1]);
                }
                return false;
            }
        }
        if !dotfile && c == '.' {
            if i == lo {
                return false;
            }
            if s.get_char(i - 1) == '/' {
                proof {
                    assert(sub[i - lo - 1] == s@[i - 1]);
                }
                return false;
            }
        }
        proof {
            if i > lo {
                assert(sub[i - lo - 1] == s@[i - 1]);
            }
        }
        i += 1;
    }
    true
}

} // verus!

verus! {

/// `s` holds exactly one slash.
pub open spec fn exactly_one_slash(s: Seq<char>) -> bool {
    exists|k: int|
        0 <= k < s.len() && s[k] == '/' && (forall|j: int|
            0 <= j < s.len() && j != k ==> s[j] != '/')
}

/// A valid repository region expands to an identity with exactly one
/// slash: either it already was `owner/name`, or the builtin namespace
/// prefix supplies the one slash of `rime/rime-name`.
pub proof fn lemma_repo_one_slash(r: Seq<char>)
    requires
        valid_repo(r),
    ensures
        exactly_one_slash(crate::target::expand_repo(r)),
{
    if r.contains('/') {
        crate::text::lemma_spec_find(r, '/');
        let k = spec_find(r, '/');
        let owner = r.subrange(0, k);
        let name = r.subrange(k + 1, r.len() as int);
        assert forall|j: int| 0 <= j < r.len() && j != k implies r[j] != '/' by {
            if j < k {
                assert(owner[j] == r[j]);
                assert(is_owner_char(owner[j]));
            } else {
                assert(name[j - k - 1] == r[j]);
                assert(is_name_char(name[j - k - 1]));
            }
        }
        assert(exactly_one_slash(r));
    } else {
        reveal_strlit("rime/rime-");
        let p = "rime/rime-"@;
        let e = p + r;
        assert(p.len() == 10) by {
            broadcast use vstd::string::group_string_axioms;

        }
        assert(p[4] == '/');
        assert(e[4] == '/');
        assert forall|j: int| 0 <= j < e.len() && j != 4 implies e[j] != '/' by {
            if j < 10 {
                if j == 0 {
                    assert(p[0] == 'r');
                } else if j == 1 {
                    assert(p[1] == 'i');
                } else if j == 2 {
                    assert(p[2] == 'm');
                } else if j == 3 {
                    assert(p[3] == 'e');
                } else if j == 5 {
                    assert(p[5] == 'r');
                } else if j == 6 {
                    assert(p[6] == 'i');
                } else if j == 7 {
                    assert(p[7] == 'm');
                } else if j == 8 {
                    assert(p[8] == 'e');
                } else if j == 9 {
                    assert(p[9] == '-');
                }
            } else {
                assert(e[j] == r[j - 10]);
                assert(is_name_char(r[j - 10]));
            }
        }
        assert(exactly_one_slash(e));
    }
}

} // verus!

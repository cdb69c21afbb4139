//! The patch engine: injects and replaces comment-delimited blocks in
//! configuration files held as plain text.
//!
//! A file is processed as a sequence of lines. A patch block for an
//! identity `id` is the region between a header line `# Rx: <id> {` and the
//! first footer line `# }` at or after it. Applying a patch removes the
//! previous block with the same identity (failing when its footer is
//! missing), makes sure the `__patch:` anchor line exists, and appends a
//! freshly rendered block, with option references in the payload replaced
//! through the effective options.

use vstd::prelude::*;

use crate::optmap::OptionMap;
use crate::text::spec_find;

verus! {

/// The view of a vector of lines.
pub open spec fn lines_view(v: Seq<String>) -> Seq<Seq<char>> {
    crate::text::strings_view(v)
}

/// One trailing carriage return is dropped from a line ended by `\n`.
pub open spec fn strip_cr(l: Seq<char>) -> Seq<char> {
    if l.len() > 0 && l[l.len() - 1] == '\r' {
        l.drop_last()
    } else {
        l
    }
}

/// The lines of a text: split at `\n`, with `\r\n` endings accepted and no
/// trailing empty line for a text ending in `\n`.
pub open spec fn spec_lines(s: Seq<char>) -> Seq<Seq<char>>
    decreases s.len(),
{
    if s.len() == 0 {
        Seq::empty()
    } else {
        let k = spec_find(s, '\n');
        if !(0 <= k < s.len()) {
            seq![s]
        } else {
            seq![strip_cr(s.subrange(0, k))] + spec_lines(s.subrange(k + 1, s.len() as int))
        }
    }
}

/// Lines joined back into a text, each line ended by `\n`.
pub open spec fn spec_unlines(ls: Seq<Seq<char>>) -> Seq<char>
    decreases ls.len(),
{
    if ls.len() == 0 {
        Seq::empty()
    } else {
        spec_unlines(ls.drop_last()) + ls.last() + seq!['\n']
    }
}

/// Splits a text into its lines.
pub fn split_lines(s: &str) -> (r: Vec<String>)
    ensures
        lines_view(r@) == spec_lines(s@),
{
    let n = s.unicode_len();
    let mut r: Vec<String> = Vec::new();
    let mut pos: usize = 0;
    proof {
        assert(s@.subrange(0, n as int) =~= s@);
        assert(lines_view(r@) + spec_lines(s@) =~= spec_lines(s@));
    }
    loop
        invariant
            pos <= n,
            n == s@.len(),
            ({
                let whole = spec_lines(s@);
                let rest = spec_lines(s@.subrange(pos as int, n as int));
                whole == lines_view(r@) + rest
            }),
        decreases n - pos,
    {
        if pos >= n {
            proof {
                assert(lines_view(r@) + spec_lines(s@.subrange(pos as int, n as int)) =~= lines_view(
                    r@,
                ));
            }
            return r;
        }
        let k = crate::text::find_char_from(s, pos, '\n');
        let ghost sub = s@.subrange(pos as int, n as int);
        proof {
            assert(spec_find(sub, '\n') == k - pos);
            assert(sub.len() > 0);
        }
        let end = if k < n && k > pos && s.get_char(k - 1) == '\r' {
            k - 1
        } else {
            k
        };
        let line = s.substring_char(pos, end).to_owned();
        proof {
            if k < n {
                assert(s@.subrange(pos as int, k as int) =~= sub.subrange(0, k - pos));
                if k > pos && s@[k - 1] == '\r' {
                    assert(line@ =~= strip_cr(sub.subrange(0, k - pos)));
                } else {
                    assert(line@ =~= strip_cr(sub.subrange(0, k - pos)));
                }
            } else {
                assert(line@ =~= sub);
            }
        }
        let ghost r_pre = r@;
        r.push(line);
        proof {
            assert(lines_view(r@) =~= lines_view(r_pre).push(line@));
            if k < n {
                assert(s@.subrange(k + 1, n as int) =~= sub.subrange(k - pos + 1, sub.len() as int));
                assert(lines_view(r@) + spec_lines(s@.subrange(k + 1, n as int)) =~= lines_view(
                    r_pre,
                ) + spec_lines(sub));
            } else {
                assert(spec_lines(sub) =~= seq![sub]);
                assert(lines_view(r@) + spec_lines(s@.subrange(n as int, n as int)) =~= lines_view(
                    r_pre,
                ) + spec_lines(sub));
            }
        }
        if k >= n {
            return r;
        }
        pos = k + 1;
    }
}

/// Joins lines into a text, ending every line with `\n`.
pub fn join_lines(ls: &Vec<String>) -> (r: String)
    ensures
        r@ == spec_unlines(lines_view(ls@)),
{
    let n = ls.len();
    let mut r = String::new();
    let mut i: usize = 0;
    while i < n
        invariant
            i <= n,
            n == ls@.len(),
            r@ == spec_unlines(lines_view(ls@).subrange(0, i as int)),
        decreases n - i,
    {
        let ghost pre = r@;
        r.append(ls[i].as_str());
        r.append("\n");
        proof {
            reveal_strlit("\n");
            let lv = lines_view(ls@);
            assert(lv.subrange(0, i + 1).drop_last() =~= lv.subrange(0, i as int));
            assert(lv.subrange(0, i + 1).last() == ls@[i as int]@);
            assert("\n"@ =~= seq!['\n']);
            assert(r@ =~= spec_unlines(lv.subrange(0, i + 1)));
        }
        i += 1;
    }
    proof {
        assert(lines_view(ls@).subrange(0, n as int) =~= lines_view(ls@));
    }
    r
}

/// Index of the first line equal to `l`, or the number of lines.
pub open spec fn spec_find_line(ls: Seq<Seq<char>>, l: Seq<char>) -> int
    decreases ls.len(),
{
    if ls.len() == 0 {
        0
    } else if ls[0] == l {
        0
    } else {
        1 + spec_find_line(ls.drop_first(), l)
    }
}

pub proof fn lemma_spec_find_line(ls: Seq<Seq<char>>, l: Seq<char>)
    ensures
        0 <= spec_find_line(ls, l) <= ls.len(),
        spec_find_line(ls, l) < ls.len() ==> ls[spec_find_line(ls, l)] == l,
        forall|j: int| 0 <= j < spec_find_line(ls, l) ==> ls[j] != l,
        (spec_find_line(ls, l) == ls.len()) <==> !ls.contains(l),
    decreases ls.len(),
{
    if ls.len() == 0 {
    } else if ls[0] == l {
    } else {
        lemma_spec_find_line(ls.drop_first(), l);
        assert forall|j: int| 0 <= j < spec_find_line(ls, l) implies ls[j] != l by {
            if j > 0 {
                assert(ls.drop_first()[j - 1] != l);
            }
        }
        if spec_find_line(ls, l) == ls.len() {
            assert forall|i: int| 0 <= i < ls.len() implies ls[i] != l by {
                if i > 0 {
                    assert(ls.drop_first()[i - 1] != l);
                }
            }
        } else {
            assert(ls[spec_find_line(ls, l)] == ls.drop_first()[spec_find_line(ls, l) - 1]);
        }
    }
}

/// A position that looks like a first occurrence from `lo` on is exactly
/// `lo + spec_find_line` of the suffix.
pub proof fn lemma_find_line_unique(ls: Seq<Seq<char>>, lo: int, l: Seq<char>, r: int)
    requires
        0 <= lo <= r <= ls.len(),
        r < ls.len() ==> ls[r] == l,
        forall|j: int| lo <= j < r ==> ls[j] != l,
    ensures
        r == lo + spec_find_line(ls.subrange(lo, ls.len() as int), l),
{
    let suf = ls.subrange(lo, ls.len() as int);
    lemma_spec_find_line(suf, l);
    let f = spec_find_line(suf, l);
    if lo + f < r {
        assert(ls[lo + f] == suf[f]);
    } else if r < lo + f {
        assert(r < ls.len());
        assert(suf[r - lo] == l);
    }
}

/// First index at or after `lo` of a line equal to `l`, or the line count.
fn find_line_from(ls: &Vec<String>, lo: usize, l: &str) -> (r: usize)
    requires
        lo <= ls@.len(),
    ensures
        lo <= r <= ls@.len(),
        r < ls@.len() ==> lines_view(ls@)[r as int] == l@,
        forall|j: int| lo <= j < r ==> lines_view(ls@)[j] != l@,
        r - lo == spec_find_line(lines_view(ls@).subrange(lo as int, ls@.len() as int), l@),
{
    let n = ls.len();
    let mut i = lo;
    while i < n
        invariant
            lo <= i <= n,
            n == ls@.len(),
            forall|j: int| lo <= j < i ==> lines_view(ls@)[j] != l@,
        decreases n - i,
    {
        if crate::text::str_eq(ls[i].as_str(), l) {
            proof {
                lemma_find_line_unique(lines_view(ls@), lo as int, l@, i as int);
            }
            return i;
        }
        i += 1;
    }
    proof {
        lemma_find_line_unique(lines_view(ls@), lo as int, l@, n as int);
    }
    n
}

} // verus!

verus! {

/// The anchor line the target application expects somewhere in a patched
/// file.
pub open spec fn anchor_line() -> Seq<char> {
    "__patch:"@
}

/// The header line that opens the patch block of identity `id`.
pub open spec fn spec_header(id: Seq<char>) -> Seq<char> {
    "# Rx: "@ + id + " {"@
}

/// The footer line that closes every patch block.
pub open spec fn footer_line() -> Seq<char> {
    "# }"@
}

/// The file with the anchor line appended when it is missing.
pub open spec fn spec_anchored(ls: Seq<Seq<char>>) -> Seq<Seq<char>> {
    if ls.contains(anchor_line()) {
        ls
    } else {
        ls.push(anchor_line())
    }
}

/// The file with the first block of identity `id` removed, header to
/// footer inclusive. `None` when the header exists but no footer follows
/// it: a corrupted earlier patch.
pub open spec fn spec_strip_block(ls: Seq<Seq<char>>, id: Seq<char>) -> Option<Seq<Seq<char>>> {
    let h = spec_find_line(ls, spec_header(id));
    if !(0 <= h < ls.len()) {
        Some(ls)
    } else {
        let d = spec_find_line(ls.subrange(h, ls.len() as int), footer_line());
        if h + d >= ls.len() {
            None
        } else {
            Some(ls.subrange(0, h) + ls.subrange(h + d + 1, ls.len() as int))
        }
    }
}

/// What `shellexpand::env_with_context_no_errors` returns for a line under
/// a fixed set of option values. The result depends on the line and the
/// options alone.
pub uninterp spec fn expand_of(line: Seq<char>, opts: Map<Seq<char>, Seq<char>>) -> Seq<char>;

/// The payload lines as they are injected: indented by two spaces, with
/// option references expanded.
pub open spec fn spec_rendered(payload: Seq<Seq<char>>, opts: Map<Seq<char>, Seq<char>>) -> Seq<
    Seq<char>,
> {
    payload.map_values(|l: Seq<char>| "  "@ + expand_of(l, opts))
}

/// The payload lines of an emitted document: everything after the leading
/// document-start line.
pub open spec fn spec_payload_lines(s: Seq<char>) -> Seq<Seq<char>> {
    if spec_lines(s).len() == 0 {
        Seq::empty()
    } else {
        spec_lines(s).drop_first()
    }
}

/// The whole patch application on a file's lines.
pub open spec fn spec_apply(
    ls: Seq<Seq<char>>,
    id: Seq<char>,
    payload: Seq<Seq<char>>,
    opts: Map<Seq<char>, Seq<char>>,
) -> Option<Seq<Seq<char>>> {
    match spec_strip_block(spec_anchored(ls), id) {
        None => None,
        Some(st) => Some(
            st + seq![spec_header(id)] + spec_rendered(payload, opts) + seq![footer_line()],
        ),
    }
}

/// The whole patch application on a file's text: the file's lines are
/// patched and joined back, every line ended by `\n`.
pub open spec fn spec_apply_text(
    t: Seq<char>,
    id: Seq<char>,
    payload: Seq<Seq<char>>,
    opts: Map<Seq<char>, Seq<char>>,
) -> Option<Seq<char>> {
    match spec_apply(spec_lines(t), id, payload, opts) {
        None => None,
        Some(ols) => Some(spec_unlines(ols)),
    }
}

/// Applying a patch failed because the previously patched file is
/// corrupted: a block header has no matching footer.
#[derive(Debug)]
pub struct PatchError;

impl PatchError {
    /// A human-readable description of the failure.
    pub fn message(&self) -> (r: String)
        ensures
            r@ == "failed to parse the previously patched file"@,
    {
        String::from_str("failed to parse the previously patched file")
    }
}

/// Relies on `shellexpand::env_with_context_no_errors`: replaces `$NAME`
/// and `${NAME}` references through the given lookup, leaves unresolved
/// references in place, never fails, and its result depends on the line
/// and the option values alone. A line without `$` is returned unchanged,
/// and the result is a concatenation of pieces of the line and of
/// looked-up values, so a line free of newlines and carriage returns
/// stays free of them when every option value is.
#[verifier::external_body]
fn expand_line(line: &str, options: &OptionMap) -> (r: String)
    ensures
        r@ == expand_of(line@, options.as_map()),
        !line@.contains('$') ==> r@ == line@,
        (!line@.contains('\n') && !line@.contains('\r') && (forall|k: Seq<char>|
            options.as_map().dom().contains(k) ==> !(#[trigger] options.as_map()[k]).contains(
                '\n',
            ) && !options.as_map()[k].contains('\r'))) ==> !r@.contains('\n') && !r@.contains(
            '\r',
        ),
{
    shellexpand::env_with_context_no_errors(line, |key: &str| options.get(key)).into_owned()
}

/// Applies the patch of identity `block_id` with the emitted payload
/// `payload_text` to the text of a destination file: removes the previous
/// block of that identity, keeps everything else, and appends the freshly
/// rendered block. Fails exactly when a previous block of that identity
/// has no footer.
#[verifier::rlimit(60)]
pub fn apply_patch(content: &str, block_id: &str, payload_text: &str, options: &OptionMap) -> (r:
    Result<String, PatchError>)
    ensures
        ({
            let applied = spec_apply_text(
                content@,
                block_id@,
                spec_payload_lines(payload_text@),
                options.as_map(),
            );
            match r {
                Ok(out) => applied == Some(out@),
                Err(e) => applied is None,
            }
        }),
{
    let mut ls = split_lines(content);
    let a = find_line_from(&ls, 0, "__patch:");
    proof {
        assert(lines_view(ls@).subrange(0, ls@.len() as int) =~= lines_view(ls@));
    }
    if a >= ls.len() {
        let ghost pre = lines_view(ls@);
        ls.push(String::from_str("__patch:"));
        proof {
            assert(!pre.contains(anchor_line()));
            assert(lines_view(ls@) =~= pre.push(anchor_line()));
        }
    } else {
        proof {
            assert(lines_view(ls@).contains(anchor_line()));
        }
    }
    let ghost anchored = lines_view(ls@);
    proof {
        assert(anchored == spec_anchored(spec_lines(content@)));
    }
    let header = String::from_str("# Rx: ").concat(block_id).concat(" {");
    proof {
        assert(header@ =~= spec_header(block_id@));
    }
    let h = find_line_from(&ls, 0, header.as_str());
    proof {
        assert(anchored.subrange(0, anchored.len() as int) =~= anchored);
        assert(spec_find_line(anchored, spec_header(block_id@)) == h);
    }
    let mut base: Vec<String>;
    if h < ls.len() {
        let f = find_line_from(&ls, h, "# }");
        proof {
            assert(spec_find_line(anchored.subrange(h as int, anchored.len() as int), footer_line())
                == f - h);
        }
        if f >= ls.len() {
            return Err(PatchError);
        }
        base = Vec::new();
        let mut i: usize = 0;
        while i < h
            invariant
                i <= h,
                h < ls@.len(),
                anchored == lines_view(ls@),
                lines_view(base@) =~= anchored.subrange(0, i as int),
            decreases h - i,
        {
            let ghost bpre = lines_view(base@);
            base.push(ls[i].clone());
            proof {
                assert(lines_view(base@) =~= bpre.push(ls@[i as int]@));
                assert(lines_view(base@) =~= anchored.subrange(0, i + 1));
            }
            i += 1;
        }
        let mut j: usize = f + 1;
        while j < ls.len()
            invariant
                f < j <= ls@.len(),
                f < ls@.len(),
                h <= f,
                anchored == lines_view(ls@),
                lines_view(base@) =~= anchored.subrange(0, h as int) + anchored.subrange(
                    f + 1,
                    j as int,
                ),
            decreases ls@.len() - j,
        {
            let ghost bpre = lines_view(base@);
            base.push(ls[j].clone());
            proof {
                assert(lines_view(base@) =~= bpre.push(ls@[j as int]@));
                assert(lines_view(base@) =~= anchored.subrange(0, h as int) + anchored.subrange(
                    f + 1,
                    j + 1,
                ));
            }
            j += 1;
        }
        proof {
            assert(lines_view(base@) =~= anchored.subrange(0, h as int) + anchored.subrange(
                f + 1,
                anchored.len() as int,
            ));
        }
    } else {
        base = ls;
        proof {
            assert(lines_view(base@) == anchored);
        }
    }
    let ghost stripped = lines_view(base@);
    proof {
        assert(spec_strip_block(anchored, block_id@) == Some(stripped));
    }
    let mut out = base;
    let ghost hv = header@;
    out.push(header);
    let pl = split_lines(payload_text);
    let ghost plv = lines_view(pl@);
    let ghost pv = spec_payload_lines(payload_text@);
    let start: usize = if pl.len() > 0 {
        1
    } else {
        0
    };
    proof {
        assert(lines_view(out@) =~= stripped + seq![hv]);
        assert(spec_rendered(pv.subrange(0, 0), options.as_map()) =~= Seq::<Seq<char>>::empty());
        assert(lines_view(out@) =~= stripped + seq![hv] + spec_rendered(
            pv.subrange(0, 0),
            options.as_map(),
        ));
        if pl.len() > 0 {
            assert(pv =~= plv.drop_first());
        }
    }
    let mut i = start;
    while i < pl.len()
        invariant
            start <= i <= pl@.len(),
            start <= 1,
            plv == lines_view(pl@),
            pv.len() == pl@.len() - start,
            forall|k: int| 0 <= k < pv.len() ==> pv[k] == plv[k + start],
            options.wf() || true,
            lines_view(out@) =~= stripped + seq![hv] + spec_rendered(
                pv.subrange(0, i - start),
                options.as_map(),
            ),
        decreases pl@.len() - i,
    {
        let expanded = expand_line(pl[i].as_str(), options);
        let line = String::from_str("  ").concat(expanded.as_str());
        let ghost opre = lines_view(out@);
        proof {
            assert(line@ =~= "  "@ + expand_of(plv[i as int], options.as_map()));
        }
        out.push(line);
        proof {
            assert(lines_view(out@) =~= opre.push("  "@ + expand_of(pv[i - start],
                options.as_map(),
            )));
            assert(spec_rendered(pv.subrange(0, i + 1 - start), options.as_map()) =~= spec_rendered(
                pv.subrange(0, i - start),
                options.as_map(),
            ).push("  "@ + expand_of(pv[i - start], options.as_map())));
        }
        i += 1;
    }
    proof {
        assert(pv.subrange(0, pv.len() as int) =~= pv);
    }
    out.push(String::from_str("# }"));
    proof {
        assert(lines_view(out@) =~= stripped + seq![spec_header(block_id@)] + spec_rendered(
            pv,
            options.as_map(),
        ) + seq![footer_line()]);
    }
    let text = join_lines(&out);
    Ok(text)
}

} // verus!

verus! {

/// The delimiter lines of a block can never collide with each other or
/// with a rendered payload line: rendered lines start with spaces, the
/// header starts with `# ` and is longer than the footer, and the anchor
/// starts with an underscore.
proof fn lemma_block_lines(id: Seq<char>)
    ensures
        spec_header(id) != anchor_line(),
        spec_header(id) != footer_line(),
        anchor_line() != footer_line(),
        forall|x: Seq<char>|
            (#[trigger] ("  "@ + x)) != spec_header(id) && ("  "@ + x) != footer_line(),
{
    reveal_strlit("__patch:");
    reveal_strlit("# Rx: ");
    reveal_strlit(" {");
    reveal_strlit("# }");
    reveal_strlit("  ");
    assert(spec_header(id)[0] == '#');
    assert(anchor_line()[0] == '_');
    assert(footer_line()[0] == '#');
    assert(footer_line().len() == 3);
    assert(spec_header(id).len() >= 8);
    assert forall|x: Seq<char>|
        (#[trigger] ("  "@ + x)) != spec_header(id) && ("  "@ + x) != footer_line() by {
        assert(("  "@ + x)[0] == ' ');
    }
}

/// Applying a patch to a file that holds no block with the same identity
/// succeeds, and applying the same patch to the result again leaves the
/// file unchanged line for line: patching is idempotent.
pub proof fn lemma_apply_patch_idempotent(
    ls: Seq<Seq<char>>,
    id: Seq<char>,
    payload: Seq<Seq<char>>,
    opts: Map<Seq<char>, Seq<char>>,
)
    requires
        !ls.contains(spec_header(id)),
    ensures
        spec_apply(ls, id, payload, opts) matches Some(out) && spec_apply(out, id, payload, opts)
            == Some(out),
{
    lemma_block_lines(id);
    let a = spec_anchored(ls);
    let h = spec_header(id);
    let rend = spec_rendered(payload, opts);
    assert(!a.contains(h)) by {
        if a.contains(h) {
            let i = choose|i: int| 0 <= i < a.len() && a[i] == h;
            if i < ls.len() {
                assert(ls[i] == h);
            }
        }
    }
    lemma_spec_find_line(a, h);
    assert(spec_strip_block(a, id) == Some(a));
    let out = a + seq![h] + rend + seq![footer_line()];
    assert(spec_apply(ls, id, payload, opts) == Some(out));

    // Second application: the anchor is still there ...
    assert(a.contains(anchor_line())) by {
        if !ls.contains(anchor_line()) {
            assert(a[ls.len() as int] == anchor_line());
        }
    }
    let ai = choose|i: int| 0 <= i < a.len() && a[i] == anchor_line();
    assert(out[ai] == anchor_line());
    assert(out.contains(anchor_line()));
    assert(spec_anchored(out) == out);

    // ... the first header line is the one this application wrote ...
    let n = out.len() as int;
    assert(out[a.len() as int] == h);
    assert forall|j: int| 0 <= j < a.len() implies out[j] != h by {
        assert(out[j] == a[j]);
    }
    lemma_find_line_unique(out, 0, h, a.len() as int);
    assert(out.subrange(0, n) =~= out);
    assert(spec_find_line(out, h) == a.len());

    // ... and the first footer at or after it is the final line.
    assert(out[n - 1] == footer_line());
    assert forall|j: int| a.len() <= j < n - 1 implies out[j] != footer_line() by {
        if j == a.len() {
        } else {
            assert(out[j] == rend[j - a.len() - 1]);
            assert(rend[j - a.len() - 1] == "  "@ + expand_of(payload[j - a.len() - 1], opts));
        }
    }
    lemma_find_line_unique(out, a.len() as int, footer_line(), n - 1);
    assert(a.len() + spec_find_line(out.subrange(a.len() as int, n), footer_line()) == n - 1);
    assert(out.subrange(0, a.len() as int) =~= a);
    assert(out.subrange(n, n) =~= Seq::<Seq<char>>::empty());
    assert(spec_strip_block(out, id) == Some(out.subrange(0, a.len() as int) + out.subrange(n, n)));
    assert(out.subrange(0, a.len() as int) + out.subrange(n, n) =~= a);
    assert(spec_apply(out, id, payload, opts) == Some(out));
}

/// Applying a patch to a file that already holds an intact block with the
/// same identity replaces exactly that block: everything before and after
/// it is kept, and the freshly rendered block is appended.
pub proof fn lemma_apply_patch_replaces(
    a: Seq<Seq<char>>,
    b: Seq<Seq<char>>,
    c: Seq<Seq<char>>,
    id: Seq<char>,
    payload: Seq<Seq<char>>,
    opts: Map<Seq<char>, Seq<char>>,
)
    requires
        !a.contains(spec_header(id)),
        !b.contains(footer_line()),
        a.contains(anchor_line()) || c.contains(anchor_line()),
    ensures
        spec_apply(a + seq![spec_header(id)] + b + seq![footer_line()] + c, id, payload, opts)
            == Some(
            a + c + seq![spec_header(id)] + spec_rendered(payload, opts) + seq![footer_line()],
        ),
{
    lemma_block_lines(id);
    let h = spec_header(id);
    let l = a + seq![h] + b + seq![footer_line()] + c;
    let n = l.len() as int;
    let ha = a.len() as int;
    let fa = ha + 1 + b.len() as int;

    assert(l.contains(anchor_line())) by {
        if a.contains(anchor_line()) {
            let i = choose|i: int| 0 <= i < a.len() && a[i] == anchor_line();
            assert(l[i] == anchor_line());
        } else {
            let i = choose|i: int| 0 <= i < c.len() && c[i] == anchor_line();
            assert(l[fa + 1 + i] == anchor_line());
        }
    }
    assert(spec_anchored(l) == l);

    assert(l[ha] == h);
    assert forall|j: int| 0 <= j < ha implies l[j] != h by {
        assert(l[j] == a[j]);
    }
    lemma_find_line_unique(l, 0, h, ha);
    assert(l.subrange(0, n) =~= l);
    assert(spec_find_line(l, h) == ha);

    assert(l[fa] == footer_line());
    assert forall|j: int| ha <= j < fa implies l[j] != footer_line() by {
        if j > ha {
            assert(l[j] == b[j - ha - 1]);
        }
    }
    lemma_find_line_unique(l, ha, footer_line(), fa);
    assert(ha + spec_find_line(l.subrange(ha, n), footer_line()) == fa);
    assert(fa < n);
    assert(spec_strip_block(l, id) == Some(l.subrange(0, ha) + l.subrange(fa + 1, n)));
    assert(l.subrange(0, ha) =~= a);
    assert(l.subrange(fa + 1, n) =~= c);
    assert(l.subrange(0, ha) + l.subrange(fa + 1, n) =~= a + c);
    assert((a + c) + seq![h] + spec_rendered(payload, opts) + seq![footer_line()] =~= a + c + seq![
        h,
    ] + spec_rendered(payload, opts) + seq![footer_line()]);
}

} // verus!

verus! {

/// A file that holds a header for `id` but no footer line at all is
/// corrupted: applying a patch with that identity fails rather than
/// appending a second block.
pub proof fn lemma_apply_patch_detects_corruption(
    ls: Seq<Seq<char>>,
    id: Seq<char>,
    payload: Seq<Seq<char>>,
    opts: Map<Seq<char>, Seq<char>>,
)
    requires
        ls.contains(spec_header(id)),
        !ls.contains(footer_line()),
    ensures
        spec_apply(ls, id, payload, opts) is None,
{
    lemma_block_lines(id);
    let a = spec_anchored(ls);
    let h = spec_header(id);
    assert(a.contains(h)) by {
        let i = choose|i: int| 0 <= i < ls.len() && ls[i] == h;
        assert(a[i] == h);
    }
    assert(!a.contains(footer_line())) by {
        if a.contains(footer_line()) {
            let i = choose|i: int| 0 <= i < a.len() && a[i] == footer_line();
            if i < ls.len() {
                assert(ls[i] == footer_line());
            }
        }
    }
    lemma_spec_find_line(a, h);
    let hi = spec_find_line(a, h);
    assert(0 <= hi < a.len());
    let suf = a.subrange(hi, a.len() as int);
    assert(!suf.contains(footer_line())) by {
        if suf.contains(footer_line()) {
            let i = choose|i: int| 0 <= i < suf.len() && suf[i] == footer_line();
            assert(a[hi + i] == footer_line());
        }
    }
    lemma_spec_find_line(suf, footer_line());
    assert(spec_find_line(suf, footer_line()) == suf.len());
    assert(spec_strip_block(a, id) is None);
}

} // verus!

verus! {

/// Re-running the same patch over a file that already holds its intact
/// block gives a stable result: the first run moves the block to the end
/// of the file, and a second run with the same identity, payload and
/// options reproduces that file exactly.
pub proof fn lemma_apply_patch_stable(
    a: Seq<Seq<char>>,
    b: Seq<Seq<char>>,
    c: Seq<Seq<char>>,
    id: Seq<char>,
    payload: Seq<Seq<char>>,
    opts: Map<Seq<char>, Seq<char>>,
)
    requires
        !a.contains(spec_header(id)),
        !b.contains(footer_line()),
        !c.contains(spec_header(id)),
        a.contains(anchor_line()) || c.contains(anchor_line()),
    ensures
        ({
            let l = a + seq![spec_header(id)] + b + seq![footer_line()] + c;
            let once = spec_apply(l, id, payload, opts);
            once matches Some(r) && spec_apply(r, id, payload, opts) == Some(r)
        }),
{
    lemma_block_lines(id);
    let h = spec_header(id);
    let rend = spec_rendered(payload, opts);
    lemma_apply_patch_replaces(a, b, c, id, payload, opts);
    let r = a + c + seq![h] + rend + seq![footer_line()];

    let ac = a + c;
    assert(!ac.contains(h)) by {
        if ac.contains(h) {
            let i = choose|i: int| 0 <= i < ac.len() && ac[i] == h;
            if i < a.len() {
                assert(a[i] == h);
            } else {
                assert(c[i - a.len()] == h);
            }
        }
    }
    assert(!rend.contains(footer_line())) by {
        if rend.contains(footer_line()) {
            let i = choose|i: int| 0 <= i < rend.len() && rend[i] == footer_line();
            assert(rend[i] == "  "@ + expand_of(payload[i], opts));
        }
    }
    assert(ac.contains(anchor_line())) by {
        if a.contains(anchor_line()) {
            let i = choose|i: int| 0 <= i < a.len() && a[i] == anchor_line();
            assert(ac[i] == anchor_line());
        } else {
            let i = choose|i: int| 0 <= i < c.len() && c[i] == anchor_line();
            assert(ac[a.len() + i] == anchor_line());
        }
    }
    lemma_apply_patch_replaces(ac, rend, Seq::empty(), id, payload, opts);
    assert(ac + seq![h] + rend + seq![footer_line()] + Seq::<Seq<char>>::empty() =~= r);
    assert(ac + Seq::<Seq<char>>::empty() =~= ac);
    assert(spec_apply(r, id, payload, opts) == Some(ac + seq![h] + rend + seq![footer_line()]));
    assert(ac + seq![h] + rend + seq![footer_line()] =~= r);
}

} // verus!

verus! {

/// A line produced by splitting a text never holds a newline.
proof fn lemma_lines_no_newline(s: Seq<char>)
    ensures
        forall|i: int|
            0 <= i < spec_lines(s).len() ==> !(#[trigger] spec_lines(s)[i]).contains('\n'),
    decreases s.len(),
{
    if s.len() == 0 {
    } else {
        crate::text::lemma_spec_find(s, '\n');
        let k = spec_find(s, '\n');
        if !(0 <= k < s.len()) {
            assert forall|i: int|
                0 <= i < spec_lines(s).len() implies !(#[trigger] spec_lines(s)[i]).contains(
                '\n',
            ) by {
                assert(spec_lines(s)[i] == s);
                if s.contains('\n') {
                    let j = choose|j: int| 0 <= j < s.len() && s[j] == '\n';
                }
            }
        } else {
            lemma_lines_no_newline(s.subrange(k + 1, s.len() as int));
            assert forall|i: int|
                0 <= i < spec_lines(s).len() implies !(#[trigger] spec_lines(s)[i]).contains(
                '\n',
            ) by {
                if i == 0 {
                    let first = strip_cr(s.subrange(0, k));
                    if first.contains('\n') {
                        let j = choose|j: int| 0 <= j < first.len() && first[j] == '\n';
                        assert(first[j] == s.subrange(0, k)[j]);
                        assert(s[j] == '\n');
                    }
                } else {
                    assert(spec_lines(s)[i] == spec_lines(s.subrange(k + 1, s.len() as int))[i
                        - 1]);
                }
            }
        }
    }
}

/// Joining lines can also be unfolded at the front.
proof fn lemma_unlines_first(ls: Seq<Seq<char>>)
    requires
        ls.len() > 0,
    ensures
        spec_unlines(ls) =~= ls[0] + seq!['\n'] + spec_unlines(ls.drop_first()),
    decreases ls.len(),
{
    if ls.len() == 1 {
        assert(ls.drop_last() =~= Seq::<Seq<char>>::empty());
        assert(ls.drop_first() =~= Seq::<Seq<char>>::empty());
    } else {
        let dl = ls.drop_last();
        lemma_unlines_first(dl);
        assert(dl[0] == ls[0]);
        assert(ls.drop_first().drop_last() =~= dl.drop_first());
        assert(ls.drop_first().last() == ls.last());
        assert(spec_unlines(ls.drop_first()) == spec_unlines(dl.drop_first()) + ls.last() + seq![
            '\n',
        ]);
        assert(spec_unlines(ls) =~= ls[0] + seq!['\n'] + spec_unlines(ls.drop_first()));
    }
}

/// Splitting the text that joining produced gives the lines back, when
/// every line is newline-free and none ends in a carriage return.
proof fn lemma_lines_of_unlines(ls: Seq<Seq<char>>)
    requires
        forall|i: int| 0 <= i < ls.len() ==> !(#[trigger] ls[i]).contains('\n'),
        forall|i: int|
            0 <= i < ls.len() ==> ((#[trigger] ls[i]).len() == 0 || ls[i].last() != '\r'),
    ensures
        spec_lines(spec_unlines(ls)) =~= ls,
    decreases ls.len(),
{
    if ls.len() == 0 {
    } else {
        lemma_unlines_first(ls);
        let u = spec_unlines(ls);
        let l0 = ls[0];
        let rest = spec_unlines(ls.drop_first());
        assert(u =~= l0 + seq!['\n'] + rest);
        assert forall|j: int| 0 <= j < l0.len() implies u[j] != '\n' by {
            assert(u[j] == l0[j]);
            if l0[j] == '\n' {
                assert(l0.contains('\n'));
            }
        }
        assert(u[l0.len() as int] == '\n');
        crate::text::lemma_find_unique(u, 0, '\n', l0.len() as int);
        assert(u.subrange(0, u.len() as int) =~= u);
        assert(spec_find(u, '\n') == l0.len());
        assert(u.subrange(0, l0.len() as int) =~= l0);
        assert(strip_cr(l0) == l0);
        assert(u.subrange(l0.len() as int + 1, u.len() as int) =~= rest);
        assert forall|i: int|
            0 <= i < ls.drop_first().len() implies !(#[trigger] ls.drop_first()[i]).contains(
            '\n',
        ) && (ls.drop_first()[i].len() == 0 || ls.drop_first()[i].last() != '\r') by {
            assert(ls.drop_first()[i] == ls[i + 1]);
        }
        lemma_lines_of_unlines(ls.drop_first());
        assert(spec_lines(u) =~= seq![l0] + spec_lines(rest));
        assert(seq![l0] + ls.drop_first() =~= ls);
    }
}

/// The delimiter lines are single lines: free of newlines and not ended
/// by a carriage return, as long as the identity holds no newline.
proof fn lemma_delimiter_chars(id: Seq<char>)
    requires
        !id.contains('\n'),
    ensures
        !anchor_line().contains('\n'),
        anchor_line().len() > 0 && anchor_line().last() != '\r',
        !spec_header(id).contains('\n'),
        spec_header(id).len() > 0 && spec_header(id).last() != '\r',
        !footer_line().contains('\n'),
        footer_line().len() > 0 && footer_line().last() != '\r',
{
    broadcast use vstd::string::group_string_axioms;

    reveal_strlit("__patch:");
    reveal_strlit("# Rx: ");
    reveal_strlit(" {");
    reveal_strlit("# }");
    assert("__patch:"@.len() == 8);
    assert("# Rx: "@.len() == 6);
    assert(" {"@.len() == 2);
    assert("# }"@.len() == 3);
    assert forall|j: int| 0 <= j < 8 implies (#[trigger] anchor_line()[j]) != '\n' by {
        if j == 0 {
            assert(anchor_line()[0] == '_');
        } else if j == 1 {
            assert(anchor_line()[1] == '_');
        } else if j == 2 {
            assert(anchor_line()[2] == 'p');
        } else if j == 3 {
            assert(anchor_line()[3] == 'a');
        } else if j == 4 {
            assert(anchor_line()[4] == 't');
        } else if j == 5 {
            assert(anchor_line()[5] == 'c');
        } else if j == 6 {
            assert(anchor_line()[6] == 'h');
        } else {
            assert(anchor_line()[7] == ':');
        }
    }
    if anchor_line().contains('\n') {
        let j = choose|j: int| 0 <= j < 8 && anchor_line()[j] == '\n';
    }
    assert(anchor_line().last() == ':');
    assert forall|j: int| 0 <= j < 6 implies (#[trigger] "# Rx: "@[j]) != '\n' by {
        if j == 0 {
            assert("# Rx: "@[0] == '#');
        } else if j == 1 {
            assert("# Rx: "@[1] == ' ');
        } else if j == 2 {
            assert("# Rx: "@[2] == 'R');
        } else if j == 3 {
            assert("# Rx: "@[3] == 'x');
        } else if j == 4 {
            assert("# Rx: "@[4] == ':');
        } else {
            assert("# Rx: "@[5] == ' ');
        }
    }
    assert(" {"@[0] == ' ' && " {"@[1] == '{');
    assert forall|j: int| 0 <= j < id.len() implies (#[trigger] id[j]) != '\n' by {
        if id[j] == '\n' {
            assert(id.contains('\n'));
        }
    }
    let h = spec_header(id);
    assert forall|j: int| 0 <= j < h.len() implies (#[trigger] h[j]) != '\n' by {
        if j < 6 {
            assert(h[j] == "# Rx: "@[j]);
        } else if j < 6 + id.len() {
            assert(h[j] == id[j - 6]);
        } else {
            assert(h[j] == " {"@[j - 6 - id.len()]);
        }
    }
    if h.contains('\n') {
        let j = choose|j: int| 0 <= j < h.len() && h[j] == '\n';
    }
    assert(h.last() == '{');
    assert(footer_line()[0] == '#' && footer_line()[1] == ' ' && footer_line()[2] == '}');
    if footer_line().contains('\n') {
        let j = choose|j: int| 0 <= j < 3 && footer_line()[j] == '\n';
        assert(footer_line()[j] != '\n');
    }
    assert(footer_line().last() == '}');
}

/// Applying the same patch twice to a file that holds no block with the
/// same identity gives byte-identical text: the second run returns
/// exactly the first run's output. The hypotheses keep every written
/// line a single clean line: the identity and every expanded payload
/// line hold no newline or carriage return, and no line of the starting
/// text ends in a carriage return.
pub proof fn lemma_apply_patch_text_idempotent(
    t: Seq<char>,
    id: Seq<char>,
    payload: Seq<Seq<char>>,
    opts: Map<Seq<char>, Seq<char>>,
)
    requires
        !spec_lines(t).contains(spec_header(id)),
        forall|i: int|
            0 <= i < spec_lines(t).len() ==> ((#[trigger] spec_lines(t)[i]).len() == 0
                || spec_lines(t)[i].last() != '\r'),
        !id.contains('\n'),
        forall|j: int|
            0 <= j < payload.len() ==> !(#[trigger] expand_of(payload[j], opts)).contains('\n')
                && !expand_of(payload[j], opts).contains('\r'),
    ensures
        spec_apply_text(t, id, payload, opts) matches Some(t1) && spec_apply_text(
            t1,
            id,
            payload,
            opts,
        ) == Some(t1),
{
    broadcast use vstd::string::group_string_axioms;

    reveal_strlit("  ");
    assert("  "@.len() == 2);
    assert("  "@[0] == ' ' && "  "@[1] == ' ');
    let ls = spec_lines(t);
    lemma_apply_patch_idempotent(ls, id, payload, opts);
    lemma_delimiter_chars(id);
    lemma_lines_no_newline(t);
    lemma_block_lines(id);
    let a = spec_anchored(ls);
    let rend = spec_rendered(payload, opts);
    let out = spec_apply(ls, id, payload, opts)->Some_0;
    assert(!a.contains(spec_header(id))) by {
        if a.contains(spec_header(id)) {
            let i = choose|i: int| 0 <= i < a.len() && a[i] == spec_header(id);
            if i < ls.len() {
                assert(ls[i] == spec_header(id));
            }
        }
    }
    lemma_spec_find_line(a, spec_header(id));
    assert(spec_strip_block(a, id) == Some(a));
    assert(out == a + seq![spec_header(id)] + rend + seq![footer_line()]);
    assert forall|i: int|
        0 <= i < out.len() implies !(#[trigger] out[i]).contains('\n') && (out[i].len() == 0
        || out[i].last() != '\r') by {
        if i < a.len() {
            assert(out[i] == a[i]);
            if i < ls.len() {
                assert(a[i] == ls[i]);
            } else {
                assert(a[i] == anchor_line());
            }
        } else if i == a.len() {
            assert(out[i] == spec_header(id));
        } else if i < a.len() + 1 + rend.len() {
            let j = i - a.len() - 1;
            assert(out[i] == rend[j]);
            let e = expand_of(payload[j], opts);
            let line = "  "@ + e;
            assert(rend[j] == line);
            assert forall|c: int| 0 <= c < line.len() implies (#[trigger] line[c]) != '\n' by {
                if c >= 2 {
                    assert(line[c] == e[c - 2]);
                    if e[c - 2] == '\n' {
                        assert(e.contains('\n'));
                    }
                }
            }
            if line.contains('\n') {
                let c = choose|c: int| 0 <= c < line.len() && line[c] == '\n';
            }
            if e.len() > 0 {
                assert(line.last() == e.last());
                if e.last() == '\r' {
                    assert(e.contains('\r'));
                }
            } else {
                assert(line.last() == ' ');
            }
        } else {
            assert(out[i] == footer_line());
        }
    }
    lemma_lines_of_unlines(out);
    let t1 = spec_unlines(out);
    assert(spec_lines(t1) == out);
    assert(spec_apply_text(t, id, payload, opts) == Some(t1));
    assert(spec_apply(spec_lines(t1), id, payload, opts) == Some(out));
    assert(spec_apply_text(t1, id, payload, opts) == Some(t1));
}

} // verus!

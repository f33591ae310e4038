//! The sentence reflow engine: splits one prose unit (a paragraph line or
//! the content of a header or list line) into trimmed sentences.
//!
//! A sentence ends at `.`, `!` or `?` when, after the run of whitespace that
//! follows it (stopping at a line terminator), the text ends or the next
//! character opens a new sentence (an uppercase letter, a digit, `[` or `(`).
use vstd::prelude::*;
use crate::text::{is_ws, is_blank, trim, nws};
use crate::text::{lemma_nws_blank, lemma_nws_push, lemma_nws_concat, lemma_nws_single};
use crate::text::{ws_char, blank_chars, trim_chars};

verus! {

/// Whether a character has the Unicode `Uppercase` property; what
/// `char::is_uppercase` returns.
pub uninterp spec fn upper_like(c: char) -> bool;

/// Whether a character is numeric (Unicode general categories Nd, Nl, No);
/// what `char::is_numeric` returns.
pub uninterp spec fn digit_like(c: char) -> bool;

/// Relies on `char::is_uppercase`: whether the character has the Unicode
/// `Uppercase` property, a function of the character alone.
#[verifier::external_body]
pub(crate) fn char_upper(c: char) -> (r: bool)
    ensures
        r == upper_like(c),
{
    c.is_uppercase()
}

/// Relies on `char::is_numeric`: whether the character is in one of the
/// Unicode numeric general categories, a function of the character alone.
#[verifier::external_body]
pub(crate) fn char_numeric(c: char) -> (r: bool)
    ensures
        r == digit_like(c),
{
    c.is_numeric()
}

/// Sentence-terminal punctuation.
pub open spec fn is_delim(c: char) -> bool {
    c == '.' || c == '!' || c == '?'
}

/// A character that may separate two sentences: whitespace other than a
/// line terminator.
pub open spec fn is_gap(c: char) -> bool {
    is_ws(c) && c != '\n'
}

/// A character that signals the start of a new sentence.
pub open spec fn opens_sentence(c: char) -> bool {
    upper_like(c) || digit_like(c) || c == '[' || c == '('
}

/// End of the run of gap characters starting at `k`.
pub open spec fn gap_end(s: Seq<char>, k: int) -> int
    decreases s.len() - k,
{
    if 0 <= k < s.len() && is_gap(s[k]) {
        gap_end(s, k + 1)
    } else {
        k
    }
}

pub proof fn lemma_gap_end(s: Seq<char>, k: int)
    requires
        0 <= k <= s.len(),
    ensures
        k <= gap_end(s, k) <= s.len(),
        forall|j: int| k <= j < gap_end(s, k) ==> is_gap(s[j]),
        gap_end(s, k) < s.len() ==> !is_gap(s[gap_end(s, k)]),
    decreases s.len() - k,
{
    if k < s.len() && is_gap(s[k]) {
        lemma_gap_end(s, k + 1);
    }
}

/// Whether a sentence boundary lies at position `i` (which holds a
/// delimiter): after the gap that follows, the text ends or a character
/// that opens a new sentence stands.
pub open spec fn sent_bnd(s: Seq<char>, i: int) -> bool {
    let j = gap_end(s, i + 1);
    j >= s.len() || opens_sentence(s[j])
}

/// The sentences of a unit, scanned left to right from position `i` with
/// the pending text `buf`. At a boundary the pending sentence is emitted
/// trimmed; the whitespace of the gap after it is trimmed away either as
/// the tail of the emitted sentence or as the head of the next one. A
/// final blank remainder is dropped.
pub open spec fn scan_sentences(s: Seq<char>, i: int, buf: Seq<char>) -> Seq<Seq<char>>
    decreases s.len() - i,
{
    if !(0 <= i < s.len()) {
        if is_blank(buf) {
            Seq::empty()
        } else {
            seq![trim(buf)]
        }
    } else {
        let buf2 = buf.push(s[i]);
        if is_delim(s[i]) && sent_bnd(s, i) {
            seq![trim(buf2)] + scan_sentences(s, i + 1, Seq::empty())
        } else {
            scan_sentences(s, i + 1, buf2)
        }
    }
}

/// The output lines for one prose unit: a blank unit stands as it is, any
/// other is split into its sentences.
pub open spec fn unit_lines(u: Seq<char>) -> Seq<Seq<char>> {
    if is_blank(u) {
        seq![u]
    } else {
        scan_sentences(u, 0, Seq::empty())
    }
}

proof fn lemma_scan_nonempty_gen(s: Seq<char>, i: int, buf: Seq<char>)
    requires
        0 <= i <= s.len(),
        !(is_blank(buf) && is_blank(s.skip(i))),
    ensures
        scan_sentences(s, i, buf).len() >= 1,
    decreases s.len() - i,
{
    if i == s.len() {
        assert(s.skip(i) =~= Seq::<char>::empty());
    } else {
        if is_delim(s[i]) && sent_bnd(s, i) {
        } else {
            lemma_nws_blank(buf);
            lemma_nws_blank(s.skip(i));
            lemma_nws_blank(buf.push(s[i]));
            lemma_nws_blank(s.skip(i + 1));
            lemma_nws_push(buf, s[i]);
            assert(s.skip(i) =~= seq![s[i]] + s.skip(i + 1));
            lemma_nws_concat(seq![s[i]], s.skip(i + 1));
            lemma_nws_single(s[i]);
            lemma_scan_nonempty_gen(s, i + 1, buf.push(s[i]));
        }
    }
}

/// A non-blank unit always yields at least one sentence.
pub proof fn lemma_scan_nonempty(u: Seq<char>)
    requires
        !is_blank(u),
    ensures
        scan_sentences(u, 0, Seq::empty()).len() >= 1,
        unit_lines(u).len() >= 1,
{
    assert(u.skip(0) =~= u);
    lemma_scan_nonempty_gen(u, 0, Seq::empty());
}

proof fn lemma_blank_step(s: Seq<char>, i: int, buf: Seq<char>)
    requires
        0 <= i < s.len(),
    ensures
        (is_blank(buf.push(s[i])) && is_blank(s.skip(i + 1))) == (is_blank(buf) && is_blank(
            s.skip(i),
        )),
{
    lemma_nws_blank(buf);
    lemma_nws_blank(s.skip(i));
    lemma_nws_blank(buf.push(s[i]));
    lemma_nws_blank(s.skip(i + 1));
    lemma_nws_push(buf, s[i]);
    assert(s.skip(i) =~= seq![s[i]] + s.skip(i + 1));
    lemma_nws_concat(seq![s[i]], s.skip(i + 1));
    lemma_nws_single(s[i]);
}

/// The number of sentence boundaries at or after position `i`.
pub open spec fn boundary_count(s: Seq<char>, i: int) -> int
    decreases s.len() - i,
{
    if 0 <= i < s.len() {
        (if is_delim(s[i]) && sent_bnd(s, i) {
            1int
        } else {
            0
        }) + boundary_count(s, i + 1)
    } else {
        0
    }
}

/// The position of the last sentence boundary at or after `i`, or `-1`.
pub open spec fn last_boundary(s: Seq<char>, i: int) -> int
    decreases s.len() - i,
{
    if 0 <= i < s.len() {
        let r = last_boundary(s, i + 1);
        if r >= 0 {
            r
        } else if is_delim(s[i]) && sent_bnd(s, i) {
            i
        } else {
            -1
        }
    } else {
        -1
    }
}

pub proof fn lemma_last_boundary_bounds(s: Seq<char>, i: int)
    requires
        0 <= i <= s.len(),
    ensures
        last_boundary(s, i) == -1 || i <= last_boundary(s, i) < s.len(),
        (last_boundary(s, i) == -1) <==> (boundary_count(s, i) == 0),
        boundary_count(s, i) >= 0,
    decreases s.len() - i,
{
    if i < s.len() {
        lemma_last_boundary_bounds(s, i + 1);
    }
}

proof fn lemma_scan_count(s: Seq<char>, i: int, buf: Seq<char>)
    requires
        0 <= i <= s.len(),
    ensures
        scan_sentences(s, i, buf).len() == boundary_count(s, i) + (if last_boundary(s, i) >= 0 {
            if is_blank(s.skip(last_boundary(s, i) + 1)) {
                0int
            } else {
                1int
            }
        } else {
            if is_blank(buf) && is_blank(s.skip(i)) {
                0int
            } else {
                1int
            }
        }),
    decreases s.len() - i,
{
    lemma_last_boundary_bounds(s, i);
    if i == s.len() {
        assert(s.skip(i) =~= Seq::<char>::empty());
    } else {
        if is_delim(s[i]) && sent_bnd(s, i) {
            lemma_scan_count(s, i + 1, Seq::empty());
            if last_boundary(s, i + 1) == -1 {
                assert(is_blank(Seq::<char>::empty()));
            }
        } else {
            lemma_scan_count(s, i + 1, buf.push(s[i]));
            if last_boundary(s, i + 1) == -1 {
                lemma_blank_step(s, i, buf);
            }
        }
    }
}

/// How many output lines the reflow of a non-blank unit yields: one per
/// sentence boundary, plus one for the remainder after the last boundary
/// unless that remainder is blank; a unit with no boundary at all yields
/// exactly one line.
pub proof fn lemma_sentence_count(u: Seq<char>)
    requires
        !is_blank(u),
    ensures
        unit_lines(u).len() == boundary_count(u, 0) + (if last_boundary(u, 0) >= 0 && is_blank(
            u.skip(last_boundary(u, 0) + 1),
        ) {
            0int
        } else {
            1int
        }),
        boundary_count(u, 0) == 0 ==> unit_lines(u).len() == 1,
{
    lemma_scan_count(u, 0, Seq::empty());
    lemma_last_boundary_bounds(u, 0);
    assert(u.skip(0) =~= u);
}

proof fn lemma_scan_concat(s: Seq<char>, i: int, buf: Seq<char>)
    requires
        0 <= i <= s.len(),
    ensures
        nws(scan_sentences(s, i, buf).flatten()) == nws(buf) + nws(s.skip(i)),
    decreases s.len() - i,
{
    if i == s.len() {
        assert(s.skip(i) =~= Seq::<char>::empty());
        assert(nws(Seq::<char>::empty()) == Seq::<char>::empty()) by {
            reveal(Seq::filter);
        }
        if is_blank(buf) {
            lemma_nws_blank(buf);
            assert(scan_sentences(s, i, buf).flatten() == Seq::<char>::empty());
            assert(nws(buf) + nws(s.skip(i)) =~= Seq::<char>::empty());
        } else {
            let fl = scan_sentences(s, i, buf).flatten();
            assert(seq![trim(buf)].drop_first() =~= Seq::<Seq<char>>::empty());
            assert(fl == trim(buf) + Seq::<Seq<char>>::empty().flatten());
            assert(fl =~= trim(buf));
            crate::text::lemma_nws_trim(buf);
            assert(nws(buf) + nws(s.skip(i)) =~= nws(buf));
        }
    } else {
        assert(nws(Seq::<char>::empty()) == Seq::<char>::empty()) by {
            reveal(Seq::filter);
        }
        let buf2 = buf.push(s[i]);
        lemma_nws_push(buf, s[i]);
        lemma_nws_single(s[i]);
        assert(s.skip(i) =~= seq![s[i]] + s.skip(i + 1));
        lemma_nws_concat(seq![s[i]], s.skip(i + 1));
        if is_delim(s[i]) && sent_bnd(s, i) {
            lemma_scan_concat(s, i + 1, Seq::empty());
            let rest = scan_sentences(s, i + 1, Seq::empty());
            let whole = seq![trim(buf2)] + rest;
            assert(whole.first() == trim(buf2));
            assert(whole.drop_first() =~= rest);
            assert(whole.flatten() == trim(buf2) + rest.flatten());
            lemma_nws_concat(trim(buf2), rest.flatten());
            crate::text::lemma_nws_trim(buf2);
            assert(!is_ws(s[i]));
            assert(nws(scan_sentences(s, i, buf).flatten()) =~= nws(buf) + nws(s.skip(i)));
        } else {
            lemma_scan_concat(s, i + 1, buf2);
            assert(nws(scan_sentences(s, i, buf).flatten()) =~= nws(buf) + nws(s.skip(i)));
        }
    }
}

/// Concatenating the reflowed lines of a unit keeps exactly the unit's
/// non-whitespace characters, in order: only whitespace is trimmed or
/// dropped at sentence boundaries.
pub proof fn lemma_concat_roundtrip(u: Seq<char>)
    ensures
        nws(unit_lines(u).flatten()) == nws(u),
{
    if is_blank(u) {
        let fl = unit_lines(u).flatten();
        assert(seq![u].drop_first() =~= Seq::<Seq<char>>::empty());
        assert(fl == u + Seq::<Seq<char>>::empty().flatten());
        assert(fl =~= u);
    } else {
        lemma_scan_concat(u, 0, Seq::empty());
        assert(nws(Seq::<char>::empty()) == Seq::<char>::empty()) by {
            reveal(Seq::filter);
        }
        assert(u.skip(0) =~= u);
        assert(nws(Seq::<char>::empty()) + nws(u) =~= nws(u));
    }
}

proof fn lemma_scan_fixed(u: Seq<char>, i: int)
    requires
        0 <= i <= u.len(),
        u.len() > 0,
        trim(u) == u,
        forall|k: int|
            0 <= k < u.len() && is_delim(u[k]) && sent_bnd(u, k) ==> gap_end(u, k + 1) == u.len(),
    ensures
        scan_sentences(u, i, u.take(i)) == seq![u],
    decreases u.len() - i,
{
    crate::text::lemma_trim_blank(u);
    if i == u.len() {
        assert(u.take(i) =~= u);
    } else {
        let buf2 = u.take(i).push(u[i]);
        assert(buf2 =~= u.take(i + 1));
        if is_delim(u[i]) && sent_bnd(u, i) {
            assert(gap_end(u, i + 1) == u.len());
            if i + 1 < u.len() {
                lemma_gap_end(u, i + 1);
                assert(is_gap(u[u.len() - 1]));
                crate::text::lemma_trim_shape(u);
                let a = crate::text::first_nws(u, 0);
                let b = crate::text::last_nws(u, u.len() - 1);
                assert(u.subrange(a, b + 1).len() == u.len());
                assert(b == u.len() - 1);
                assert(false);
            }
            assert(buf2 =~= u);
            assert(scan_sentences(u, i + 1, Seq::empty()) == Seq::<Seq<char>>::empty());
            assert(scan_sentences(u, i, u.take(i)) =~= seq![u]);
        } else {
            lemma_scan_fixed(u, i + 1);
        }
    }
}

/// A unit that is already a single trimmed sentence reflows to itself:
/// when every boundary its delimiters form lies at the very end of the
/// unit, the engine emits the unit unchanged as its only line.
pub proof fn lemma_reflow_fixed_unit(u: Seq<char>)
    requires
        u.len() > 0,
        trim(u) == u,
        forall|k: int|
            0 <= k < u.len() && is_delim(u[k]) && sent_bnd(u, k) ==> gap_end(u, k + 1) == u.len(),
    ensures
        unit_lines(u) == seq![u],
{
    crate::text::lemma_trim_blank(u);
    assert(u.take(0) =~= Seq::<char>::empty());
    lemma_scan_fixed(u, 0);
}

/// The views of a vector of character vectors.
pub open spec fn seq_views(vs: Seq<Vec<char>>) -> Seq<Seq<char>> {
    vs.map_values(|v: Vec<char>| v@)
}

pub proof fn lemma_seq_views_push(vs: Seq<Vec<char>>, v: Vec<char>)
    ensures
        seq_views(vs.push(v)) == seq_views(vs).push(v@),
{
    assert(seq_views(vs.push(v)) =~= seq_views(vs).push(v@));
}

fn gap_end_at(v: &Vec<char>, start: usize) -> (j: usize)
    requires
        start <= v.len(),
    ensures
        j as int == gap_end(v@, start as int),
        start <= j <= v.len(),
{
    let mut j = start;
    while j < v.len() && ws_char(v[j]) && v[j] != '\n'
        invariant
            start <= j <= v.len(),
            gap_end(v@, start as int) == gap_end(v@, j as int),
        decreases v.len() - j,
    {
        j = j + 1;
    }
    j
}

fn opens_sentence_char(c: char) -> (r: bool)
    ensures
        r == opens_sentence(c),
{
    char_upper(c) || char_numeric(c) || c == '[' || c == '('
}

/// Split one prose unit into its output lines: the unit itself if blank,
/// else one trimmed sentence per line.
pub fn split_sentences(u: &Vec<char>) -> (out: Vec<Vec<char>>)
    ensures
        seq_views(out@) == unit_lines(u@),
{
    let mut out: Vec<Vec<char>> = Vec::new();
    if blank_chars(u) {
        let c = crate::text::copy_range(u, 0, u.len());
        assert(c@ =~= u@);
        out.push(c);
        proof {
            lemma_seq_views_push(Seq::empty(), c);
            assert(seq_views(out@) =~= unit_lines(u@));
        }
        return out;
    }
    let mut buf: Vec<char> = Vec::new();
    let mut i: usize = 0;
    assert(seq_views(out@) + scan_sentences(u@, 0, Seq::empty()) =~= unit_lines(u@));
    while i < u.len()
        invariant
            i <= u.len(),
            unit_lines(u@) == seq_views(out@) + scan_sentences(u@, i as int, buf@),
            !is_blank(u@),
        decreases u.len() - i,
    {
        let ghost buf0 = buf@;
        let ghost out0 = out@;
        let c = u[i];
        buf.push(c);
        if c == '.' || c == '!' || c == '?' {
            let j = gap_end_at(u, i + 1);
            let boundary = j >= u.len() || opens_sentence_char(u[j]);
            assert(boundary == sent_bnd(u@, i as int));
            if boundary {
                let t = trim_chars(&buf);
                out.push(t);
                buf = Vec::new();
                proof {
                    lemma_seq_views_push(out0, t);
                    assert(scan_sentences(u@, i as int, buf0) == seq![trim(buf0.push(u@[i as int]))]
                        + scan_sentences(u@, i as int + 1, Seq::empty()));
                    assert(seq_views(out@) + scan_sentences(u@, i as int + 1, buf@)
                        =~= seq_views(out0) + scan_sentences(u@, i as int, buf0));
                }
            }
        }
        i = i + 1;
    }
    if !blank_chars(&buf) {
        let ghost out0 = out@;
        let t = trim_chars(&buf);
        out.push(t);
        proof {
            lemma_seq_views_push(out0, t);
            assert(seq_views(out@) =~= seq_views(out0) + seq![t@]);
        }
    }
    assert(seq_views(out@) =~= unit_lines(u@));
    out
}

} // verus!

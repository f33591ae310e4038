//! The structural line classifier: walks a document line by line, carries
//! the fenced-code-block state, and routes each line to verbatim emission
//! or to the sentence reflow engine.
use vstd::prelude::*;
use crate::text::{is_blank, first_nws, trim};
use crate::text::{first_nws_at, blank_chars, copy_range, append_chars};
use crate::reflow::{scan_sentences, unit_lines, seq_views, split_sentences, lemma_seq_views_push};
use crate::marker::{is_list_marker_at, marker_split, marker_split_at, list_marker_at};

verus! {

/// The token that opened a fenced code block.
#[derive(Clone, Copy, PartialEq, Eq, Structural)]
pub enum FenceKind {
    Backtick,
    Tilde,
}

/// The state carried across lines: outside any fenced code block, or
/// inside one opened by the given token.
#[derive(Clone, Copy, PartialEq, Eq, Structural)]
pub enum ScanState {
    Normal,
    InFence(FenceKind),
}

/// The structural category of one line, decided in priority order under
/// the current state.
#[derive(Clone, Copy, PartialEq, Eq, Structural)]
pub enum LineCategory {
    FenceOpen,
    FenceClose,
    InsideCodeBlock,
    IndentedCode,
    TableRow,
    BlankLine,
    Header,
    ListItem,
    QuoteOrRule,
    Paragraph,
}

/// The fence token a line starts with (after indentation), if any.
pub open spec fn fence_tok(s: Seq<char>) -> Option<FenceKind> {
    let a = first_nws(s, 0);
    if a + 2 < s.len() && s[a] == '`' && s[a + 1] == '`' && s[a + 2] == '`' {
        Option::Some(FenceKind::Backtick)
    } else if a + 2 < s.len() && s[a] == '~' && s[a + 1] == '~' && s[a + 2] == '~' {
        Option::Some(FenceKind::Tilde)
    } else {
        Option::None
    }
}

/// Indented code: four leading spaces or a leading tab.
pub open spec fn is_indented(s: Seq<char>) -> bool {
    (s.len() >= 4 && s[0] == ' ' && s[1] == ' ' && s[2] == ' ' && s[3] == ' ') || (s.len() >= 1
        && s[0] == '\t')
}

pub open spec fn has_pipe(s: Seq<char>) -> bool {
    exists|k: int| 0 <= k < s.len() && s[k] == '|'
}

pub open spec fn category(st: ScanState, s: Seq<char>) -> LineCategory {
    match fence_tok(s) {
        Option::Some(k) => match st {
            ScanState::Normal => LineCategory::FenceOpen,
            ScanState::InFence(f) => if k == f {
                LineCategory::FenceClose
            } else {
                LineCategory::InsideCodeBlock
            },
        },
        Option::None => match st {
            ScanState::InFence(_) => LineCategory::InsideCodeBlock,
            ScanState::Normal => if is_indented(s) {
                LineCategory::IndentedCode
            } else if !is_blank(s) && has_pipe(s) {
                LineCategory::TableRow
            } else if is_blank(s) {
                LineCategory::BlankLine
            } else {
                let ind = first_nws(s, 0);
                if s[ind] == '#' {
                    LineCategory::Header
                } else if is_list_marker_at(s, ind) {
                    LineCategory::ListItem
                } else if s[ind] == '*' || s[ind] == '-' || s[ind] == '+' || s[ind] == '>' || (ind
                    + 2 < s.len() && s[ind] == '_' && s[ind + 1] == '_' && s[ind + 2] == '_') {
                    LineCategory::QuoteOrRule
                } else {
                    LineCategory::Paragraph
                }
            },
        },
    }
}

/// The state after a line: a fence line toggles in or out of a code
/// block when its token matches; every other line keeps the state.
pub open spec fn line_next(st: ScanState, s: Seq<char>) -> ScanState {
    match fence_tok(s) {
        Option::Some(k) => match st {
            ScanState::Normal => ScanState::InFence(k),
            ScanState::InFence(f) => if k == f {
                ScanState::Normal
            } else {
                st
            },
        },
        Option::None => st,
    }
}

/// `n` spaces.
pub open spec fn pad(n: int) -> Seq<char> {
    Seq::new(n as nat, |i: int| ' ')
}

/// The sentences after the first, each aligned under the first by as many
/// spaces as the prefix holds characters.
pub open spec fn padded_tail(ss: Seq<Seq<char>>, n: int) -> Seq<Seq<char>> {
    ss.subrange(1, ss.len() as int).map_values(|x: Seq<char>| pad(n) + x)
}

/// The output lines of a header or list line: the prefix followed by the
/// first sentence of the content, then each further sentence on its own
/// aligned line. A line whose content is blank stands as it is.
pub open spec fn marker_lines(s: Seq<char>) -> Seq<Seq<char>> {
    let sp = marker_split(s);
    let p = s.take(sp);
    let c = s.skip(sp);
    if is_blank(c) {
        seq![s]
    } else {
        let ss = scan_sentences(c, 0, Seq::empty());
        seq![p + ss.first()] + padded_tail(ss, p.len() as int)
    }
}

/// The output lines for one input line under the current state.
pub open spec fn line_out(st: ScanState, s: Seq<char>) -> Seq<Seq<char>> {
    match category(st, s) {
        LineCategory::Header | LineCategory::ListItem => marker_lines(s),
        LineCategory::Paragraph => unit_lines(s),
        _ => seq![s],
    }
}

/// All output lines of the document from line `k` on, under state `st`.
pub open spec fn doc_lines(lines: Seq<Seq<char>>, k: int, st: ScanState) -> Seq<Seq<char>>
    decreases lines.len() - k,
{
    if 0 <= k < lines.len() {
        line_out(st, lines[k]) + doc_lines(lines, k + 1, line_next(st, lines[k]))
    } else {
        Seq::empty()
    }
}

/// The state after the whole document.
pub open spec fn end_state(lines: Seq<Seq<char>>, k: int, st: ScanState) -> ScanState
    decreases lines.len() - k,
{
    if 0 <= k < lines.len() {
        end_state(lines, k + 1, line_next(st, lines[k]))
    } else {
        st
    }
}

/// One trailing carriage return removed, as before a line feed.
pub open spec fn strip_cr(s: Seq<char>) -> Seq<char> {
    if s.len() > 0 && s.last() == '\r' {
        s.drop_last()
    } else {
        s
    }
}

/// The lines of a text: split at each line feed, with a carriage return
/// before the line feed dropped; a final segment without a terminator is
/// kept unless empty.
pub open spec fn split_lines(text: Seq<char>, i: int, cur: Seq<char>) -> Seq<Seq<char>>
    decreases text.len() - i,
{
    if !(0 <= i < text.len()) {
        if cur.len() == 0 {
            Seq::empty()
        } else {
            seq![cur]
        }
    } else if text[i] == '\n' {
        seq![strip_cr(cur)] + split_lines(text, i + 1, Seq::empty())
    } else {
        split_lines(text, i + 1, cur.push(text[i]))
    }
}

/// Each line followed by a line feed, concatenated.
pub open spec fn join_lines(ls: Seq<Seq<char>>, k: int) -> Seq<char>
    decreases ls.len() - k,
{
    if 0 <= k < ls.len() {
        ls[k] + seq!['\n'] + join_lines(ls, k + 1)
    } else {
        Seq::empty()
    }
}

/// The whole transform: split into lines, classify and reflow each under
/// the carried state, and emit every output line terminated by a line
/// feed.
pub open spec fn md_format(text: Seq<char>) -> Seq<char> {
    join_lines(doc_lines(split_lines(text, 0, Seq::empty()), 0, ScanState::Normal), 0)
}

fn fence_tok_at(v: &Vec<char>) -> (r: Option<FenceKind>)
    ensures
        r == fence_tok(v@),
{
    let a = first_nws_at(v, 0);
    if a < v.len() && a + 1 < v.len() && a + 2 < v.len() {
        if v[a] == '`' && v[a + 1] == '`' && v[a + 2] == '`' {
            return Option::Some(FenceKind::Backtick);
        }
        if v[a] == '~' && v[a + 1] == '~' && v[a + 2] == '~' {
            return Option::Some(FenceKind::Tilde);
        }
    }
    Option::None
}

fn indented_chars(v: &Vec<char>) -> (r: bool)
    ensures
        r == is_indented(v@),
{
    (v.len() >= 4 && v[0] == ' ' && v[1] == ' ' && v[2] == ' ' && v[3] == ' ') || (v.len() >= 1
        && v[0] == '\t')
}

fn pipe_chars(v: &Vec<char>) -> (r: bool)
    ensures
        r == has_pipe(v@),
{
    let mut k: usize = 0;
    while k < v.len()
        invariant
            k <= v.len(),
            forall|j: int| 0 <= j < k ==> v@[j] != '|',
        decreases v.len() - k,
    {
        if v[k] == '|' {
            return true;
        }
        k = k + 1;
    }
    false
}

fn pad_chars(n: usize) -> (r: Vec<char>)
    ensures
        r@ == pad(n as int),
{
    let mut r: Vec<char> = Vec::new();
    let mut k: usize = 0;
    while k < n
        invariant
            k <= n,
            r@ == pad(k as int),
        decreases n - k,
    {
        r.push(' ');
        assert(r@ =~= pad(k + 1 as int));
        k = k + 1;
    }
    r
}

/// The reflow of a header or list line: prefix plus first sentence, then
/// each further sentence aligned under the prefix.
fn marker_out(line: &Vec<char>) -> (out: Vec<Vec<char>>)
    ensures
        seq_views(out@) == marker_lines(line@),
{
    let sp = marker_split_at(line);
    let content = copy_range(line, sp, line.len());
    assert(content@ =~= line@.skip(sp as int));
    let mut out: Vec<Vec<char>> = Vec::new();
    if blank_chars(&content) {
        let whole = copy_range(line, 0, line.len());
        assert(whole@ =~= line@);
        out.push(whole);
        proof {
            lemma_seq_views_push(Seq::empty(), whole);
            assert(seq_views(out@) =~= marker_lines(line@));
        }
        return out;
    }
    let ss = split_sentences(&content);
    proof {
        crate::reflow::lemma_scan_nonempty(content@);
        assert(seq_views(ss@).len() >= 1);
    }
    let ghost ssv = seq_views(ss@);
    let ghost n = sp as int;
    let mut first = copy_range(line, 0, sp);
    assert(first@ =~= line@.take(sp as int));
    append_chars(&mut first, &ss[0]);
    assert(first@ == line@.take(sp as int) + ssv[0]);
    let ghost out_spec = marker_lines(line@);
    out.push(first);
    let mut k: usize = 1;
    while k < ss.len()
        invariant
            1 <= k <= ss.len(),
            ssv == seq_views(ss@),
            n == sp as int,
            sp <= line.len(),
            ssv.len() >= 1,
            seq_views(out@).len() == k,
            seq_views(out@)[0] == line@.take(sp as int) + ssv[0],
            forall|j: int| 1 <= j < k ==> seq_views(out@)[j] == pad(n) + ssv[j],
        decreases ss.len() - k,
    {
        let ghost out0 = out@;
        let mut lk = pad_chars(sp);
        append_chars(&mut lk, &ss[k]);
        assert(lk@ == pad(n) + ssv[k as int]);
        out.push(lk);
        proof {
            lemma_seq_views_push(out0, lk);
        }
        k = k + 1;
    }
    proof {
        assert(seq_views(out@) =~= marker_lines(line@)) by {
            assert(!is_blank(line@.skip(sp as int)));
            let ss2 = scan_sentences(line@.skip(sp as int), 0, Seq::empty());
            assert(ss2 == ssv);
            assert(marker_lines(line@).len() == 1 + padded_tail(ss2, n).len());
            assert(forall|j: int| 1 <= j < ssv.len() ==> marker_lines(line@)[j] == pad(n) + ssv[j])
                by {
                assert(forall|j: int|
                    0 <= j < padded_tail(ss2, n).len() ==> #[trigger] padded_tail(ss2, n)[j] == pad(
                        n,
                    ) + ss2[j + 1]);
            }
        }
    }
    out
}

/// Classify one line under the current state and give its output lines
/// and the next state.
pub fn handle_line(st: ScanState, line: &Vec<char>) -> (r: (Vec<Vec<char>>, ScanState))
    ensures
        seq_views(r.0@) == line_out(st, line@),
        r.1 == line_next(st, line@),
{
    let ft = fence_tok_at(line);
    let next = match ft {
        Option::Some(k) => match st {
            ScanState::Normal => ScanState::InFence(k),
            ScanState::InFence(f) => if k == f {
                ScanState::Normal
            } else {
                st
            },
        },
        Option::None => st,
    };
    let in_fence = matches!(st, ScanState::InFence(_));
    let verbatim: bool = if ft.is_some() || in_fence || indented_chars(line) {
        true
    } else if blank_chars(line) {
        true
    } else if pipe_chars(line) {
        true
    } else {
        let ind = first_nws_at(line, 0);
        assert(ind < line.len());
        if line[ind] == '#' || list_marker_at(line, ind) {
            let out = marker_out(line);
            return (out, next);
        }
        line[ind] == '*' || line[ind] == '-' || line[ind] == '+' || line[ind] == '>' || (ind
            < line.len() && ind + 1 < line.len() && ind + 2 < line.len() && line[ind] == '_'
            && line[ind + 1] == '_' && line[ind + 2] == '_')
    };
    if verbatim {
        let whole = copy_range(line, 0, line.len());
        assert(whole@ =~= line@);
        let mut out: Vec<Vec<char>> = Vec::new();
        out.push(whole);
        proof {
            lemma_seq_views_push(Seq::empty(), whole);
            assert(seq_views(out@) =~= seq![line@]);
        }
        (out, next)
    } else {
        let out = split_sentences(line);
        (out, next)
    }
}

/// Verbatim preservation: a line in a fence-delimiter, inside-code,
/// indented-code, table-row or blank category is emitted exactly as it
/// stands, character for character.
pub proof fn lemma_verbatim_categories(st: ScanState, s: Seq<char>)
    requires
        matches!(
            category(st, s),
            LineCategory::FenceOpen
                | LineCategory::FenceClose
                | LineCategory::InsideCodeBlock
                | LineCategory::IndentedCode
                | LineCategory::TableRow
                | LineCategory::BlankLine
        ),
    ensures
        line_out(st, s) == seq![s],
{
}

/// How many lines from `k` on open a fence under the threaded state.
pub open spec fn opens_count(lines: Seq<Seq<char>>, k: int, st: ScanState) -> int
    decreases lines.len() - k,
{
    if 0 <= k < lines.len() {
        (if category(st, lines[k]) == LineCategory::FenceOpen {
            1int
        } else {
            0
        }) + opens_count(lines, k + 1, line_next(st, lines[k]))
    } else {
        0
    }
}

/// How many lines from `k` on close a fence under the threaded state.
pub open spec fn closes_count(lines: Seq<Seq<char>>, k: int, st: ScanState) -> int
    decreases lines.len() - k,
{
    if 0 <= k < lines.len() {
        (if category(st, lines[k]) == LineCategory::FenceClose {
            1int
        } else {
            0
        }) + closes_count(lines, k + 1, line_next(st, lines[k]))
    } else {
        0
    }
}

/// Conservation of fence openings: across any run of lines, the openings
/// and closings balance against the states at its two ends.
pub proof fn lemma_fence_balance(lines: Seq<Seq<char>>, k: int, st: ScanState)
    requires
        0 <= k <= lines.len(),
    ensures
        opens_count(lines, k, st) + (if st is InFence {
            1int
        } else {
            0
        }) == closes_count(lines, k, st) + (if end_state(lines, k, st) is InFence {
            1int
        } else {
            0
        }),
    decreases lines.len() - k,
{
    if k < lines.len() {
        lemma_fence_balance(lines, k + 1, line_next(st, lines[k]));
    }
}

/// The fence-toggle property over a whole document: a matching closing
/// fence never outnumbers the openings, they differ by at most one, and
/// the scan ends inside a fence exactly when the counts differ.
pub proof fn lemma_fence_toggle(lines: Seq<Seq<char>>)
    ensures
        closes_count(lines, 0, ScanState::Normal) <= opens_count(lines, 0, ScanState::Normal),
        opens_count(lines, 0, ScanState::Normal) - closes_count(lines, 0, ScanState::Normal) <= 1,
        (end_state(lines, 0, ScanState::Normal) is InFence) <==> (opens_count(
            lines,
            0,
            ScanState::Normal,
        ) != closes_count(lines, 0, ScanState::Normal)),
{
    lemma_fence_balance(lines, 0, ScanState::Normal);
}

/// A line whose output is exactly itself.
pub open spec fn line_fixed(st: ScanState, s: Seq<char>) -> bool {
    line_out(st, s) == seq![s]
}

/// Every line from `k` on reflows to itself under the threaded states.
pub open spec fn all_fixed(lines: Seq<Seq<char>>, k: int, st: ScanState) -> bool
    decreases lines.len() - k,
{
    if 0 <= k < lines.len() {
        line_fixed(st, lines[k]) && all_fixed(lines, k + 1, line_next(st, lines[k]))
    } else {
        true
    }
}

proof fn lemma_fixed_doc(lines: Seq<Seq<char>>, k: int, st: ScanState)
    requires
        0 <= k <= lines.len(),
        all_fixed(lines, k, st),
    ensures
        doc_lines(lines, k, st) == lines.skip(k),
    decreases lines.len() - k,
{
    if k < lines.len() {
        lemma_fixed_doc(lines, k + 1, line_next(st, lines[k]));
        assert(doc_lines(lines, k, st) =~= lines.skip(k));
    } else {
        assert(lines.skip(k) =~= Seq::<Seq<char>>::empty());
    }
}

/// Idempotence by structure: a document each of whose lines already
/// reflows to itself is reproduced unchanged, line for line; the whole
/// transform then only normalizes the trailing line terminator.
pub proof fn lemma_idempotent_document(text: Seq<char>)
    requires
        all_fixed(split_lines(text, 0, Seq::empty()), 0, ScanState::Normal),
    ensures
        md_format(text) == join_lines(split_lines(text, 0, Seq::empty()), 0),
{
    let lines = split_lines(text, 0, Seq::empty());
    lemma_fixed_doc(lines, 0, ScanState::Normal);
    assert(lines.skip(0) =~= lines);
}

/// A paragraph line that is already one trimmed sentence is fixed: the
/// classifier hands it whole to the reflow engine, which returns it.
pub proof fn lemma_paragraph_line_fixed(st: ScanState, s: Seq<char>)
    requires
        category(st, s) == LineCategory::Paragraph,
        trim(s) == s,
        forall|k: int|
            0 <= k < s.len() && crate::reflow::is_delim(s[k]) && crate::reflow::sent_bnd(s, k)
                ==> crate::reflow::gap_end(s, k + 1) == s.len(),
    ensures
        line_fixed(st, s),
{
    assert(!is_blank(s));
    assert(s.len() > 0);
    crate::reflow::lemma_reflow_fixed_unit(s);
}

/// A header or list line whose content is already one trimmed sentence is
/// fixed: the prefix is kept and the content comes back unchanged.
pub proof fn lemma_marker_line_fixed(st: ScanState, s: Seq<char>)
    requires
        matches!(category(st, s), LineCategory::Header | LineCategory::ListItem),
        trim(s.skip(marker_split(s))) == s.skip(marker_split(s)),
        s.skip(marker_split(s)).len() > 0,
        forall|k: int|
            0 <= k < s.skip(marker_split(s)).len() && crate::reflow::is_delim(
                s.skip(marker_split(s))[k],
            ) && #[trigger] crate::reflow::sent_bnd(s.skip(marker_split(s)), k)
                ==> crate::reflow::gap_end(s.skip(marker_split(s)), k + 1) == s.skip(
                marker_split(s),
            ).len(),
    ensures
        line_fixed(st, s),
{
    let sp = marker_split(s);
    let p = s.take(sp);
    let c = s.skip(sp);
    crate::text::lemma_trim_blank(c);
    crate::reflow::lemma_reflow_fixed_unit(c);
    let ss = scan_sentences(c, 0, Seq::empty());
    assert(ss == seq![c]);
    assert(padded_tail(ss, p.len() as int) =~= Seq::<Seq<char>>::empty());
    assert(p + c =~= s) by {
        crate::marker::lemma_marker_split_bounds(s);
    }
    assert(marker_lines(s) =~= seq![s]);
}

/// Split a document into its lines.
fn split_all(text: &Vec<char>) -> (out: Vec<Vec<char>>)
    ensures
        seq_views(out@) == split_lines(text@, 0, Seq::empty()),
{
    let mut out: Vec<Vec<char>> = Vec::new();
    let mut buf: Vec<char> = Vec::new();
    let mut i: usize = 0;
    assert(seq_views(out@) + split_lines(text@, 0, Seq::empty()) =~= split_lines(
        text@,
        0,
        Seq::empty(),
    ));
    while i < text.len()
        invariant
            i <= text.len(),
            split_lines(text@, 0, Seq::empty()) == seq_views(out@) + split_lines(
                text@,
                i as int,
                buf@,
            ),
        decreases text.len() - i,
    {
        let ghost buf0 = buf@;
        let ghost out0 = out@;
        let c = text[i];
        if c == '\n' {
            let mut done = buf;
            buf = Vec::new();
            if done.len() > 0 && done[done.len() - 1] == '\r' {
                done.pop();
            }
            assert(done@ == strip_cr(buf0));
            out.push(done);
            proof {
                lemma_seq_views_push(out0, done);
                assert(seq_views(out@) + split_lines(text@, i + 1, buf@) =~= seq_views(out0)
                    + split_lines(text@, i as int, buf0));
            }
        } else {
            buf.push(c);
        }
        i = i + 1;
    }
    if buf.len() > 0 {
        let ghost out0 = out@;
        let ghost buf0 = buf@;
        out.push(buf);
        proof {
            lemma_seq_views_push(out0, out@[out@.len() - 1]);
            assert(seq_views(out@) =~= seq_views(out0) + seq![buf0]);
        }
    }
    assert(seq_views(out@) =~= split_lines(text@, 0, Seq::empty()));
    out
}

/// Join output lines, each terminated by a line feed.
pub fn join_out(ls: &Vec<Vec<char>>) -> (r: Vec<char>)
    ensures
        r@ == join_lines(seq_views(ls@), 0),
{
    let mut r: Vec<char> = Vec::new();
    let mut k: usize = 0;
    while k < ls.len()
        invariant
            k <= ls.len(),
            join_lines(seq_views(ls@), 0) == r@ + join_lines(seq_views(ls@), k as int),
        decreases ls.len() - k,
    {
        let ghost r0 = r@;
        append_chars(&mut r, &ls[k]);
        r.push('\n');
        proof {
            assert(seq_views(ls@)[k as int] == ls@[k as int]@);
            assert(r@ =~= r0 + (seq_views(ls@)[k as int] + seq!['\n']));
            assert(r0 + (seq_views(ls@)[k as int] + seq!['\n']) + join_lines(
                seq_views(ls@),
                k + 1,
            ) =~= r0 + join_lines(seq_views(ls@), k as int));
        }
        k = k + 1;
    }
    assert(r@ =~= join_lines(seq_views(ls@), 0));
    r
}

/// Append copies of all lines of `more` to `acc`.
fn push_all(acc: &mut Vec<Vec<char>>, more: &Vec<Vec<char>>)
    ensures
        seq_views(final(acc)@) == seq_views(old(acc)@) + seq_views(more@),
{
    let mut k: usize = 0;
    while k < more.len()
        invariant
            k <= more.len(),
            seq_views(acc@) == seq_views(old(acc)@) + seq_views(more@).subrange(0, k as int),
        decreases more.len() - k,
    {
        let ghost acc0 = acc@;
        let copy = copy_range(&more[k], 0, more[k].len());
        assert(copy@ =~= more@[k as int]@);
        acc.push(copy);
        proof {
            lemma_seq_views_push(acc0, copy);
            assert(seq_views(acc@) =~= seq_views(old(acc)@) + seq_views(more@).subrange(
                0,
                k + 1 as int,
            ));
        }
        k = k + 1;
    }
    assert(seq_views(acc@) =~= seq_views(old(acc)@) + seq_views(more@));
}

/// The whole transform over a character vector.
pub fn format_chars(text: &Vec<char>) -> (out: Vec<char>)
    ensures
        out@ == md_format(text@),
{
    let lines = split_all(text);
    let ghost lv = seq_views(lines@);
    let mut acc: Vec<Vec<char>> = Vec::new();
    let mut st = ScanState::Normal;
    let mut i: usize = 0;
    assert(seq_views(acc@) + doc_lines(lv, 0, ScanState::Normal) =~= doc_lines(
        lv,
        0,
        ScanState::Normal,
    ));
    while i < lines.len()
        invariant
            i <= lines.len(),
            lv == seq_views(lines@),
            doc_lines(lv, 0, ScanState::Normal) == seq_views(acc@) + doc_lines(lv, i as int, st),
        decreases lines.len() - i,
    {
        let ghost acc0 = seq_views(acc@);
        let (ols, st2) = handle_line(st, &lines[i]);
        push_all(&mut acc, &ols);
        proof {
            assert(lv[i as int] == lines@[i as int]@);
            assert(doc_lines(lv, i as int, st) == line_out(st, lv[i as int]) + doc_lines(
                lv,
                i + 1,
                line_next(st, lv[i as int]),
            ));
            assert(seq_views(acc@) + doc_lines(lv, i + 1, st2) =~= acc0 + doc_lines(
                lv,
                i as int,
                st,
            ));
        }
        st = st2;
        i = i + 1;
    }
    assert(seq_views(acc@) =~= doc_lines(lv, 0, ScanState::Normal));
    join_out(&acc)
}

} // verus!

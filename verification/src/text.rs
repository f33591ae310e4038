//! Character classes and whitespace trimming over sequences of characters.
use vstd::prelude::*;

verus! {

/// Whitespace: the characters with the Unicode `White_Space` property.
pub open spec fn is_ws(c: char) -> bool {
    c == ' ' || c == '\t' || c == '\n' || c == '\r' || c == '\u{000b}' || c == '\u{000c}'
        || c == '\u{0085}' || c == '\u{00a0}' || c == '\u{1680}'
        || ('\u{2000}' <= c && c <= '\u{200a}') || c == '\u{2028}' || c == '\u{2029}'
        || c == '\u{202f}' || c == '\u{205f}' || c == '\u{3000}'
}

pub fn ws_char(c: char) -> (r: bool)
    ensures
        r == is_ws(c),
{
    c == ' ' || c == '\t' || c == '\n' || c == '\r' || c == '\u{000b}' || c == '\u{000c}'
        || c == '\u{0085}' || c == '\u{00a0}' || c == '\u{1680}'
        || ('\u{2000}' <= c && c <= '\u{200a}') || c == '\u{2028}' || c == '\u{2029}'
        || c == '\u{202f}' || c == '\u{205f}' || c == '\u{3000}'
}

/// Index of the first character at or after `k` that is not whitespace
/// (`s.len()` if all of them are).
pub open spec fn first_nws(s: Seq<char>, k: int) -> int
    decreases s.len() - k,
{
    if 0 <= k < s.len() && is_ws(s[k]) {
        first_nws(s, k + 1)
    } else {
        k
    }
}

/// Index of the last character at or before `k` that is not whitespace
/// (`-1` if none is).
pub open spec fn last_nws(s: Seq<char>, k: int) -> int
    decreases k + 1,
{
    if 0 <= k < s.len() && is_ws(s[k]) {
        last_nws(s, k - 1)
    } else {
        k
    }
}

/// A sequence is blank when it holds only whitespace.
pub open spec fn is_blank(s: Seq<char>) -> bool {
    first_nws(s, 0) == s.len()
}

/// The sequence with leading and trailing whitespace removed.
pub open spec fn trim(s: Seq<char>) -> Seq<char> {
    let a = first_nws(s, 0);
    if a == s.len() {
        Seq::empty()
    } else {
        s.subrange(a, last_nws(s, s.len() - 1) + 1)
    }
}

pub proof fn lemma_first_nws(s: Seq<char>, k: int)
    requires
        0 <= k <= s.len(),
    ensures
        k <= first_nws(s, k) <= s.len(),
        forall|j: int| k <= j < first_nws(s, k) ==> is_ws(s[j]),
        first_nws(s, k) < s.len() ==> !is_ws(s[first_nws(s, k)]),
    decreases s.len() - k,
{
    if k < s.len() && is_ws(s[k]) {
        lemma_first_nws(s, k + 1);
    }
}

pub proof fn lemma_last_nws(s: Seq<char>, k: int)
    requires
        -1 <= k < s.len(),
    ensures
        -1 <= last_nws(s, k) <= k,
        forall|j: int| last_nws(s, k) < j <= k ==> is_ws(s[j]),
        last_nws(s, k) >= 0 ==> !is_ws(s[last_nws(s, k)]),
    decreases k + 1,
{
    if 0 <= k && is_ws(s[k]) {
        lemma_last_nws(s, k - 1);
    }
}

/// Shape of a trimmed non-blank sequence: it is the subrange between the
/// first and last non-whitespace characters.
pub proof fn lemma_trim_shape(s: Seq<char>)
    requires
        !is_blank(s),
    ensures
        0 <= first_nws(s, 0) <= last_nws(s, s.len() - 1) < s.len(),
        !is_ws(s[first_nws(s, 0)]),
        !is_ws(s[last_nws(s, s.len() - 1)]),
        trim(s) == s.subrange(first_nws(s, 0), last_nws(s, s.len() - 1) + 1),
        trim(s).len() > 0,
        forall|j: int| 0 <= j < first_nws(s, 0) ==> is_ws(s[j]),
        forall|j: int| last_nws(s, s.len() - 1) < j < s.len() ==> is_ws(s[j]),
{
    lemma_first_nws(s, 0);
    let a = first_nws(s, 0);
    lemma_last_nws(s, s.len() - 1);
    let b = last_nws(s, s.len() - 1);
    if b < a {
        assert(is_ws(s[a]));
        assert(false);
    }
}

/// Trimming a blank sequence gives the empty sequence; a non-blank one
/// keeps at least one character.
pub proof fn lemma_trim_blank(s: Seq<char>)
    ensures
        is_blank(s) <==> trim(s).len() == 0,
{
    if !is_blank(s) {
        lemma_trim_shape(s);
    }
}

/// The non-whitespace characters of a sequence, in order.
pub open spec fn nws(s: Seq<char>) -> Seq<char> {
    s.filter(|c: char| !is_ws(c))
}

pub proof fn lemma_nws_push(s: Seq<char>, c: char)
    ensures
        is_ws(c) ==> nws(s.push(c)) == nws(s),
        !is_ws(c) ==> nws(s.push(c)) == nws(s).push(c),
{
    reveal(Seq::filter);
    assert(s.push(c).drop_last() =~= s);
}

pub proof fn lemma_nws_concat(a: Seq<char>, b: Seq<char>)
    ensures
        nws(a + b) == nws(a) + nws(b),
{
    broadcast use vstd::seq_lib::group_seq_properties;

    Seq::filter_distributes_over_add(a, b, |c: char| !is_ws(c));
}

/// The non-whitespace characters of a single character, as a sequence.
pub proof fn lemma_nws_single(c: char)
    ensures
        is_ws(c) ==> nws(seq![c]) == Seq::<char>::empty(),
        !is_ws(c) ==> nws(seq![c]) == seq![c],
{
    reveal(Seq::filter);
    assert(seq![c].last() == c);
    assert(seq![c].drop_last() =~= Seq::<char>::empty());
    assert(nws(Seq::<char>::empty()) == Seq::<char>::empty());
    assert(nws(seq![c]) == if !is_ws(c) {
        nws(Seq::<char>::empty()).push(c)
    } else {
        nws(Seq::<char>::empty())
    });
    if !is_ws(c) {
        assert(Seq::<char>::empty().push(c) =~= seq![c]);
    }
}

/// A sequence is blank exactly when it has no non-whitespace character.
pub proof fn lemma_nws_blank(s: Seq<char>)
    ensures
        is_blank(s) <==> nws(s).len() == 0,
    decreases s.len(),
{
    reveal(Seq::filter);
    if s.len() > 0 {
        lemma_nws_blank(s.drop_last());
        lemma_first_nws(s, 0);
        lemma_first_nws(s.drop_last(), 0);
        if is_blank(s) {
            assert(is_ws(s.last()));
            assert(forall|j: int| 0 <= j < s.len() ==> is_ws(s[j]));
            assert(is_blank(s.drop_last())) by {
                if !is_blank(s.drop_last()) {
                    let a = first_nws(s.drop_last(), 0);
                    assert(!is_ws(s[a]));
                }
            }
        } else {
            let a = first_nws(s, 0);
            assert(!is_ws(s[a]));
            if a == s.len() - 1 {
                assert(!is_ws(s.last()));
            } else {
                assert(!is_blank(s.drop_last())) by {
                    if is_blank(s.drop_last()) {
                        assert(forall|j: int|
                            0 <= j < s.len() - 1 ==> is_ws(#[trigger] s.drop_last()[j]));
                        assert(is_ws(s.drop_last()[a]));
                    }
                }
            }
        }
    }
}

/// Trimming does not change the non-whitespace characters.
pub proof fn lemma_nws_trim(s: Seq<char>)
    ensures
        nws(trim(s)) == nws(s),
{
    if is_blank(s) {
        lemma_nws_blank(s);
        assert(nws(trim(s)) =~= nws(s)) by {
            reveal(Seq::filter);
        }
    } else {
        lemma_trim_shape(s);
        let a = first_nws(s, 0);
        let b = last_nws(s, s.len() - 1);
        let pre = s.subrange(0, a);
        let post = s.subrange(b + 1, s.len() as int);
        assert(s =~= (pre + trim(s)) + post);
        lemma_nws_concat(pre + trim(s), post);
        lemma_nws_concat(pre, trim(s));
        lemma_nws_blank(pre);
        lemma_nws_blank(post);
        assert(is_blank(pre)) by {
            lemma_first_nws(pre, 0);
            if !is_blank(pre) {
                assert(!is_ws(pre[first_nws(pre, 0)]));
            }
        }
        assert(is_blank(post)) by {
            lemma_first_nws(post, 0);
            if !is_blank(post) {
                assert(!is_ws(post[first_nws(post, 0)]));
            }
        }
        assert(nws(trim(s)) =~= nws(s));
    }
}

/// First non-whitespace position, computed.
pub fn first_nws_at(v: &Vec<char>, start: usize) -> (a: usize)
    requires
        start <= v.len(),
    ensures
        a as int == first_nws(v@, start as int),
        start <= a <= v.len(),
{
    let mut a = start;
    while a < v.len() && ws_char(v[a])
        invariant
            start <= a <= v.len(),
            first_nws(v@, start as int) == first_nws(v@, a as int),
        decreases v.len() - a,
    {
        a = a + 1;
    }
    a
}

pub fn blank_chars(v: &Vec<char>) -> (r: bool)
    ensures
        r == is_blank(v@),
{
    let a = first_nws_at(v, 0);
    a == v.len()
}

/// Copy of the characters in `[from, to)`.
pub fn copy_range(v: &Vec<char>, from: usize, to: usize) -> (r: Vec<char>)
    requires
        from <= to <= v.len(),
    ensures
        r@ == v@.subrange(from as int, to as int),
{
    let mut r: Vec<char> = Vec::new();
    let mut k = from;
    while k < to
        invariant
            from <= k <= to <= v.len(),
            r@ == v@.subrange(from as int, k as int),
        decreases to - k,
    {
        r.push(v[k]);
        assert(r@ =~= v@.subrange(from as int, k + 1 as int));
        k = k + 1;
    }
    r
}

/// Append all characters of `b` to `a`.
pub fn append_chars(a: &mut Vec<char>, b: &Vec<char>)
    ensures
        final(a)@ == old(a)@ + b@,
{
    let mut k: usize = 0;
    while k < b.len()
        invariant
            k <= b.len(),
            a@ == old(a)@ + b@.subrange(0, k as int),
        decreases b.len() - k,
    {
        a.push(b[k]);
        assert(a@ =~= old(a)@ + b@.subrange(0, k + 1 as int));
        k = k + 1;
    }
    assert(a@ =~= old(a)@ + b@);
}

/// The trimmed copy of a character vector.
pub fn trim_chars(v: &Vec<char>) -> (t: Vec<char>)
    ensures
        t@ == trim(v@),
{
    let a = first_nws_at(v, 0);
    if a == v.len() {
        let r: Vec<char> = Vec::new();
        assert(r@ =~= trim(v@));
        return r;
    }
    proof {
        lemma_trim_shape(v@);
    }
    let mut b = v.len() - 1;
    while ws_char(v[b])
        invariant
            a <= b < v.len(),
            !is_ws(v@[a as int]),
            last_nws(v@, v.len() - 1) == last_nws(v@, b as int),
        decreases b,
    {
        b = b - 1;
    }
    copy_range(v, a, b + 1)
}

} // verus!

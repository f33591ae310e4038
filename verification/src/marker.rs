//! Marker and prefix extraction for header and list lines.
//!
//! A header marker is a run of `#` followed by one space; an unordered list
//! marker is `*`, `-` or `+` followed by one space; an ordered list marker
//! is a run of ASCII digits, then `.` or `)`, then one space. The prefix of
//! a marker line is its indentation, the marker and that space; the content
//! is everything after. A line with no marker has an empty prefix and its
//! whole text as content.
use vstd::prelude::*;
use crate::text::{first_nws, first_nws_at};

verus! {

pub open spec fn ascii_digit(c: char) -> bool {
    '0' <= c && c <= '9'
}

/// End of the run of `#` characters starting at `k`.
pub open spec fn hash_end(s: Seq<char>, k: int) -> int
    decreases s.len() - k,
{
    if 0 <= k < s.len() && s[k] == '#' {
        hash_end(s, k + 1)
    } else {
        k
    }
}

/// End of the run of ASCII digits starting at `k`.
pub open spec fn digit_end(s: Seq<char>, k: int) -> int
    decreases s.len() - k,
{
    if 0 <= k < s.len() && ascii_digit(s[k]) {
        digit_end(s, k + 1)
    } else {
        k
    }
}

/// Whether a list marker stands at position `k` of `s`.
pub open spec fn is_list_marker_at(s: Seq<char>, k: int) -> bool {
    (k + 1 < s.len() && (s[k] == '*' || s[k] == '-' || s[k] == '+') && s[k + 1] == ' ') || {
        let d = digit_end(s, k);
        d > k && d + 1 < s.len() && (s[d] == '.' || s[d] == ')') && s[d + 1] == ' '
    }
}

/// The length of the prefix of a marker line: indentation plus marker plus
/// one space. Zero when the line opens with no header or list marker.
pub open spec fn marker_split(s: Seq<char>) -> int {
    let ind = first_nws(s, 0);
    if ind < s.len() && s[ind] == '#' {
        let h = hash_end(s, ind);
        if h < s.len() && s[h] == ' ' {
            h + 1
        } else {
            0
        }
    } else if ind + 1 < s.len() && (s[ind] == '*' || s[ind] == '-' || s[ind] == '+') && s[ind + 1]
        == ' ' {
        ind + 2
    } else {
        let d = digit_end(s, ind);
        if d > ind && d + 1 < s.len() && (s[d] == '.' || s[d] == ')') && s[d + 1] == ' ' {
            d + 2
        } else {
            0
        }
    }
}

pub proof fn lemma_hash_end(s: Seq<char>, k: int)
    requires
        0 <= k <= s.len(),
    ensures
        k <= hash_end(s, k) <= s.len(),
    decreases s.len() - k,
{
    if k < s.len() && s[k] == '#' {
        lemma_hash_end(s, k + 1);
    }
}

pub proof fn lemma_digit_end(s: Seq<char>, k: int)
    requires
        0 <= k <= s.len(),
    ensures
        k <= digit_end(s, k) <= s.len(),
    decreases s.len() - k,
{
    if k < s.len() && ascii_digit(s[k]) {
        lemma_digit_end(s, k + 1);
    }
}

/// The prefix length always lies within the line.
pub proof fn lemma_marker_split_bounds(s: Seq<char>)
    ensures
        0 <= marker_split(s) <= s.len(),
{
    crate::text::lemma_first_nws(s, 0);
    let ind = first_nws(s, 0);
    if ind < s.len() && s[ind] == '#' {
        lemma_hash_end(s, ind);
    } else {
        lemma_digit_end(s, ind);
    }
}

fn digit_end_at(v: &Vec<char>, start: usize) -> (d: usize)
    requires
        start <= v.len(),
    ensures
        d as int == digit_end(v@, start as int),
        start <= d <= v.len(),
{
    let mut d = start;
    while d < v.len() && '0' <= v[d] && v[d] <= '9'
        invariant
            start <= d <= v.len(),
            digit_end(v@, start as int) == digit_end(v@, d as int),
        decreases v.len() - d,
    {
        d = d + 1;
    }
    d
}

fn hash_end_at(v: &Vec<char>, start: usize) -> (h: usize)
    requires
        start <= v.len(),
    ensures
        h as int == hash_end(v@, start as int),
        start <= h <= v.len(),
{
    let mut h = start;
    while h < v.len() && v[h] == '#'
        invariant
            start <= h <= v.len(),
            hash_end(v@, start as int) == hash_end(v@, h as int),
        decreases v.len() - h,
    {
        h = h + 1;
    }
    h
}

pub fn list_marker_at(v: &Vec<char>, k: usize) -> (r: bool)
    requires
        k <= v.len(),
    ensures
        r == is_list_marker_at(v@, k as int),
{
    if k < v.len() && k + 1 < v.len() && (v[k] == '*' || v[k] == '-' || v[k] == '+') && v[k + 1] == ' ' {
        return true;
    }
    let d = digit_end_at(v, k);
    d > k && d < v.len() && d + 1 < v.len() && (v[d] == '.' || v[d] == ')') && v[d + 1] == ' '
}

/// The prefix length of a marker line, computed.
pub fn marker_split_at(v: &Vec<char>) -> (sp: usize)
    ensures
        sp as int == marker_split(v@),
        sp <= v.len(),
{
    let ind = first_nws_at(v, 0);
    if ind < v.len() && v[ind] == '#' {
        let h = hash_end_at(v, ind);
        if h < v.len() && v[h] == ' ' {
            return h + 1;
        }
        return 0;
    }
    if ind < v.len() && ind + 1 < v.len() && (v[ind] == '*' || v[ind] == '-' || v[ind] == '+') && v[ind + 1] == ' ' {
        return ind + 2;
    }
    let d = digit_end_at(v, ind);
    if d > ind && d < v.len() && d + 1 < v.len() && (v[d] == '.' || v[d] == ')') && v[d + 1] == ' ' {
        return d + 2;
    }
    0
}

} // verus!

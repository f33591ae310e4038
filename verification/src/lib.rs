//! Reformats markdown text so that each sentence begins on its own line,
//! while structural elements (code fences, indented code, tables, blank
//! lines, blockquotes, horizontal rules) pass through verbatim. Header and
//! list lines keep their marker; their content is split into sentences,
//! with each sentence after the first aligned under the first.
use vstd::prelude::*;

pub mod text;
pub mod convert;
pub mod reflow;
pub mod marker;
pub mod classify;

verus! {

use crate::convert::{chars_of, string_of};
use crate::classify::md_format;
use crate::classify::join_lines;
use crate::reflow::unit_lines;
use crate::marker::{is_list_marker_at, marker_split};

/// Reformat a whole markdown document: every sentence of prose starts on
/// its own line, structural lines pass through verbatim, and every output
/// line ends with a line feed.
pub fn format_markdown_sentences(text: &str) -> (out: String)
    ensures
        out@ == md_format(text@),
{
    let v = chars_of(text);
    let r = crate::classify::format_chars(&v);
    string_of(&r)
}

/// Reflow one prose unit: a blank unit is returned followed by a line
/// feed; any other is split into trimmed sentences, each followed by a
/// line feed.
pub fn format_paragraph(text: &str) -> (out: String)
    ensures
        out@ == join_lines(unit_lines(text@), 0),
{
    let v = chars_of(text);
    let ss = crate::reflow::split_sentences(&v);
    let r = crate::classify::join_out(&ss);
    string_of(&r)
}

/// Whether a line (already stripped of its indentation) opens with a list
/// marker: `*`, `-` or `+` plus a space, or ASCII digits plus `.` or `)`
/// plus a space.
pub fn is_list_item(trimmed: &str) -> (r: bool)
    ensures
        r == is_list_marker_at(trimmed@, 0),
{
    let v = chars_of(trimmed);
    crate::marker::list_marker_at(&v, 0)
}

/// Split a line into its marker prefix (indentation, marker, one space)
/// and its content; a line with no header or list marker has an empty
/// prefix and its whole text as content.
pub fn extract_prefix_and_content(line: &str) -> (r: (String, String))
    ensures
        r.0@ == line@.take(marker_split(line@)),
        r.1@ == line@.skip(marker_split(line@)),
        r.0@ + r.1@ == line@,
{
    let v = chars_of(line);
    let sp = crate::marker::marker_split_at(&v);
    let p = crate::text::copy_range(&v, 0, sp);
    let c = crate::text::copy_range(&v, sp, v.len());
    assert(p@ + c@ =~= line@);
    (string_of(&p), string_of(&c))
}

} // verus!

use md_sentence_format::{format_markdown_sentences, format_paragraph};

#[test]
fn test_simple_sentences() {
    let input = "This is a sentence. This is another sentence.";
    let output = format_paragraph(input);
    assert_eq!(output, "This is a sentence.\nThis is another sentence.\n");
}

#[test]
fn test_multiple_delimiters() {
    let input = "Is this a question? Yes! This is an answer.";
    let output = format_paragraph(input);
    assert_eq!(output, "Is this a question?\nYes!\nThis is an answer.\n");
}

#[test]
fn test_code_blocks_preserved() {
    let input = "This is text.\n```rust\nfn main() {\n    println!(\"Hello.\");\n}\n```\nMore text.";
    let output = format_markdown_sentences(input);
    assert!(output.contains("```rust"));
    assert!(output.contains("println!(\"Hello.\");"));
}

#[test]
fn test_headers_preserved() {
    let input = "# This is a header. With a sentence.";
    let output = format_markdown_sentences(input);
    assert!(output.starts_with("# This is a header."));
}

#[test]
fn test_empty_lines_preserved() {
    let input = "Sentence one.\n\nSentence two.";
    let output = format_markdown_sentences(input);
    assert!(output.contains("\n\n"));
}

#[test]
fn test_list_items() {
    let input = "* First item. Second sentence.";
    let output = format_markdown_sentences(input);
    assert!(output.starts_with("* First item."));
    assert!(output.contains("  Second sentence."));
}

#[test]
fn test_indented_code_preserved() {
    let input = "Text here.\n    code line\n    another code line\nMore text.";
    let output = format_markdown_sentences(input);
    assert!(output.contains("    code line"));
    assert!(output.contains("    another code line"));
}

#[test]
fn test_tables_preserved() {
    let input = "| Column 1 | Column 2 |\n|----------|----------|\n| Data | More data |";
    let output = format_markdown_sentences(input);
    assert!(output.contains("| Column 1 | Column 2 |"));
    assert!(output.contains("|----------|----------|"));
}

#[test]
fn test_ordered_lists() {
    let input = "1. First item. Second sentence.\n2. Second item.";
    let output = format_markdown_sentences(input);
    assert!(output.starts_with("1. First item."));
    assert!(output.contains("   Second sentence."));
    assert!(output.contains("2. Second item."));
}

#[test]
fn test_header_reflow_exact() {
    let input = "# This is a header. With a sentence.";
    let output = format_markdown_sentences(input);
    assert_eq!(output, "# This is a header.\n  With a sentence.\n");
}

#[test]
fn test_ordered_list_exact() {
    let input = "1. First item. Second sentence.\n2. Second item.";
    let output = format_markdown_sentences(input);
    assert_eq!(output, "1. First item.\n   Second sentence.\n2. Second item.\n");
}

#[test]
fn test_empty_input() {
    assert_eq!(format_markdown_sentences(""), "");
}

#[test]
fn test_whitespace_only_line() {
    assert_eq!(format_markdown_sentences("   "), "   \n");
}

#[test]
fn test_blank_paragraph_unit() {
    assert_eq!(format_paragraph(""), "\n");
    assert_eq!(format_paragraph("   "), "   \n");
}

#[test]
fn test_blockquote_verbatim() {
    let input = "> A quote. With periods.";
    assert_eq!(format_markdown_sentences(input), "> A quote. With periods.\n");
}

#[test]
fn test_horizontal_rule_verbatim() {
    assert_eq!(format_markdown_sentences("---"), "---\n");
    assert_eq!(format_markdown_sentences("***"), "***\n");
    assert_eq!(format_markdown_sentences("___"), "___\n");
}

#[test]
fn test_emphasis_line_verbatim() {
    let input = "*emphasis* only. Here.";
    assert_eq!(format_markdown_sentences(input), "*emphasis* only. Here.\n");
}

#[test]
fn test_mismatched_fence_inert() {
    let input = "```\n~~~\ncode. here\n```\nAfter. Text.";
    let output = format_markdown_sentences(input);
    assert_eq!(output, "```\n~~~\ncode. here\n```\nAfter.\nText.\n");
}

#[test]
fn test_unterminated_fence() {
    let input = "```\nA sentence. Another one.";
    assert_eq!(format_markdown_sentences(input), "```\nA sentence. Another one.\n");
}

#[test]
fn test_lowercase_no_split() {
    let input = "e.g. this stays together.";
    assert_eq!(format_paragraph(input), "e.g. this stays together.\n");
}

#[test]
fn test_digit_starts_sentence() {
    let input = "Count to 3. 4 comes next.";
    assert_eq!(format_paragraph(input), "Count to 3.\n4 comes next.\n");
}

#[test]
fn test_bracket_and_paren_start_sentences() {
    let input = "See below. [link] follows. (note) ends.";
    assert_eq!(format_paragraph(input), "See below.\n[link] follows.\n(note) ends.\n");
}

#[test]
fn test_trailing_whitespace_trimmed() {
    let input = "  Hello there.  ";
    assert_eq!(format_paragraph(input), "Hello there.\n");
}

#[test]
fn test_no_terminal_punctuation() {
    let input = "no punctuation here";
    assert_eq!(format_paragraph(input), "no punctuation here\n");
}

#[test]
fn test_crlf_line_endings() {
    let input = "First one. Second one.\r\nThird!";
    assert_eq!(format_markdown_sentences(input), "First one.\nSecond one.\nThird!\n");
}

#[test]
fn test_tab_indent_preserved() {
    let input = "\tcode line. untouched";
    assert_eq!(format_markdown_sentences(input), "\tcode line. untouched\n");
}

#[test]
fn test_table_with_punctuation() {
    let input = "| A. B. | C! D? |";
    assert_eq!(format_markdown_sentences(input), "| A. B. | C! D? |\n");
}

#[test]
fn test_boundary_without_gap() {
    let input = "One ends.Two begins.";
    assert_eq!(format_paragraph(input), "One ends.\nTwo begins.\n");
}

#[test]
fn test_already_one_sentence_per_line() {
    let input = "First sentence.\nSecond sentence.\n";
    assert_eq!(format_markdown_sentences(input), "First sentence.\nSecond sentence.\n");
}

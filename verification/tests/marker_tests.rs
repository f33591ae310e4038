use md_sentence_format::{extract_prefix_and_content, is_list_item};

#[test]
fn test_unordered_markers() {
    assert!(is_list_item("* item"));
    assert!(is_list_item("- item"));
    assert!(is_list_item("+ item"));
    assert!(!is_list_item("*item"));
    assert!(!is_list_item("*bold* text"));
}

#[test]
fn test_ordered_markers() {
    assert!(is_list_item("1. item"));
    assert!(is_list_item("12) item"));
    assert!(!is_list_item("1.item"));
    assert!(!is_list_item(". item"));
    assert!(!is_list_item("1a. item"));
    assert!(!is_list_item("plain text. here"));
}

#[test]
fn test_extract_unordered() {
    let (prefix, content) = extract_prefix_and_content("* First item. Second sentence.");
    assert_eq!(prefix, "* ");
    assert_eq!(content, "First item. Second sentence.");
}

#[test]
fn test_extract_ordered() {
    let (prefix, content) = extract_prefix_and_content("10) go now. Please.");
    assert_eq!(prefix, "10) ");
    assert_eq!(content, "go now. Please.");
}

#[test]
fn test_extract_header_with_indent() {
    let (prefix, content) = extract_prefix_and_content("  ## Head. Tail.");
    assert_eq!(prefix, "  ## ");
    assert_eq!(content, "Head. Tail.");
}

#[test]
fn test_extract_no_marker() {
    let (prefix, content) = extract_prefix_and_content("plain paragraph line");
    assert_eq!(prefix, "");
    assert_eq!(content, "plain paragraph line");
}

#[test]
fn test_extract_header_without_space() {
    let (prefix, content) = extract_prefix_and_content("#nospace here");
    assert_eq!(prefix, "");
    assert_eq!(content, "#nospace here");
}

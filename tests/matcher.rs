use apply_edits::matcher::{
    byte_pos_to_line, count_occurrences, delete_line_range, delete_matching_lines, extract_lines,
    find_line_with_anchor, find_literal, find_with_normalization, get_affected_lines,
    insert_after_line, insert_at_line, insert_before_line, normalize_indentation,
    normalize_whitespace, replace_all, replace_first, replace_with_normalization,
    truncate_preview, FindResult,
};

#[test]
fn test_replace_first() {
    let content = "foo bar foo";
    let result = replace_first(content, "foo", "baz");
    assert_eq!(result, Some("baz bar foo".to_string()));
}

#[test]
fn test_replace_all() {
    let content = "foo bar foo";
    let result = replace_all(content, "foo", "baz");
    assert_eq!(result, "baz bar baz");
}

#[test]
fn test_multiline_replace() {
    let content = "line1\nfunction foo() {\n  return 1;\n}\nline5";
    let search = "function foo() {\n  return 1;\n}";
    let replace = "function bar() {\n  return 2;\n}";
    let result = replace_first(content, search, replace);
    assert_eq!(
        result,
        Some("line1\nfunction bar() {\n  return 2;\n}\nline5".to_string())
    );
}

#[test]
fn test_insert_after_line() {
    let content = "line1\nline2\nline3";
    let result = insert_after_line(content, "line2", "inserted");
    assert!(result.is_some());
    let (new_content, line) = result.unwrap();
    assert!(new_content.contains("line2\ninserted\nline3"));
    assert_eq!(line, 3);
}

#[test]
fn test_insert_before_line() {
    let content = "line1\nline2\nline3";
    let result = insert_before_line(content, "line2", "inserted");
    assert!(result.is_some());
    let (new_content, line) = result.unwrap();
    assert!(new_content.contains("line1\ninserted\nline2"));
    assert_eq!(line, 2);
}

#[test]
fn test_delete_line_range() {
    let content = "line1\nline2\nline3\nline4";
    let result = delete_line_range(content, 2, 3);
    assert!(result.is_some());
    let new_content = result.unwrap();
    assert!(new_content.contains("line1"));
    assert!(new_content.contains("line4"));
    assert!(!new_content.contains("line2"));
    assert!(!new_content.contains("line3"));
}

#[test]
fn test_normalize_whitespace() {
    let content = "line1  \nline2\t\nline3";
    let result = normalize_whitespace(content);
    assert_eq!(result, "line1\nline2\nline3");
}

#[test]
fn find_literal_gives_byte_offsets() {
    assert_eq!(find_literal("héllo world", "world"), Some(7));
    assert_eq!(find_literal("abc", "x"), None);
    assert_eq!(find_literal("abc", ""), Some(0));
}

#[test]
fn count_occurrences_is_non_overlapping() {
    assert_eq!(count_occurrences("aaaa", "aa"), 2);
    assert_eq!(count_occurrences("foo bar foo baz foo", "foo"), 3);
    assert_eq!(count_occurrences("abc", ""), 4);
    assert_eq!(count_occurrences("", "a"), 0);
}

#[test]
fn replace_all_with_empty_pattern_interleaves() {
    assert_eq!(replace_all("abc", "", "x"), "xaxbxcx");
    assert_eq!(replace_all("aaa", "aa", "b"), "ba");
}

#[test]
fn replace_all_leaves_no_occurrence_when_disjoint() {
    let out = replace_all("foo bar foo baz foo", "foo", "qux");
    assert_eq!(out, "qux bar qux baz qux");
    assert_eq!(count_occurrences(&out, "foo"), 0);
}

#[test]
fn replace_all_can_form_new_occurrences_with_empty_replacement() {
    let out = replace_all("aabb", "ab", "");
    assert_eq!(out, "ab");
    assert_eq!(count_occurrences(&out, "ab"), 1);
}

#[test]
fn anchor_lines_are_one_based() {
    assert_eq!(find_line_with_anchor("a\nb\nc", "c"), Some(3));
    assert_eq!(find_line_with_anchor("a\nb\nc", "z"), None);
}

#[test]
fn normalize_indentation_trims_both_ends() {
    assert_eq!(normalize_indentation("  a  \n\tb\r\nc"), "a\nb\nc");
}

#[test]
fn find_with_normalization_cases() {
    match find_with_normalization("xx abc", "abc") {
        FindResult::Exact(p) => assert_eq!(p, 3),
        _ => panic!("expected exact"),
    }
    match find_with_normalization("a\n    b\n    c\nd", "  b\n  c") {
        FindResult::NormalizedMatch { warning, line_number } => {
            assert_eq!(line_number, 2);
            assert!(warning.contains("at line 2"));
        }
        _ => panic!("expected normalized"),
    }
    assert!(matches!(find_with_normalization("a\nb", "zz"), FindResult::NotFound));
}

#[test]
fn extract_lines_keeps_indentation() {
    assert_eq!(extract_lines("a\n  b\n  c\nd", 2, 2), "  b\n  c");
    assert_eq!(extract_lines("a\nb", 0, 1), "a");
    assert_eq!(extract_lines("a\nb", 5, 1), "");
}

#[test]
fn replace_with_normalization_reindents() {
    let (out, note) = replace_with_normalization("x\n    a\n    b\ny", "  a\n  b", "  c\n    d").unwrap();
    assert_eq!(out, "x\n    c\n      d\ny");
    assert!(note.contains("indentation differences"));
    let (out, note) = replace_with_normalization("hello world", "world", "rust").unwrap();
    assert_eq!(out, "hello rust");
    assert_eq!(note, "Exact match");
    assert!(replace_with_normalization("abc", "zzz", "y").is_none());
}

#[test]
fn truncate_preview_cuts_with_dots() {
    assert_eq!(truncate_preview("hello", 10), "hello");
    assert_eq!(truncate_preview("hello world", 8), "hello...");
    assert_eq!(truncate_preview("héllo", 4), "h...");
}

#[test]
fn byte_positions_map_to_lines() {
    assert_eq!(byte_pos_to_line("a\nb\nc", 0), 1);
    assert_eq!(byte_pos_to_line("a\nb\nc", 4), 3);
    assert_eq!(byte_pos_to_line("a\nb", 2), 2);
    assert_eq!(byte_pos_to_line("a\nb", 1), 1);
    assert_eq!(get_affected_lines("a\nb\nc", 2, 3), (2, 3));
}

#[test]
fn insert_at_line_bounds() {
    assert_eq!(insert_at_line("a\nb\n", 3, "c"), Some("a\nb\nc\n".to_string()));
    assert_eq!(insert_at_line("a\nb", 1, "z"), Some("z\na\nb".to_string()));
    assert_eq!(insert_at_line("a\nb", 0, "z"), None);
    assert_eq!(insert_at_line("a\nb", 4, "z"), None);
}

#[test]
fn delete_line_range_scenarios() {
    assert_eq!(delete_line_range("line1\nline2\nline3\n", 2, 3), Some("line1\n".to_string()));
    assert_eq!(delete_line_range("a\nb\nc\n", 1, 3), Some("".to_string()));
    assert_eq!(delete_line_range("a\n\nb\n\nc", 3, 3), Some("a\n\nc".to_string()));
    assert_eq!(delete_line_range("a\nb", 2, 3), None);
}

#[test]
fn delete_matching_lines_counts() {
    let (out, n) = delete_matching_lines("keep\ndelete this\nkeep\ndelete this too\n", "delete");
    assert_eq!(out, "keep\nkeep\n");
    assert_eq!(n, 2);
    let (out, n) = delete_matching_lines("a\nb\n", "zz");
    assert_eq!(out, "a\nb\n");
    assert_eq!(n, 0);
}

#[test]
fn inserts_keep_blank_lines_and_endings() {
    assert_eq!(insert_at_line("\n", 2, "X"), Some("\nX\n".to_string()));
    assert_eq!(insert_at_line("a", 2, "X"), Some("a\nX".to_string()));
    assert_eq!(insert_at_line("", 1, "X"), Some("X".to_string()));
    assert_eq!(insert_after_line("a\n\n", "a", "X"), Some(("a\nX\n\n".to_string(), 2)));
    assert_eq!(insert_before_line("a\r\nb\r\n", "b", "X"), Some(("a\r\nX\nb\r\n".to_string(), 2)));
}

#[test]
fn normalized_replace_hits_the_matched_lines() {
    let (out, _) = replace_with_normalization("xa\na", " a", " b").unwrap();
    assert_eq!(out, "xa\nb");
    let (out, _) = replace_with_normalization("q\n  x\n  y\nz\n", "x\ny", "x2\ny2").unwrap();
    assert_eq!(out, "q\n  x2\n  y2\nz\n");
}

#[test]
fn appending_keeps_every_line() {
    let content = "a\n\n";
    let r = insert_at_line(content, 3, "X\nY").unwrap();
    assert!(r.starts_with(content));
    assert_eq!(r.lines().collect::<Vec<_>>(), vec!["a", "", "X", "Y"]);
}

#[test]
fn replacement_occurs_once_per_substitution() {
    let out = replace_all("ab ab xab", "ab", "Z");
    assert_eq!(count_occurrences(&out, "Z"), count_occurrences("ab ab xab", "ab"));
    assert_eq!(count_occurrences(&out, "ab"), 0);
}

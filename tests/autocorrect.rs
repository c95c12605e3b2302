use apply_edits::autocorrect::{
    apply_auto_correction, suggest_correction, try_fuzzy_match_correction,
    try_indentation_correction, try_line_ending_correction, try_trailing_whitespace_correction,
    try_typo_correction, CorrectionType,
};
use apply_edits::similarity::ClosestMatch;

#[test]
fn test_indentation_correction() {
    let content = "function foo() {\n    if (x) {\n        return x;\n    }\n}";
    let search = "  if (x) {\n      return x;\n  }";
    let correction = try_indentation_correction(content, search, "js");
    assert!(correction.is_some());
    let c = correction.unwrap();
    assert_eq!(c.correction_type, CorrectionType::IndentationFix);
    assert!(c.suggested_search.contains("    if (x)"));
}

#[test]
fn test_trailing_whitespace_correction() {
    let content = "hello world\ngoodbye world";
    let search = "hello world  \ngoodbye world";
    let correction = try_trailing_whitespace_correction(content, search);
    assert!(correction.is_some());
    let c = correction.unwrap();
    assert_eq!(c.correction_type, CorrectionType::TrailingWhitespace);
    assert_eq!(c.suggested_search, "hello world\ngoodbye world");
}

#[test]
fn test_line_ending_correction() {
    let content = "hello\nworld";
    let search = "hello\r\nworld";
    let correction = try_line_ending_correction(content, search);
    assert!(correction.is_some());
    let c = correction.unwrap();
    assert_eq!(c.correction_type, CorrectionType::LineEndingFix);
    assert_eq!(c.suggested_search, "hello\nworld");
}

#[test]
fn test_fuzzy_match_correction() {
    // one edit in twenty characters: 95% similar
    let closest = vec![ClosestMatch {
        line: 5,
        distance: 1,
        longest: 20,
        content: "function foo()".to_string(),
        context_before: vec![],
        context_after: vec![],
    }];
    let correction = try_fuzzy_match_correction("function fooo()", &closest);
    assert!(correction.is_some());
    let c = correction.unwrap();
    assert_eq!(c.correction_type, CorrectionType::FuzzyMatch);
}

#[test]
fn correction_details() {
    let c = try_indentation_correction("a\n    b\n    c", "  b\n  c", "rs").unwrap();
    assert_eq!(c.suggested_search, "    b\n    c");
    assert_eq!(c.confidence, 950);
    assert_eq!(c.reason, "Search had 2 leading spaces, file has 4 (Spaces(4))");
    let l = try_line_ending_correction("a\r\nb", "a\nb").unwrap();
    assert_eq!(l.suggested_search, "a\r\nb");
    assert_eq!(l.reason, "Converted LF to CRLF line endings");
    assert!(try_trailing_whitespace_correction("abc", "abc").is_none());
    let t = try_typo_correction("let value = 1;", "let vallue").unwrap();
    assert_eq!(t.suggested_search, "let value");
    assert_eq!(t.confidence, 850);
    assert_eq!(t.reason, "Removed extra character at position 6");
    assert!(try_typo_correction("abc", "abcd").is_none());
    let far = vec![ClosestMatch {
        line: 1,
        distance: 5,
        longest: 10,
        content: "x".to_string(),
        context_before: vec![],
        context_after: vec![],
    }];
    assert!(try_fuzzy_match_correction("y", &far).is_none());
}

#[test]
fn pipeline_order_and_threshold() {
    let content = "hello world\ngoodbye world";
    let search = "hello world  \ngoodbye world";
    let c = suggest_correction(content, search, &vec![], "txt").unwrap();
    // trimming every line also matches, so the indentation fix comes first
    assert_eq!(c.correction_type, CorrectionType::IndentationFix);
    let (s, a) = apply_auto_correction(content, search, "txt", 900).unwrap();
    assert_eq!(s, "hello world\ngoodbye world");
    assert_eq!(a.confidence, 950);
    assert!(apply_auto_correction(content, search, "txt", 990).is_none());
    assert!(suggest_correction("abc", "zzzz", &vec![], "txt").is_none());
}

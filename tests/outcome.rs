use apply_edits::matcher::count_occurrences;
use apply_edits::outcome::{generate_hint_for_search_not_found, ApplyResult, EditError, EditOutcome};
use apply_edits::similarity::{find_closest_matches, ClosestMatch};

fn candidate(line: usize, distance: usize, longest: usize) -> ClosestMatch {
    ClosestMatch { line, distance, longest, content: String::new(), context_before: vec![], context_after: vec![] }
}

#[test]
fn hints_by_similarity() {
    assert_eq!(
        generate_hint_for_search_not_found(&vec![]),
        "No similar content found. The file may have changed significantly."
    );
    assert_eq!(
        generate_hint_for_search_not_found(&vec![candidate(4, 1, 20)]),
        "Very close match at line 4. Check for minor differences (whitespace, punctuation)."
    );
    assert_eq!(
        generate_hint_for_search_not_found(&vec![candidate(7, 1, 5)]),
        "Similar content found at line 7. The code may have been modified."
    );
    assert_eq!(
        generate_hint_for_search_not_found(&vec![candidate(2, 2, 3)]),
        "Partial match at line 2 (33% similar). The code structure may have changed."
    );
}

#[test]
fn error_codes_and_messages() {
    let cases = vec![
        (EditError::WriteError { path: "p".to_string(), reason: "r".to_string() }, "write_error", "Failed to write file: p - r"),
        (EditError::DirectoryError { path: "d".to_string(), reason: "r".to_string() }, "directory_error", "Failed to create directory: d - r"),
        (EditError::DeleteError { path: "p".to_string(), reason: "r".to_string() }, "delete_error", "Failed to delete file: p - r"),
        (EditError::MultipleMatches { path: "p".to_string(), count: 3, search_preview: "s".to_string() }, "multiple_matches", "Multiple matches found (3) - search string is not unique: p"),
        (EditError::InvalidLineRange { path: "p".to_string(), start_line: 3, end_line: 5, total_lines: 2 }, "invalid_line_range", "Invalid line range 3-5 (file has 2 lines): p"),
        (EditError::InvalidEdit { reason: "why".to_string() }, "invalid_edit", "Invalid edit: why"),
    ];
    for (e, code, message) in cases {
        assert_eq!(e.code(), code);
        assert_eq!(e.message(), message);
    }
}

#[test]
fn outcomes_and_tally() {
    let err = EditOutcome::from_error(
        1,
        "f",
        "replace",
        EditError::SearchNotFound { path: "f".to_string(), search_preview: "s".to_string(), closest_matches: vec![] },
    );
    match &err {
        EditOutcome::Error { error, search_preview, hint, .. } => {
            assert_eq!(error, "search_not_found");
            assert_eq!(search_preview.as_deref(), Some("s"));
            assert!(hint.as_deref().unwrap().starts_with("No similar content"));
        }
        _ => panic!("expected error"),
    }
    let mut r = ApplyResult::new();
    r.add_outcome(EditOutcome::ok(0, "f", "create"));
    r.add_outcome(err);
    r.add_outcome(EditOutcome::warning(2, "f", "delete_match", "w", "m"));
    assert_eq!((r.applied, r.failed, r.success, r.edits.len()), (2, 1, false, 3));
    let d = ApplyResult::default();
    assert!(d.success && d.edits.is_empty());
}

#[test]
fn closest_matches_are_ranked() {
    let content = "fn alpha() {}\nfn alpah() {}\nlet x = 1;\nfn alpha( {}";
    let m = find_closest_matches(content, "fn alpha() {}", 500, 3);
    assert_eq!(m.len(), 3);
    assert_eq!(m[0].line, 1);
    assert_eq!(m[0].distance, 0);
    assert_eq!(m[0].longest, 13);
    assert_eq!(m[1].line, 4);
    assert_eq!(m[1].distance, 1);
    assert_eq!(m[2].line, 2);
    assert_eq!(m[2].distance, 2);
    assert_eq!(m[0].context_after, vec!["fn alpah() {}".to_string(), "let x = 1;".to_string()]);
    assert!(m[0].context_before.is_empty());
    let two = find_closest_matches(content, "fn alpha() {}", 500, 2);
    assert_eq!(two.len(), 2);
    assert!(find_closest_matches("", "x", 0, 3).is_empty());
}

#[test]
fn count_stays_exact_after_replacement() {
    assert_eq!(count_occurrences("qux bar qux", "foo"), 0);
}

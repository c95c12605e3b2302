use apply_edits::edits::{
    apply_append, apply_create, apply_delete_file, apply_delete_lines, apply_delete_match,
    apply_insert_after, apply_insert_at_line, apply_insert_before, apply_prepend, apply_replace,
    apply_replace_all, Applied, Edit, Effect,
};
use apply_edits::outcome::{EditError, EditOutcome};
use apply_edits::workspace::{FileState, Workspace};

fn written(res: Result<Applied, EditError>) -> (String, String) {
    match res {
        Ok(Applied { effect: Effect::Write(t), message, .. }) => (t, message),
        Ok(_) => panic!("no write"),
        Err(e) => panic!("failed: {}", e.message()),
    }
}

fn text(ws: &Workspace, p: &str) -> Option<String> {
    match ws.get(p) {
        FileState::Text(t) => Some(t),
        _ => None,
    }
}

#[test]
fn test_delete_file() {
    let mut ws = Workspace::new();
    ws.set("test.txt", FileState::Text("content".to_string()));
    let o = Edit::DeleteFile { path: "test.txt".to_string() }.apply(&mut ws, 0);
    assert!(o.is_success());
    assert!(matches!(ws.get("test.txt"), FileState::Missing));
}

#[test]
fn test_delete_file_not_exists() {
    let result = apply_delete_file("nonexistent.txt", false);
    assert!(result.is_ok());
    assert!(result.unwrap().message.contains("already deleted"));
}

#[test]
fn test_delete_lines() {
    let result = apply_delete_lines("test.txt", "line1\nline2\nline3\nline4\n", 2, 3);
    assert!(result.is_ok());
    let (content, _) = written(result);
    assert!(content.contains("line1"));
    assert!(content.contains("line4"));
    assert!(!content.contains("line2"));
    assert!(!content.contains("line3"));
}

#[test]
fn test_delete_lines_invalid_range() {
    let result = apply_delete_lines("test.txt", "line1\nline2\n", 3, 5);
    assert!(result.is_err());
}

#[test]
fn test_delete_match() {
    let result = apply_delete_match("test.txt", "keep\ndelete this\nkeep\ndelete this too\n", "delete");
    assert!(result.is_ok());
    let (content, message) = written(result);
    assert!(message.contains("2"));
    assert!(content.contains("keep"));
    assert!(!content.contains("delete"));
}

#[test]
fn test_delete_match_no_matches() {
    let result = apply_delete_match("test.txt", "line1\nline2\n", "nonexistent");
    assert!(result.is_ok());
    assert!(result.unwrap().message.contains("nothing deleted"));
}

#[test]
fn test_create() {
    let (content, _) = written(apply_create("test.txt", "hello world"));
    assert_eq!(content, "hello world");
}

#[test]
fn test_create_with_dirs() {
    let mut ws = Workspace::new();
    let o = Edit::Create { path: "foo/bar/test.txt".to_string(), content: "content".to_string() }.apply(&mut ws, 0);
    assert!(o.is_success());
    assert!(ws.contains("foo/bar/test.txt"));
}

#[test]
fn test_append() {
    let (content, _) = written(apply_append("test.txt", "line1\n", "line2\n"));
    assert_eq!(content, "line1\nline2\n");
}

#[test]
fn test_append_no_trailing_newline() {
    let (content, _) = written(apply_append("test.txt", "line1", "line2"));
    assert_eq!(content, "line1\nline2");
}

#[test]
fn test_prepend() {
    let (content, _) = written(apply_prepend("test.txt", "line2\n", "line1"));
    assert!(content.starts_with("line1"));
    assert!(content.contains("line2"));
}

#[test]
fn test_insert_after() {
    let (content, _) = written(apply_insert_after("test.txt", "line1\nline2\nline3\n", "line2", "inserted"));
    assert!(content.contains("line2\ninserted\nline3"));
}

#[test]
fn test_insert_before() {
    let (content, _) = written(apply_insert_before("test.txt", "line1\nline2\nline3\n", "line2", "inserted"));
    assert!(content.contains("line1\ninserted\nline2"));
}

#[test]
fn test_insert_at_line() {
    let (content, _) = written(apply_insert_at_line("test.txt", "line1\nline2\nline3\n", 2, "inserted"));
    assert!(content.contains("line1\ninserted\nline2"));
}

#[test]
fn test_insert_after_not_found() {
    let result = apply_insert_after("test.txt", "line1\nline2\nline3\n", "nonexistent", "inserted");
    assert!(result.is_err());
    match result {
        Err(EditError::AnchorNotFound { .. }) => (),
        Err(e) => panic!("Expected AnchorNotFound, got {:?}", e.message()),
        Ok(_) => unreachable!(),
    }
}

#[test]
fn test_insert_at_line_out_of_range() {
    let result = apply_insert_at_line("test.txt", "line1\nline2\n", 100, "inserted");
    assert!(result.is_err());
    match result {
        Err(EditError::LineOutOfRange { .. }) => (),
        Err(e) => panic!("Expected LineOutOfRange, got {:?}", e.message()),
        Ok(_) => unreachable!(),
    }
}

#[test]
fn test_apply_replace_single_line() {
    let result = apply_replace("test.txt", "hello world", "world", "rust");
    assert!(result.is_ok());
    let (content, _) = written(result);
    assert_eq!(content, "hello rust");
}

#[test]
fn test_apply_replace_multiline() {
    let result = apply_replace(
        "test.txt",
        "function foo() {\n  return 1;\n}\n",
        "function foo() {\n  return 1;\n}",
        "function bar() {\n  return 2;\n}",
    );
    assert!(result.is_ok());
    let (content, _) = written(result);
    assert!(content.contains("function bar()"));
    assert!(content.contains("return 2"));
}

#[test]
fn test_apply_replace_not_found() {
    let result = apply_replace("test.txt", "hello world", "foo", "bar");
    assert!(result.is_err());
    match result {
        Err(EditError::SearchNotFound { .. }) => (),
        Err(e) => panic!("Expected SearchNotFound, got {:?}", e.message()),
        Ok(_) => unreachable!(),
    }
}

#[test]
fn test_apply_replace_all() {
    let result = apply_replace_all("test.txt", "foo bar foo baz foo", "foo", "qux");
    assert!(result.is_ok());
    let (content, message) = written(result);
    assert!(message.contains("3 occurrence"));
    assert_eq!(content, "qux bar qux baz qux");
}

#[test]
fn test_apply_replace_with_indentation_normalization() {
    let file_content = "const items = [
                {
                    icon: '⊹',
                    children: 'Pink',
                    onClick: () => handleClick('pink'),
                },
            ];";
    let search = "              {
                  icon: '⊹',
                  children: 'Pink',
                  onClick: () => handleClick('pink'),
              },";
    let replace = "              {
                  icon: '⊹',
                  children: 'Cherry',
                  onClick: () => handleClick('cherry'),
              },";
    let result = apply_replace("test.tsx", file_content, search, replace);
    assert!(result.is_ok(), "Replace should succeed with indentation normalization: {:?}", result.is_ok());
    let (content, msg) = written(result);
    assert!(msg.contains("indentation"), "Message should mention indentation adjustment: {}", msg);
    assert!(content.contains("Cherry"), "Content should have 'Cherry': {}", content);
    assert!(content.contains("cherry"), "Content should have 'cherry': {}", content);
    assert!(!content.contains("Pink"), "Content should not have 'Pink': {}", content);
    assert!(content.contains("                {"), "Should preserve 16-space indentation");
}

#[test]
fn test_apply_replace_exact_match_takes_precedence() {
    let result = apply_replace("test.txt", "    hello world\n    goodbye world", "    hello world", "    hello rust");
    assert!(result.is_ok());
    let (content, msg) = written(result);
    assert!(!msg.contains("indentation"), "Exact match should not mention indentation: {}", msg);
    assert_eq!(content, "    hello rust\n    goodbye world");
}

#[test]
fn replace_messages_and_empty_search() {
    let (_, msg) = written(apply_replace("t", "a\nfoo\nbar\n", "foo\nbar", "x"));
    assert_eq!(msg, "Replaced 1 occurrence (lines 2-3)");
    let (_, msg) = written(apply_replace("t", "hello world", "world", "x"));
    assert_eq!(msg, "Replaced 1 occurrence (line 1)");
    let (_, msg) = written(apply_replace("t", "a\nb foo\n", "foo", "x"));
    assert_eq!(msg, "Replaced 1 occurrence (line 2)");
    match apply_replace("t", "abc", "", "x") {
        Err(EditError::InvalidEdit { reason }) => assert_eq!(reason, "Search string cannot be empty"),
        _ => panic!("expected invalid edit"),
    }
    match apply_replace_all("t", "abc", "zz", "x") {
        Err(EditError::SearchNotFound { search_preview, .. }) => assert_eq!(search_preview, "zz"),
        _ => panic!("expected search not found"),
    }
}

#[test]
fn line_bounds_errors() {
    match apply_delete_lines("t", "a\nb\n", 0, 1) {
        Err(EditError::InvalidEdit { reason }) => assert_eq!(reason, "Line numbers must be >= 1"),
        _ => panic!("expected invalid edit"),
    }
    match apply_delete_lines("t", "a\nb\n", 2, 1) {
        Err(EditError::InvalidEdit { reason }) => assert_eq!(reason, "Start line (2) must be <= end line (1)"),
        _ => panic!("expected invalid edit"),
    }
    match apply_delete_lines("t", "line1\nline2\n", 3, 5) {
        Err(EditError::InvalidLineRange { start_line, end_line, total_lines, .. }) => {
            assert_eq!((start_line, end_line, total_lines), (3, 5, 2))
        }
        _ => panic!("expected invalid range"),
    }
    match apply_insert_at_line("t", "a\n", 0, "x") {
        Err(e) => assert_eq!(e.code(), "invalid_edit"),
        Ok(_) => panic!("line 0 must fail"),
    }
    match apply_insert_at_line("t", "line1\nline2\n", 100, "x") {
        Err(e) => assert_eq!(e.message(), "Line 100 out of range (file has 2 lines): t"),
        Ok(_) => panic!("expected out of range"),
    }
}

#[test]
fn boundary_line_operations() {
    let (c, m) = written(apply_delete_lines("t", "a\nb\nc\n", 1, 3));
    assert_eq!(c, "");
    assert_eq!(m, "Deleted 3 lines (1-3)");
    let (c, m) = written(apply_insert_at_line("t", "a\nb\n", 3, "c"));
    assert_eq!(c, "a\nb\nc\n");
    assert_eq!(m, "Inserted at line 3");
    let (c, m) = written(apply_delete_lines("t", "line1\nline2\nline3\n", 2, 3));
    assert_eq!(c, "line1\n");
    assert_eq!(m, "Deleted 2 lines (2-3)");
}

#[test]
fn insert_messages() {
    let (_, m) = written(apply_insert_after("t", "a\nb\n", "b", "c"));
    assert_eq!(m, "Inserted after anchor at line 2");
    let (_, m) = written(apply_insert_before("t", "a\nb\n", "b", "c"));
    assert_eq!(m, "Inserted before anchor at line 2");
    match apply_insert_before("t", "a\n", "", "c") {
        Err(EditError::InvalidEdit { reason }) => assert_eq!(reason, "Anchor string cannot be empty"),
        _ => panic!("expected invalid edit"),
    }
}

#[test]
fn file_op_messages() {
    let (_, m) = written(apply_create("t", "é\nb"));
    assert_eq!(m, "Created file (2 lines, 4 bytes)");
    let (c, m) = written(apply_append("t", "", "x\ny"));
    assert_eq!(c, "x\ny");
    assert_eq!(m, "Appended 2 line(s)");
    let (c, _) = written(apply_append("t", "a", "\nb"));
    assert_eq!(c, "a\nb");
    let (c, _) = written(apply_append("t", "a\n", "\nb"));
    assert_eq!(c, "a\nb");
    let (c, _) = written(apply_prepend("t", "\nb", "a\n"));
    assert_eq!(c, "a\nb");
    let (c, m) = written(apply_prepend("t", "b", "a"));
    assert_eq!(c, "a\nb");
    assert_eq!(m, "Prepended 1 line(s)");
    let (_, m) = written(apply_delete_match("t", "x\ny\n", "x"));
    assert_eq!(m, "Deleted 1 matching line");
}

#[test]
fn dispatch_on_missing_and_unreadable_files() {
    let mut ws = Workspace::new();
    ws.set("bin", FileState::Unreadable("invalid UTF-8".to_string()));
    let o = Edit::Append { path: "gone.txt".to_string(), content: "x".to_string() }.apply(&mut ws, 4);
    match o {
        EditOutcome::Error { index, error, message, .. } => {
            assert_eq!(index, 4);
            assert_eq!(error, "file_not_found");
            assert_eq!(message, "File not found: gone.txt");
        }
        _ => panic!("expected error"),
    }
    let o = Edit::Replace { path: "bin".to_string(), search: "a".to_string(), replace: "b".to_string() }.apply(&mut ws, 0);
    match o {
        EditOutcome::Error { error, message, .. } => {
            assert_eq!(error, "read_error");
            assert_eq!(message, "Failed to read file: bin - invalid UTF-8");
        }
        _ => panic!("expected error"),
    }
    let e = Edit::DeleteLines { path: "x".to_string(), start_line: 1, end_line: 2 };
    assert_eq!(e.path(), "x");
    assert_eq!(e.kind_name(), "delete_lines");
    assert_eq!(text(&ws, "x"), None);
}

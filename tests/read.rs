use apply_edits::read::{
    add_line_numbers, format_bytes, format_for_prompt, read_file_with_line_numbers,
    FileReadResult, MultiFileReadResult,
};
use apply_edits::workspace::{FileState, Workspace};
use apply_edits::{format_files_for_prompt, read_file, read_files};

#[test]
fn test_add_line_numbers() {
    let content = "line1\nline2\nline3";
    let result = add_line_numbers(content, 100);
    assert!(result.contains("1 | line1"));
    assert!(result.contains("2 | line2"));
    assert!(result.contains("3 | line3"));
}

#[test]
fn test_add_line_numbers_padding() {
    let content = (1..=12).map(|i| format!("line{}", i)).collect::<Vec<_>>().join("\n");
    let result = add_line_numbers(&content, 100);
    assert!(result.contains(" 1 | line1"));
    assert!(result.contains("10 | line10"));
    assert!(result.contains("12 | line12"));
}

#[test]
fn test_add_line_numbers_truncation() {
    let content = (1..=100).map(|i| format!("line{}", i)).collect::<Vec<_>>().join("\n");
    let result = add_line_numbers(&content, 10);
    assert!(result.contains("1 | line1"));
    assert!(result.contains("10 | line10"));
    assert!(result.contains("... (90 more lines)"));
    assert!(!result.contains("line11"));
}

#[test]
fn test_read_file_with_line_numbers() {
    let state = FileState::Text("line1\nline2\nline3\n".to_string());
    let result = read_file_with_line_numbers("test.txt", state, Some(100));
    assert!(result.exists);
    assert_eq!(result.lines, Some(3));
    assert!(result.content_with_line_numbers.is_some());
    let content = result.content_with_line_numbers.unwrap();
    assert!(content.contains("1 | line1"));
    assert!(content.contains("3 | line3"));
}

#[test]
fn test_read_file_not_exists() {
    let result = read_file_with_line_numbers("nonexistent.txt", FileState::Missing, None);
    assert!(!result.exists);
    assert!(result.content.is_none());
}

#[test]
fn test_format_for_prompt() {
    let results = MultiFileReadResult {
        files: vec![
            FileReadResult {
                path: "src/main.rs".to_string(),
                exists: true,
                lines: Some(10),
                bytes: Some(200),
                truncated: Some(false),
                content: Some("fn main() {}".to_string()),
                content_with_line_numbers: Some("1 | fn main() {}".to_string()),
                error: None,
            },
            FileReadResult {
                path: "new_file.rs".to_string(),
                exists: false,
                lines: None,
                bytes: None,
                truncated: None,
                content: None,
                content_with_line_numbers: None,
                error: None,
            },
        ],
    };
    let output = format_for_prompt(&results);
    assert!(output.contains("### src/main.rs (10 lines)"));
    assert!(output.contains("```rs"));
    assert!(output.contains("1 | fn main()"));
    assert!(output.contains("### new_file.rs"));
    assert!(output.contains("will be created"));
}

#[test]
fn read_results_describe_text_and_errors() {
    let r = read_file_with_line_numbers("a.txt", FileState::Text("é\nb\nc".to_string()), Some(2));
    assert_eq!(r.lines, Some(3));
    assert_eq!(r.bytes, Some(6));
    assert_eq!(r.truncated, Some(true));
    assert_eq!(r.content, Some("é\nb".to_string()));
    assert_eq!(r.content_with_line_numbers, Some("1 | é\n2 | b\n... | ... (1 more lines)".to_string()));
    let u = read_file_with_line_numbers("b.bin", FileState::Unreadable("bad utf-8".to_string()), None);
    assert!(u.exists);
    assert_eq!(u.error, Some("bad utf-8".to_string()));
    let out = format_files_for_prompt(&MultiFileReadResult { files: vec![u] });
    assert_eq!(out, "### b.bin ()\n\n*Error reading file: bad utf-8*\n\n");
}

#[test]
fn read_files_through_workspace() {
    let mut ws = Workspace::new();
    ws.set("x.py", FileState::Text("a\n".to_string()));
    let rs = read_files(&ws, &vec!["x.py".to_string(), "y.py".to_string()], None);
    assert_eq!(rs.files.len(), 2);
    assert!(rs.files[0].exists);
    assert!(!rs.files[1].exists);
    let out = format_files_for_prompt(&rs);
    assert!(out.contains("### x.py (1 lines)\n\n```py\n1 | a\n\n```\n\n"));
    let one = read_file(&ws, "x.py", Some(5));
    assert_eq!(one.content, Some("a".to_string()));
}

#[test]
fn line_numbers_keep_trailing_newline() {
    assert_eq!(add_line_numbers("a\n", 10), "1 | a\n");
    assert_eq!(add_line_numbers("", 10), "");
}

#[test]
fn byte_counts_for_people() {
    assert_eq!(format_bytes(512), "512 B");
    assert_eq!(format_bytes(1536), "1.5 KB");
    assert_eq!(format_bytes(1024 * 1024 * 3), "3.0 MB");
    assert_eq!(format_bytes(1024 + 51), "1.0 KB");
    assert_eq!(format_bytes(1024 + 52), "1.1 KB");
}

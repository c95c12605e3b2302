use apply_edits::edits::Edit;
use apply_edits::outcome::EditOutcome;
use apply_edits::transaction::{apply_edits, apply_edits_with_options, apply_with_transaction, EditTransaction};
use apply_edits::workspace::{FileState, Workspace};
use apply_edits::{group_edits_by_file, should_use_batch_optimization};

fn text(ws: &Workspace, p: &str) -> Option<String> {
    match ws.get(p) {
        FileState::Text(t) => Some(t),
        _ => None,
    }
}

fn start() -> Workspace {
    let mut ws = Workspace::new();
    ws.set("a.txt", FileState::Text("hello\n".to_string()));
    ws
}

fn batch() -> Vec<Edit> {
    vec![
        Edit::Replace { path: "a.txt".to_string(), search: "hello".to_string(), replace: "bye".to_string() },
        Edit::Create { path: "b.txt".to_string(), content: "new".to_string() },
        Edit::Replace { path: "a.txt".to_string(), search: "zzz".to_string(), replace: "q".to_string() },
        Edit::Append { path: "a.txt".to_string(), content: "end".to_string() },
    ]
}

#[test]
fn atomic_failure_restores_every_file() {
    let (r, ws) = apply_edits(start(), &batch());
    assert!(!r.success);
    assert_eq!(r.edits.len(), 3);
    assert_eq!(r.applied, 2);
    assert_eq!(r.failed, 1);
    assert_eq!(text(&ws, "a.txt"), Some("hello\n".to_string()));
    assert!(matches!(ws.get("b.txt"), FileState::Missing));
}

#[test]
fn partial_mode_tries_every_edit() {
    let edits = batch();
    let (r, ws) = apply_edits_with_options(start(), &edits, false, true);
    assert_eq!(r.edits.len(), edits.len());
    assert_eq!(r.applied + r.failed, edits.len());
    assert_eq!((r.applied, r.failed), (3, 1));
    assert!(!r.success);
    assert_eq!(text(&ws, "a.txt"), Some("bye\nend".to_string()));
    assert_eq!(text(&ws, "b.txt"), Some("new".to_string()));
}

#[test]
fn dry_run_changes_nothing() {
    let edits = batch();
    let (r, ws) = apply_with_transaction(start(), &edits, true, false);
    assert_eq!(r.edits.len(), 4);
    assert_eq!(r.failed, 1);
    assert_eq!(text(&ws, "a.txt"), Some("hello\n".to_string()));
    assert!(matches!(ws.get("b.txt"), FileState::Missing));
    match &r.edits[0] {
        EditOutcome::Success { message, .. } => {
            assert_eq!(message.as_deref(), Some("Replaced 1 occurrence (line 1) (dry-run)"))
        }
        _ => panic!("expected success"),
    }
}

#[test]
fn all_succeed_atomically() {
    let edits = vec![
        Edit::ReplaceAll { path: "a.txt".to_string(), search: "l".to_string(), replace: "L".to_string() },
        Edit::InsertBefore { path: "a.txt".to_string(), anchor: "heLLo".to_string(), content: "top".to_string() },
    ];
    let (r, ws) = apply_edits(start(), &edits);
    assert!(r.success);
    assert_eq!(r.applied, 2);
    assert_eq!(text(&ws, "a.txt"), Some("top\nheLLo\n".to_string()));
}

#[test]
fn replace_all_scenario_reports_three() {
    let mut ws = Workspace::new();
    ws.set("test.txt", FileState::Text("foo bar foo baz foo".to_string()));
    let edits = vec![Edit::ReplaceAll { path: "test.txt".to_string(), search: "foo".to_string(), replace: "qux".to_string() }];
    let (r, ws) = apply_edits(ws, &edits);
    assert!(r.success);
    assert_eq!(text(&ws, "test.txt"), Some("qux bar qux baz qux".to_string()));
    match &r.edits[0] {
        EditOutcome::Success { message, .. } => assert_eq!(message.as_deref(), Some("Replaced 3 occurrence(s)")),
        _ => panic!("expected success"),
    }
}

#[test]
fn delete_match_without_matches_warns() {
    let mut ws = Workspace::new();
    ws.set("test.txt", FileState::Text("line1\nline2\n".to_string()));
    let edits = vec![Edit::DeleteMatch { path: "test.txt".to_string(), search: "nonexistent".to_string() }];
    let (r, ws) = apply_edits(ws, &edits);
    assert!(r.success);
    assert_eq!(r.applied, 1);
    match &r.edits[0] {
        EditOutcome::Warning { warning, message, .. } => {
            assert_eq!(warning, "No matching lines found");
            assert!(message.contains("nothing deleted"));
        }
        _ => panic!("expected a warning"),
    }
    assert_eq!(text(&ws, "test.txt"), Some("line1\nline2\n".to_string()));
}

#[test]
fn delete_lines_boundaries_in_a_batch() {
    let mut ws = Workspace::new();
    ws.set("a", FileState::Text("x\ny\nz\n".to_string()));
    ws.set("b", FileState::Text("line1\nline2\nline3\n".to_string()));
    ws.set("c", FileState::Text("p\nq".to_string()));
    let edits = vec![
        Edit::DeleteLines { path: "a".to_string(), start_line: 1, end_line: 3 },
        Edit::DeleteLines { path: "b".to_string(), start_line: 2, end_line: 3 },
        Edit::InsertAtLine { path: "c".to_string(), line: 3, content: "r".to_string() },
        Edit::InsertAtLine { path: "c".to_string(), line: 0, content: "r".to_string() },
    ];
    let (r, ws) = apply_edits_with_options(ws, &edits, false, true);
    assert_eq!(text(&ws, "a"), Some("".to_string()));
    assert_eq!(text(&ws, "b"), Some("line1\n".to_string()));
    assert_eq!(text(&ws, "c"), Some("p\nq\nr".to_string()));
    match &r.edits[3] {
        EditOutcome::Error { error, .. } => assert_eq!(error, "invalid_edit"),
        _ => panic!("line 0 must fail"),
    }
}

#[test]
fn transaction_rollback_and_commit() {
    let mut t = EditTransaction::begin(start());
    t.backup_file("a.txt");
    let o = t.apply_edit(&Edit::DeleteFile { path: "a.txt".to_string() }, 0, false);
    assert!(o.is_success());
    let o = t.apply_edit(&Edit::Create { path: "n.txt".to_string(), content: "x".to_string() }, 1, false);
    assert!(o.is_success());
    let ws = t.rollback();
    assert_eq!(text(&ws, "a.txt"), Some("hello\n".to_string()));
    assert!(matches!(ws.get("n.txt"), FileState::Missing));
    let mut t = EditTransaction::begin(start());
    t.apply_edit(&Edit::Prepend { path: "a.txt".to_string(), content: "x".to_string() }, 0, false);
    let ws = t.commit();
    assert_eq!(text(&ws, "a.txt"), Some("x\nhello\n".to_string()));
}

#[test]
fn simulate_predicts_without_writing() {
    let t = EditTransaction::begin(start());
    let o = t.simulate_edit(&Edit::DeleteFile { path: "missing".to_string() }, 2);
    assert!(o.is_success());
    let o = t.simulate_edit(&Edit::Replace { path: "a.txt".to_string(), search: "".to_string(), replace: "x".to_string() }, 3);
    assert!(!o.is_success());
}

#[test]
fn batching_helpers() {
    let edits = batch();
    assert!(should_use_batch_optimization(&edits));
    let two: Vec<Edit> = batch().into_iter().take(2).collect();
    assert!(!should_use_batch_optimization(&two));
    let groups = group_edits_by_file(&edits);
    assert_eq!(groups.len(), 2);
    assert_eq!(groups[0].0, "a.txt");
    assert_eq!(groups[0].1, vec![0, 2, 3]);
    assert_eq!(groups[1].0, "b.txt");
    assert_eq!(groups[1].1, vec![1]);
}

use silences::history::{InverseOp, ToolHistory, ToolOutcome};

type Undo = Box<dyn Fn() -> Result<String, String>>;

fn op(description: &str, out: &'static str) -> InverseOp<Undo> {
    InverseOp::new(description.to_string(), Box::new(move || Ok(out.to_string())) as Undo)
}

#[test]
fn test_tool_outcome_new() {
    let outcome = ToolOutcome::<Undo>::new("hello");
    assert_eq!(outcome.summary, "hello");
    assert!(outcome.inverse.is_none());
    assert!(!outcome.rollback);
    assert!(outcome.approval_pending.is_none());
    assert!(outcome.inject_messages.is_empty());
    assert!(!outcome.defer_rollback);
}

#[test]
fn test_inverse_op_new_and_apply() {
    let op = InverseOp::new("test undo".into(), || Ok::<String, String>("result".into()));
    assert_eq!(op.description, "test undo");
    assert_eq!(op.apply().unwrap(), "result");
}

#[test]
fn test_inverse_op_apply_error() {
    let op = InverseOp::new("failing".into(), || {
        Err::<String, String>("something went wrong".to_string())
    });
    let err = op.apply().unwrap_err();
    assert!(err.to_string().contains("something went wrong"));
}

#[test]
fn test_new_history_empty() {
    let mut history: ToolHistory<Undo> = ToolHistory::new(5);
    assert!(!history.can_undo());
    assert!(history.undo().is_err());
}

#[test]
fn test_push_and_undo_lifo() {
    let mut history: ToolHistory<Undo> = ToolHistory::new(10);
    history.push("read", op("undo read", "done"));
    history.push("edit", op("undo edit", "done"));

    assert!(history.can_undo());
    assert_eq!(history.undo().unwrap(), "[UNDO] edit: done");
    assert_eq!(history.undo().unwrap(), "[UNDO] read: done");
    assert!(!history.can_undo());
}

#[test]
fn test_push_respects_max_size() {
    let mut history: ToolHistory<Undo> = ToolHistory::new(2);
    history.push("a", op("a", "a_out"));
    history.push("b", op("b", "b_out"));
    history.push("c", op("c", "c_out"));

    assert_eq!(history.undo().unwrap(), "[UNDO] c: c_out");
    assert_eq!(history.undo().unwrap(), "[UNDO] b: b_out");
    assert!(history.undo().is_err());
}

#[test]
fn test_can_undo_reflects_state() {
    let mut history: ToolHistory<Undo> = ToolHistory::new(3);
    assert!(!history.can_undo());

    history.push("x", op("x", ""));
    assert!(history.can_undo());

    history.undo().unwrap();
    assert!(!history.can_undo());
}

#[test]
fn test_undo_on_empty_error_message() {
    let mut history: ToolHistory<Undo> = ToolHistory::new(3);
    let err = history.undo().unwrap_err();
    assert!(err.to_string().contains("没有可撤销的操作"));
}

#[test]
fn test_entries_empty() {
    let history: ToolHistory<Undo> = ToolHistory::new(5);
    assert!(history.entries().is_empty());
}

#[test]
fn test_entries_returns_items() {
    let mut history: ToolHistory<Undo> = ToolHistory::new(5);
    history.push("edit", op("edit on foo.rs", "ok"));
    history.push("write", op("write bar.py", "ok"));
    let entries = history.entries();
    assert_eq!(entries.len(), 2);
    assert_eq!(entries[0].0, "edit");
    assert_eq!(entries[0].1.description, "edit on foo.rs");
    assert_eq!(entries[1].0, "write");
    assert_eq!(entries[1].1.description, "write bar.py");
}

#[test]
fn test_entries_not_affected_by_undo() {
    let mut history: ToolHistory<Undo> = ToolHistory::new(5);
    history.push("edit", op("edit", "ok"));
    history.push("write", op("write", "ok"));
    history.undo().unwrap();
    assert_eq!(history.entries().len(), 1);
    assert_eq!(history.entries()[0].0, "edit");
}

#[test]
fn undo_passes_the_action_error_through() {
    let mut history: ToolHistory<Undo> = ToolHistory::new(2);
    history.push("w", InverseOp::new("w".into(), Box::new(|| Err("disk full".to_string())) as Undo));
    assert_eq!(history.undo().unwrap_err(), "disk full");
    assert!(!history.can_undo());
}

#[test]
fn zero_capacity_still_keeps_the_last_entry() {
    let mut history: ToolHistory<Undo> = ToolHistory::new(0);
    history.push("a", op("a", "1"));
    history.push("b", op("b", "2"));
    assert_eq!(history.entries().len(), 1);
    assert_eq!(history.undo().unwrap(), "[UNDO] b: 2");
}

#[test]
fn regret_listing_most_recent_first() {
    let mut history: ToolHistory<Undo> = ToolHistory::new(5);
    assert_eq!(history.listing(), "regret: 当前无可撤销的操作。");
    history.push("edit", op("edit on foo.rs", "ok"));
    history.push("write", op("write bar.py", "ok"));
    assert_eq!(
        history.listing(),
        "regret: 2 条可撤销操作（最近操作在前）:\n2. [write] write bar.py\n1. [edit] edit on foo.rs"
    );
}

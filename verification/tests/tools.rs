use silences::checkpoint_stack::CheckpointStack;
use silences::history::ToolOutcome;
use silences::queue::TaskQueue;
use silences::settings::{parse_unsigned, startup_settings};
use silences::surgery::{normalize_messages, RawMessage};
use silences::task_tools::{add_task, create_checkpoint, end_task, list_checkpoints, rollback_checkpoint, start_task};

type Undo = Box<dyn Fn() -> Result<String, String>>;

#[test]
fn add_and_start_task() {
    let mut q = TaskQueue::new();
    let o: ToolOutcome<Undo> = add_task(&mut q, Some("t1"), Some("do it"));
    assert_eq!(o.summary, "[添加任务] t1: do it");
    let s: ToolOutcome<Undo> = start_task(&mut q, Some("t1"), Some("do it"));
    assert_eq!(s.summary, "[开始任务] t1: do it (队列已空)");
    assert!(q.has_active());
    let missing: ToolOutcome<Undo> = start_task(&mut q, Some("nope"), None);
    assert_eq!(missing.summary, "[start_task] 错误: 队列中不存在任务 \"nope\"。可能已被移除或从未添加。可用 add_task 先添加。");
}

#[test]
fn add_task_defaults() {
    let mut q = TaskQueue::new();
    let o: ToolOutcome<Undo> = add_task(&mut q, None, None);
    assert_eq!(o.summary, "[添加任务] unknown: ");
}

#[test]
fn end_task_completes_and_asks_for_rollback() {
    let mut q = TaskQueue::new();
    q.add("t".into(), "T".into());
    let o: ToolOutcome<Undo> = end_task(&mut q, Some("t"), Some("ok"));
    assert_eq!(o.summary, "[完成任务] t: ok");
    assert!(o.rollback && o.defer_rollback);
    assert_eq!(o.inject_messages.len(), 1);
    assert_eq!(o.inject_messages[0].name.as_deref(), Some("orch"));
    assert_eq!(o.inject_messages[0].content, "任务 t 已完成。只更新 CONTEXT.md，记录完成进度，输出一个对本轮已完成工作的简要总结，然后停下。");
    assert_eq!(q.completed_list()[0].id, "t");
}

#[test]
fn checkpoints_through_the_tools() {
    let mut s = CheckpointStack::new();
    let a: ToolOutcome<Undo> = create_checkpoint(&mut s, Some("c1"), Some("first"));
    assert_eq!(a.summary, "✅ 已创建检查点 c1: first");
    let dup: ToolOutcome<Undo> = create_checkpoint(&mut s, Some("c1"), Some("again"));
    assert_eq!(dup.summary, "❌ 检查点 \"c1\" 已存在，请使用不同的 ID");
    assert_eq!(s.len(), 1);
    let l: ToolOutcome<Undo> = list_checkpoints(&s);
    assert_eq!(l.summary, "📋 当前检查点（可在 rollback 中使用加粗的 ID）：\n1. **c1**: first");
    let bad: ToolOutcome<Undo> = rollback_checkpoint(&mut s, Some("zz"));
    assert_eq!(bad.summary, "❌ 回滚失败：检查点 \"zz\" 不存在");
    assert!(!bad.rollback);
    let ok: ToolOutcome<Undo> = rollback_checkpoint(&mut s, Some("c1"));
    assert_eq!(ok.summary, "回滚中");
    assert!(ok.rollback && ok.defer_rollback);
    assert_eq!(ok.inject_messages[0].content, "已回滚到检查点 `c1`。请更新 CONTEXT.md 记录已完成的工作进度，确保反映当前状态。放下当前任务，然后输出对本轮工作的简要总结。");
}

#[test]
fn parse_unsigned_follows_str_parse() {
    for s in ["0", "+7", "255", "256", "", "+", "-1", " 1", "12a", "00042"] {
        assert_eq!(parse_unsigned(s, 255), s.parse::<u8>().ok().map(u64::from), "{s:?}");
    }
    for s in ["18446744073709551615", "18446744073709551616", "99999999999999999999"] {
        assert_eq!(parse_unsigned(s, u64::MAX), s.parse::<u64>().ok(), "{s:?}");
    }
}

#[test]
fn startup_settings_defaults() {
    let d = startup_settings(None, None, None);
    assert_eq!((d.tool_delay_ms, d.warmup_enabled, d.auto_collapse_prev), (0, true, true));
    let s = startup_settings(Some("250"), Some("0"), Some("x"));
    assert_eq!((s.tool_delay_ms, s.warmup_enabled, s.auto_collapse_prev), (250, false, true));
}

fn raw(role: Option<&str>, content: Option<&str>) -> RawMessage {
    RawMessage {
        role: role.map(String::from),
        content: content.map(String::from),
        name: None,
        reasoning_content: None,
        tool_calls: None,
        tool_call_id: None,
    }
}

#[test]
fn normalize_fixes_null_content_and_reasoning() {
    let msgs = normalize_messages(vec![raw(Some("user"), None), raw(Some("assistant"), Some("hi"))]);
    assert_eq!(msgs.len(), 2);
    assert_eq!(msgs[0].content, "");
    assert!(msgs[0].reasoning_content.is_none());
    assert_eq!(msgs[1].reasoning_content, Some("".into()));
}

#[test]
fn normalize_drops_entries_without_role_and_empty_calls() {
    let mut with_calls = raw(Some("assistant"), Some("ok"));
    with_calls.tool_calls = Some(vec![]);
    let msgs = normalize_messages(vec![raw(None, Some("no role")), with_calls]);
    assert_eq!(msgs.len(), 1);
    assert!(msgs[0].tool_calls.is_none());
}

fn tool_call(id: &str, name: &str, arguments: &str) -> silences::message::ToolCallValue {
    silences::message::ToolCallValue {
        id: id.into(),
        call_type: "function".into(),
        function: silences::message::ToolCallFunction { name: name.into(), arguments: arguments.into() },
    }
}

#[test]
fn test_normalize_fixes_null_content() {
    // [{"role": "user", "content": null}, {"role": "assistant", "content": "hi", "reasoning_content": null}]
    let msgs = normalize_messages(vec![raw(Some("user"), None), raw(Some("assistant"), Some("hi"))]);
    assert_eq!(msgs.len(), 2);
    assert_eq!(msgs[0].content, "");
    assert_eq!(msgs[1].reasoning_content, Some("".into()));
}

#[test]
fn test_normalize_removes_empty_tool_calls() {
    // [{"role": "assistant", "content": "ok", "tool_calls": []}]
    let mut m = raw(Some("assistant"), Some("ok"));
    m.tool_calls = Some(vec![]);
    let msgs = normalize_messages(vec![m]);
    assert_eq!(msgs.len(), 1);
    assert!(msgs[0].tool_calls.is_none());
}

#[test]
fn test_normalize_keeps_valid_tool_calls() {
    let mut m = raw(Some("assistant"), Some(""));
    m.tool_calls = Some(vec![tool_call("c1", "read", "{}")]);
    let msgs = normalize_messages(vec![m]);
    assert_eq!(msgs.len(), 1);
    assert!(msgs[0].tool_calls.is_some());
}

#[test]
fn test_normalize_skips_no_role() {
    // [{"content": "no role here"}]
    let msgs = normalize_messages(vec![raw(None, Some("no role here"))]);
    assert!(msgs.is_empty());
}

#[test]
fn test_normalize_fills_missing_reasoning_for_assistant() {
    let msgs = normalize_messages(vec![raw(Some("assistant"), Some("hello"))]);
    assert_eq!(msgs[0].reasoning_content, Some("".into()));
}

#[test]
fn test_normalize_does_not_change_user_reasoning() {
    let msgs = normalize_messages(vec![raw(Some("user"), Some("hello"))]);
    assert!(msgs[0].reasoning_content.is_none());
}

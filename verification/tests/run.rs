use silences::events::{AgentEvent, UsageCounts};
use silences::message::Message;
use silences::run::{Effect, RunState};
use silences::sse::StreamDelta;

fn usage(i: u32, o: u32) -> UsageCounts {
    UsageCounts { input_tokens: i, output_tokens: o, cache_hit_tokens: 0, cache_miss_tokens: i }
}

#[test]
fn text_round_ends_the_run() {
    let mut run = RunState::new(vec![Message::new_user("user", "hello")], true);
    let e = run.begin_round();
    assert_eq!(e.len(), 1);
    assert!(matches!(e[0], Effect::Snapshot));
    let e = run.on_delta(StreamDelta::Text("hi".to_string()));
    assert!(matches!(&e[..], [Effect::Offer(AgentEvent::Text(t))] if t == "hi"));
    let (e, done) = run.finish_stream(Some(usage(10, 2)));
    assert!(done);
    assert_eq!(e.len(), 5);
    assert!(matches!(&e[0], Effect::Save(m) if m.role == "assistant" && m.content == "hi" && m.reasoning_content.is_none()));
    assert!(matches!(&e[1], Effect::Emit(AgentEvent::Usage(u)) if u.input_tokens == 10 && u.output_tokens == 2));
    assert!(matches!(&e[2], Effect::SaveUsage(u) if u.input_tokens == 10));
    assert!(matches!(e[3], Effect::Snapshot));
    assert!(matches!(e[4], Effect::End));
    assert_eq!(run.messages().len(), 2);
    assert_eq!(run.total().map(|u| u.input_tokens), Some(10));
}

#[test]
fn usage_adds_up_over_rounds() {
    let mut run = RunState::new(Vec::new(), false);
    run.begin_round();
    run.on_delta(StreamDelta::ToolCall { index: 0, id: None, name: Some("glance".into()), arguments: "{}".into() });
    let (_, done) = run.finish_stream(Some(usage(5, 1)));
    assert!(!done);
    run.end_round();
    run.begin_round();
    let (e, done) = run.finish_stream(Some(usage(7, 3)));
    assert!(done);
    assert!(matches!(&e[0], Effect::Emit(AgentEvent::Usage(u)) if u.input_tokens == 12 && u.output_tokens == 4));
    assert!(matches!(e[1], Effect::End));
    assert_eq!(e.len(), 2);
}

#[test]
fn tool_round_answers_each_call() {
    let mut run = RunState::new(Vec::new(), true);
    run.begin_round();
    run.on_delta(StreamDelta::ToolCall {
        index: 0,
        id: Some("c1".into()),
        name: Some("rollback".into()),
        arguments: "{\"checkpoint_id\"".into(),
    });
    run.on_delta(StreamDelta::ToolCall { index: 0, id: None, name: None, arguments: ":\"a\"}".into() });
    let (e, done) = run.finish_stream(None);
    assert!(!done);
    assert_eq!(e.len(), 1);
    assert!(matches!(&e[0], Effect::Save(m) if m.role == "assistant"
        && m.tool_calls.as_ref().map(|c| c.len()) == Some(1)));
    assert_eq!(run.call_count(), 1);
    let (e, info) = run.begin_call(0);
    let info = info.expect("named call");
    assert_eq!(info.id, "c1");
    assert_eq!(info.name, "rollback");
    assert_eq!(info.args, "{\"checkpoint_id\":\"a\"}");
    assert!(matches!(&e[..], [Effect::Offer(AgentEvent::ToolCall { result: None, .. })]));
    let e = run.call_done(&info, "回滚中", vec![Message::new_user("orch", "请更新 CONTEXT.md")], Some("/s"));
    assert_eq!(e.len(), 3);
    assert!(matches!(&e[0], Effect::Offer(AgentEvent::ToolCall { result: Some(r), .. }) if r == "回滚中"));
    assert!(matches!(&e[1], Effect::Save(m) if m.role == "tool" && m.tool_call_id.as_deref() == Some("c1")));
    assert!(matches!(&e[2], Effect::Save(m) if m.content == "请更新 /s/CONTEXT.md"));
    let msgs = run.messages();
    assert_eq!(msgs.len(), 3);
    assert_eq!(msgs[0].tool_calls.as_ref().unwrap()[0].id, msgs[1].tool_call_id.clone().unwrap());
    let e = run.end_round();
    assert!(matches!(&e[..], [Effect::Emit(AgentEvent::MessageBoundary)]));
    assert_eq!(run.round(), 1);
}

#[test]
fn nameless_call_and_failures() {
    let mut run = RunState::new(Vec::new(), false);
    run.begin_round();
    run.on_delta(StreamDelta::ToolCall { index: 0, id: None, name: None, arguments: "{}".into() });
    run.on_delta(StreamDelta::ToolCall { index: 1, id: None, name: Some("read".into()), arguments: "x".into() });
    run.finish_stream(None);
    let (e, info) = run.begin_call(0);
    assert!(info.is_none());
    assert!(matches!(&e[..], [Effect::Emit(AgentEvent::Error(m))] if m == "工具调用缺少 name"));
    let (_, info) = run.begin_call(1);
    let info = info.unwrap();
    assert_eq!(info.id, "call_0");
    let e = run.call_invalid_args(&info, "expected value");
    assert!(matches!(&e[..], [Effect::Emit(AgentEvent::ToolCall { result: Some(r), .. })] if r == "解析 read 参数失败: expected value"));
    let e = run.call_failed(&info, "boom");
    assert!(matches!(&e[..], [Effect::Emit(AgentEvent::ToolCall { result: Some(r), .. })] if r == "read 执行失败: boom"));
    let e = run.call_stopped(&info);
    assert!(matches!(&e[..], [Effect::Emit(AgentEvent::ToolCall { result: Some(r), .. })] if r == "已停止"));
}

#[test]
fn disconnected_client_gets_no_offers() {
    let mut run = RunState::new(Vec::new(), false);
    run.begin_round();
    run.client_gone();
    assert!(run.on_delta(StreamDelta::Reasoning("think".into())).is_empty());
    let e = run.stop(true);
    assert_eq!(e.len(), 2);
    assert!(matches!(&e[0], Effect::Emit(AgentEvent::Error(m)) if m == "已停止"));
    assert!(matches!(e[1], Effect::End));
    assert!(matches!(&run.llm_failed("x")[0], Effect::Emit(AgentEvent::Error(m)) if m == "LLM 调用失败: x"));
    assert!(matches!(&run.stream_failed("y")[0], Effect::Emit(AgentEvent::Error(m)) if m == "流式读取失败: y"));
}

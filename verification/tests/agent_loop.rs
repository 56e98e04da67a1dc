use silences::agent::{
    args_error_text, auto_task_id, auto_task_message, condition_met, context_messages, default_id,
    inject_context_path, is_new_session, round_message, tool_error_text, wait_check_prompt,
    BlockingRun, ToolCallAccumulator,
};
use silences::events::{
    accumulate_usage, agent_event_to_sse, needs_context_sync, parse_usage, surgery_event_to_sse,
    AgentEvent, SseEvent, UsageCounts, UsageFields, WarmupInfo,
};
use silences::message::{Message, ToolCallFunction, ToolCallValue};

fn usage(i: u32, o: u32, h: u32, m: u32) -> UsageCounts {
    UsageCounts { input_tokens: i, output_tokens: o, cache_hit_tokens: h, cache_miss_tokens: m }
}

fn fields() -> UsageFields {
    UsageFields {
        input_tokens: None,
        prompt_tokens: None,
        output_tokens: None,
        completion_tokens: None,
        prompt_cache_hit_tokens: None,
        cached_tokens: None,
        prompt_cache_miss_tokens: None,
    }
}

#[test]
fn parse_usage_new_names() {
    let f = UsageFields {
        input_tokens: Some(Some(1500)),
        output_tokens: Some(Some(300)),
        prompt_cache_hit_tokens: Some(1200),
        prompt_cache_miss_tokens: Some(300),
        ..fields()
    };
    let u = parse_usage(&f);
    assert_eq!(u.input_tokens, 1500);
    assert_eq!(u.output_tokens, 300);
    assert_eq!(u.cache_hit_tokens, 1200);
    assert_eq!(u.cache_miss_tokens, 300);
}

#[test]
fn parse_usage_old_names() {
    let f = UsageFields {
        prompt_tokens: Some(500),
        completion_tokens: Some(100),
        prompt_cache_hit_tokens: Some(400),
        prompt_cache_miss_tokens: Some(100),
        ..fields()
    };
    let u = parse_usage(&f);
    assert_eq!(u.input_tokens, 500);
    assert_eq!(u.cache_hit_tokens, 400);
}

#[test]
fn parse_usage_cached_details() {
    let f = UsageFields {
        prompt_tokens: Some(1500),
        completion_tokens: Some(300),
        cached_tokens: Some(1000),
        ..fields()
    };
    let u = parse_usage(&f);
    assert_eq!(u.input_tokens, 1500);
    assert_eq!(u.cache_hit_tokens, 1000);
    assert_eq!(u.cache_miss_tokens, 500);
}

#[test]
fn parse_usage_no_cache() {
    let f = UsageFields { input_tokens: Some(Some(500)), output_tokens: Some(Some(100)), ..fields() };
    let u = parse_usage(&f);
    assert_eq!(u.cache_hit_tokens, 0);
    assert_eq!(u.cache_miss_tokens, 500);
}

#[test]
fn parse_usage_new_key_of_wrong_type_hides_old_key() {
    let f = UsageFields { input_tokens: Some(None), prompt_tokens: Some(7), ..fields() };
    assert_eq!(parse_usage(&f).input_tokens, 0);
}

#[test]
fn accumulate_usage_adds_fieldwise() {
    let a = accumulate_usage(None, usage(1, 2, 3, 4));
    assert_eq!(a.input_tokens, 1);
    let b = accumulate_usage(Some(a), usage(10, 20, 30, 40));
    assert_eq!(
        (b.input_tokens, b.output_tokens, b.cache_hit_tokens, b.cache_miss_tokens),
        (11, 22, 33, 44)
    );
}

#[test]
fn accumulate_usage_grouping_does_not_matter() {
    let (x, y, z) = (usage(1, 2, 3, 4), usage(5, 6, 7, 8), usage(9, 10, 11, 12));
    let left = accumulate_usage(Some(accumulate_usage(Some(x), y)), z);
    let right = accumulate_usage(Some(x), accumulate_usage(Some(y), z));
    assert_eq!(left.input_tokens, right.input_tokens);
    assert_eq!(left.cache_miss_tokens, right.cache_miss_tokens);
}

#[test]
fn warmup_info_from_usage() {
    let w = WarmupInfo::from_usage(Some(usage(100, 1, 60, 40)));
    assert_eq!((w.total_tokens, w.cache_hit_tokens, w.cache_miss_tokens), (100, 60, 40));
    let z = WarmupInfo::from_usage(None);
    assert_eq!((z.total_tokens, z.cache_hit_tokens, z.cache_miss_tokens), (0, 0, 0));
}

#[test]
fn agent_events_map_to_their_namesakes() {
    assert!(matches!(agent_event_to_sse(AgentEvent::Text("hello".into())), SseEvent::Text { content } if content == "hello"));
    assert!(matches!(agent_event_to_sse(AgentEvent::Session("s1".into())), SseEvent::Session { id } if id == "s1"));
    assert!(matches!(agent_event_to_sse(AgentEvent::Reasoning("r".into())), SseEvent::Reasoning { content } if content == "r"));
    assert!(matches!(agent_event_to_sse(AgentEvent::MessageBoundary), SseEvent::MessageBoundary));
    assert!(matches!(agent_event_to_sse(AgentEvent::Error("e".into())), SseEvent::Error { message } if message == "e"));
    let tc = AgentEvent::ToolCall { id: "call_1".into(), name: "search".into(), args: "{}".into(), result: Some("r".into()) };
    assert!(matches!(agent_event_to_sse(tc), SseEvent::ToolCall { id, name, .. } if id == "call_1" && name == "search"));
}

#[test]
fn surgery_events_hide_text_and_call_details() {
    assert!(surgery_event_to_sse(AgentEvent::Text("x".into())).is_none());
    assert!(surgery_event_to_sse(AgentEvent::Reasoning("x".into())).is_none());
    let tc = AgentEvent::ToolCall { id: "c".into(), name: "write".into(), args: "{..}".into(), result: Some("ok".into()) };
    match surgery_event_to_sse(tc) {
        Some(SseEvent::ToolCall { id, name, args, result }) => {
            assert_eq!(id, "");
            assert_eq!(args, "");
            assert_eq!(name, "write");
            assert_eq!(result.as_deref(), Some("ok"));
        }
        _ => panic!("expected a tool call"),
    }
    assert!(matches!(surgery_event_to_sse(AgentEvent::Paused), Some(SseEvent::Paused)));
}

#[test]
fn context_sync_after_finished_calls_other_than_wait() {
    let done = AgentEvent::ToolCall { id: "c".into(), name: "write".into(), args: "".into(), result: Some("ok".into()) };
    let running = AgentEvent::ToolCall { id: "c".into(), name: "write".into(), args: "".into(), result: None };
    let wait = AgentEvent::ToolCall { id: "c".into(), name: "wait".into(), args: "".into(), result: Some("ok".into()) };
    assert!(needs_context_sync(&done));
    assert!(!needs_context_sync(&running));
    assert!(!needs_context_sync(&wait));
    assert!(!needs_context_sync(&AgentEvent::Paused));
}

#[test]
fn accumulator_merges_pieces_in_index_order() {
    let mut acc = ToolCallAccumulator::new();
    assert!(acc.is_empty());
    acc.absorb(1, Some("id_b".into()), Some("read".into()), "{\"a\"");
    acc.absorb(0, None, Some("write".into()), "{}");
    acc.absorb(1, None, None, ":1}");
    let calls = acc.tool_calls(3);
    assert_eq!(calls.len(), 2);
    assert_eq!(calls[0].id, "call_3");
    assert_eq!(calls[0].function.name, "write");
    assert_eq!(calls[1].id, "id_b");
    assert_eq!(calls[1].function.arguments, "{\"a\":1}");
    assert_eq!(calls[1].call_type, "function");
}

#[test]
fn accumulator_missing_name_is_empty() {
    let mut acc = ToolCallAccumulator::new();
    acc.absorb(0, Some("x".into()), None, "");
    assert_eq!(acc.tool_calls(0)[0].function.name, "");
    assert_eq!(default_id(12), "call_12");
}

#[test]
fn round_message_text_only() {
    let m = round_message("hi".into(), "".into(), None).unwrap();
    assert_eq!(m.role, "assistant");
    assert_eq!(m.content, "hi");
    assert!(m.reasoning_content.is_none());
    assert!(round_message("".into(), "".into(), None).is_none());
    let r = round_message("".into(), "think".into(), None).unwrap();
    assert_eq!(r.reasoning_content.as_deref(), Some("think"));
}

#[test]
fn round_message_with_calls() {
    let call = ToolCallValue {
        id: "c".into(),
        call_type: "function".into(),
        function: ToolCallFunction { name: "f".into(), arguments: "{}".into() },
    };
    let m = round_message("".into(), "".into(), Some(vec![call])).unwrap();
    assert_eq!(m.content, "");
    assert_eq!(m.tool_calls.unwrap().len(), 1);
}

#[test]
fn failure_texts() {
    assert_eq!(args_error_text("read", "EOF"), "解析 read 参数失败: EOF");
    assert_eq!(tool_error_text("read", "boom"), "read 执行失败: boom");
    assert_eq!(wait_check_prompt("done"), "判断条件是否已经完成：done\n只输出 y 或 n。不开思考");
}

#[test]
fn condition_met_accepts_y_only() {
    assert!(condition_met("y"));
    assert!(condition_met("  Y\n"));
    assert!(!condition_met("yes"));
    assert!(!condition_met("n"));
    assert!(!condition_met(""));
}

#[test]
fn inject_context_path_rewrites_orch_messages() {
    let m = Message::new_user("orch", "更新 CONTEXT.md 吧");
    let r = inject_context_path(m, Some("/p/.silences/sessions/s"));
    assert_eq!(r.content, "更新 /p/.silences/sessions/s/CONTEXT.md 吧");
    let u = Message::new_user("user", "CONTEXT.md");
    assert_eq!(inject_context_path(u, Some("/p")).content, "CONTEXT.md");
    let o = Message::new_user("orch", "CONTEXT.md");
    assert_eq!(inject_context_path(o, None).content, "CONTEXT.md");
}

#[test]
fn new_session_detection() {
    assert!(is_new_session(&None));
    assert!(is_new_session(&Some("".into())));
    assert!(!is_new_session(&Some("s1".into())));
}

#[test]
fn context_messages_put_silences_first() {
    let h = vec![Message::new("user", "hi")];
    let r = context_messages(Some("md".into()), "/d/SILENCES.md".into(), h);
    assert_eq!(r.len(), 2);
    assert_eq!(r[0].role, "system");
    assert_eq!(r[0].name.as_deref(), Some("/d/SILENCES.md"));
    assert_eq!(r[1].content, "hi");
    let r2 = context_messages(None, "x".into(), vec![Message::new("user", "a")]);
    assert_eq!(r2.len(), 1);
}

#[test]
fn blocking_run_gathers_reply_usage_and_error() {
    let mut b = BlockingRun::new();
    b.absorb(AgentEvent::Text("Hel".into()));
    b.absorb(AgentEvent::Paused);
    b.absorb(AgentEvent::Text("lo".into()));
    b.absorb(AgentEvent::Usage(usage(1, 1, 0, 1)));
    let out = b.finish(vec![]).ok().unwrap();
    assert_eq!(out.assistant_reply, "Hello");
    assert_eq!(out.total_usage.unwrap().input_tokens, 1);
    let mut e = BlockingRun::new();
    e.absorb(AgentEvent::Error("已停止".into()));
    assert_eq!(e.finish(vec![]).err().unwrap(), "agent 错误: 已停止");
}

#[test]
fn auto_task_wraps_the_message() {
    assert_eq!(auto_task_id("abc"), "处理用户消息：abc");
    assert_eq!(auto_task_id("一二三四五六七八九十十一"), "处理用户消息：一二三四五六七八九十");
    let (m, id) = auto_task_message("fix bug");
    assert_eq!(id, "处理用户消息：fix bug");
    let calls = m.tool_calls.unwrap();
    assert_eq!(calls[0].id, "call_add");
    assert_eq!(calls[0].function.name, "add_task");
    assert_eq!(calls[0].function.arguments, "{\"description\":\"fix bug\",\"id\":\"处理用户消息：fix bug\"}");
    assert_eq!(calls[1].function.name, "start_task");
    assert_eq!(calls[1].function.arguments, "{\"description\":\"fix bug\",\"task_id\":\"处理用户消息：fix bug\"}");
}

fn usage_json(
    input: Option<u64>,
    prompt: Option<u64>,
    output: Option<u64>,
    completion: Option<u64>,
    hit: Option<u64>,
    cached: Option<u64>,
    miss: Option<u64>,
) -> UsageFields {
    UsageFields {
        input_tokens: input.map(Some),
        prompt_tokens: prompt,
        output_tokens: output.map(Some),
        completion_tokens: completion,
        prompt_cache_hit_tokens: hit,
        cached_tokens: cached,
        prompt_cache_miss_tokens: miss,
    }
}

#[test]
fn test_parse_usage_v4() {
    // {"input_tokens":1500,"output_tokens":300,"prompt_cache_hit_tokens":1200,"prompt_cache_miss_tokens":300}
    let val = usage_json(Some(1500), None, Some(300), None, Some(1200), None, Some(300));
    let u = parse_usage(&val);
    assert_eq!(u.input_tokens, 1500);
    assert_eq!(u.cache_hit_tokens, 1200);
}

#[test]
fn test_parse_usage_v4_old_names() {
    // {"prompt_tokens":500,"completion_tokens":100,"prompt_cache_hit_tokens":400,"prompt_cache_miss_tokens":100}
    let val = usage_json(None, Some(500), None, Some(100), Some(400), None, Some(100));
    let u = parse_usage(&val);
    assert_eq!(u.input_tokens, 500);
    assert_eq!(u.cache_hit_tokens, 400);
}

#[test]
fn test_parse_usage_v3() {
    // {"prompt_tokens":1500,"completion_tokens":300,"prompt_tokens_details":{"cached_tokens":1000}}
    let val = usage_json(None, Some(1500), None, Some(300), None, Some(1000), None);
    let u = parse_usage(&val);
    assert_eq!(u.input_tokens, 1500);
    assert_eq!(u.cache_hit_tokens, 1000);
}

#[test]
fn test_parse_usage_no_cache() {
    // {"input_tokens":500,"output_tokens":100}
    let val = usage_json(Some(500), None, Some(100), None, None, None, None);
    let u = parse_usage(&val);
    assert_eq!(u.cache_hit_tokens, 0);
    assert_eq!(u.cache_miss_tokens, 500);
}

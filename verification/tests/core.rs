use silences::message::{
    messages_to_view, Message, ToolCallFunction, ToolCallValue, ViewMessage, ViewToolCall,
};
use silences::session::{ChatRequest, RunFlags, Session, SessionState, Settings, ToolLimits};

fn call(id: &str, name: &str, arguments: &str) -> ToolCallValue {
    ToolCallValue {
        id: id.into(),
        call_type: "function".into(),
        function: ToolCallFunction { name: name.into(), arguments: arguments.into() },
    }
}

#[test]
fn message_new_sets_role_and_content() {
    let m = Message::new("user", "hello");
    assert_eq!(m.role, "user");
    assert_eq!(m.content, "hello");
    assert!(m.name.is_none());
    assert!(m.reasoning_content.is_none());
    assert!(m.tool_calls.is_none());
    assert!(m.tool_call_id.is_none());
}

#[test]
fn message_new_empty_strings() {
    let m = Message::new("", "");
    assert_eq!(m.role, "");
    assert_eq!(m.content, "");
}

#[test]
fn message_new_long_content() {
    let long = "a".repeat(100_000);
    let m = Message::new("user", &long);
    assert_eq!(m.content.len(), 100_000);
}

#[test]
fn message_new_user_sets_role_user_and_name() {
    let m = Message::new_user("Alice", "hi");
    assert_eq!(m.role, "user");
    assert_eq!(m.content, "hi");
    assert_eq!(m.name, Some("Alice".into()));
}

#[test]
fn message_new_user_name_none() {
    let m = Message::new_user("", "content");
    assert_eq!(m.name, Some("".into()));
}

#[test]
fn message_new_tool_call_sets_role_assistant_and_tool_calls() {
    let tc = call("call_1", "get_weather", r#"{"city":"Beijing"}"#);
    let m = Message::new_tool_call(vec![tc]);
    assert_eq!(m.role, "assistant");
    assert_eq!(m.content, "");
    assert!(m.name.is_none());
    let calls = m.tool_calls.unwrap();
    assert_eq!(calls.len(), 1);
    assert_eq!(calls[0].id, "call_1");
}

#[test]
fn message_new_tool_call_multiple() {
    let tcs = (0..5).map(|i| call(&format!("call_{}", i), "fn", "{}")).collect();
    let m = Message::new_tool_call(tcs);
    assert_eq!(m.tool_calls.unwrap().len(), 5);
}

#[test]
fn message_new_tool_call_empty_vec() {
    let m = Message::new_tool_call(vec![]);
    assert_eq!(m.role, "assistant");
    assert_eq!(m.tool_calls.unwrap().len(), 0);
}

#[test]
fn message_new_tool_result_sets_role_tool_and_tool_call_id() {
    let m = Message::new_tool_result("call_xyz", "result data");
    assert_eq!(m.role, "tool");
    assert_eq!(m.content, "result data");
    assert_eq!(m.tool_call_id, Some("call_xyz".into()));
    assert!(m.tool_calls.is_none());
}

#[test]
fn message_default_is_empty() {
    let m = Message::default();
    assert_eq!(m.role, "");
    assert_eq!(m.content, "");
    assert!(m.name.is_none());
}

#[test]
fn tool_call_value_construction() {
    let tc = call("call_1", "search", "{\"q\":\"test\"}");
    assert_eq!(tc.id, "call_1");
    assert_eq!(tc.call_type, "function");
    assert_eq!(tc.function.name, "search");
}

#[test]
fn session_construction() {
    let s = Session {
        id: "sess_1".into(),
        created_at: "2025-01-01T00:00:00Z".into(),
        preview: Some("first msg".into()),
        name: Some("my chat".into()),
    };
    assert_eq!(s.id, "sess_1");
    assert_eq!(s.name, Some("my chat".into()));
    assert_eq!(s.preview, Some("first msg".into()));
}

#[test]
fn view_message_construction() {
    let vm = ViewMessage {
        role: "assistant".into(),
        content: "hi".into(),
        reasoning_content: Some("thinking...".into()),
        tool_calls: None,
    };
    assert_eq!(vm.role, "assistant");
    assert_eq!(vm.content, "hi");
    assert_eq!(vm.reasoning_content, Some("thinking...".into()));
}

#[test]
fn view_tool_call_construction() {
    let vtc = ViewToolCall {
        name: "search".into(),
        args: r#"{"q":"x"}"#.into(),
        result: Some("found".into()),
    };
    assert_eq!(vtc.name, "search");
    assert_eq!(vtc.result, Some("found".into()));
}

#[test]
fn messages_to_view_empty() {
    let result = messages_to_view(vec![]);
    assert!(result.is_empty());
}

#[test]
fn messages_to_view_filters_tool_role() {
    let msgs = vec![
        Message::new("user", "hi"),
        Message::new("tool", "result"),
        Message::new("assistant", "hello"),
    ];
    let result = messages_to_view(msgs);
    assert_eq!(result.len(), 2);
    assert!(result.iter().all(|vm| vm.role != "tool"));
}

#[test]
fn messages_to_view_embeds_tool_result() {
    let tc = call("call_1", "get_weather", r#"{"city":"Beijing"}"#);
    let msgs = vec![
        Message::new_user("user", "weather?"),
        Message::new_tool_call(vec![tc]),
        Message::new_tool_result("call_1", "25 C"),
    ];
    let result = messages_to_view(msgs);
    assert_eq!(result.len(), 2);
    let vm = &result[1];
    assert_eq!(vm.role, "assistant");
    let tc = vm.tool_calls.as_ref().unwrap();
    assert_eq!(tc.len(), 1);
    assert_eq!(tc[0].result, Some("25 C".into()));
}

#[test]
fn messages_to_view_multiple_tool_calls_with_results() {
    let tcs: Vec<_> = (0..3)
        .map(|i| call(&format!("call_{}", i), &format!("fn_{}", i), "{}"))
        .collect();
    let mut msgs = vec![Message::new_tool_call(tcs)];
    for i in 0..3 {
        msgs.push(Message::new_tool_result(&format!("call_{}", i), &format!("res_{}", i)));
    }
    let result = messages_to_view(msgs);
    assert_eq!(result.len(), 1);
    let vm = &result[0];
    let calls = vm.tool_calls.as_ref().unwrap();
    assert_eq!(calls.len(), 3);
    for (i, call) in calls.iter().enumerate() {
        assert_eq!(call.result, Some(format!("res_{}", i)));
        assert_eq!(call.name, format!("fn_{}", i));
    }
}

#[test]
fn messages_to_view_missing_tool_call_id() {
    let tc = call("call_1", "f", "{}");
    let msgs = vec![
        Message::new_tool_call(vec![tc]),
        Message::new_tool_result("call_missing", "data"),
    ];
    let result = messages_to_view(msgs);
    assert_eq!(result.len(), 1);
    let calls = result[0].tool_calls.as_ref().unwrap();
    assert_eq!(calls.len(), 1);
    assert!(calls[0].result.is_none());
}

#[test]
fn messages_to_view_only_tool_messages_yields_empty() {
    let msgs = vec![
        Message::new_tool_result("c1", "r1"),
        Message::new_tool_result("c2", "r2"),
    ];
    let result = messages_to_view(msgs);
    assert!(result.is_empty());
}

#[test]
fn messages_to_view_takes_the_last_result_of_an_id() {
    let msgs = vec![
        Message::new_tool_call(vec![call("c1", "f", "{}")]),
        Message::new_tool_result("c1", "first"),
        Message::new_tool_result("c1", "second"),
    ];
    let result = messages_to_view(msgs);
    assert_eq!(result[0].tool_calls.as_ref().unwrap()[0].result, Some("second".into()));
}

#[test]
fn run_flags_new_starts_false() {
    let rf = RunFlags::new();
    assert!(!rf.should_stop());
    assert!(!rf.should_pause());
}

#[test]
fn run_flags_stop_lifecycle() {
    let mut rf = RunFlags::new();
    assert!(!rf.should_stop());
    rf.signal_stop();
    assert!(rf.should_stop());
}

#[test]
fn run_flags_pause_resume_lifecycle() {
    let mut rf = RunFlags::new();
    assert!(!rf.should_pause());
    rf.signal_pause();
    assert!(rf.should_pause());
    rf.signal_resume();
    assert!(!rf.should_pause());
}

#[test]
fn run_flags_stop_and_pause_independent() {
    let mut rf = RunFlags::new();
    rf.signal_stop();
    rf.signal_pause();
    assert!(rf.should_stop());
    assert!(rf.should_pause());
    rf.signal_resume();
    assert!(rf.should_stop());
    assert!(!rf.should_pause());
}

#[test]
fn tool_limits_default_values() {
    let tl = ToolLimits::default();
    assert_eq!(tl.command_stdout_max_tok, 2000);
    assert_eq!(tl.command_stderr_max_tok, 1000);
    assert_eq!(tl.glance_max_comment_lines, 20);
    assert_eq!(tl.grep_max_shown_matches, 8);
    assert_eq!(tl.grep_context_lines, 2);
    assert_eq!(tl.glance_max_shown_items, 50);
    assert_eq!(tl.find_max_shown_items, 50);
    assert_eq!(tl.edit_context_lines, 5);
}

#[test]
fn chat_request_construction() {
    let cr = ChatRequest {
        session_id: Some("s1".into()),
        message: "hello".into(),
        system: Some("You are a helpful assistant.".into()),
        stream: false,
    };
    assert_eq!(cr.session_id, Some("s1".into()));
    assert_eq!(cr.message, "hello");
    assert_eq!(cr.system, Some("You are a helpful assistant.".into()));
    assert!(!cr.stream);
}

#[test]
fn settings_construction() {
    let s = Settings {
        api_key: Some("sk-xxx".into()),
        system_prompt: Some("You are helpful.".into()),
        tool_delay_ms: 500,
        warmup_enabled: false,
        auto_collapse_prev: true,
    };
    assert_eq!(s.api_key, Some("sk-xxx".into()));
    assert_eq!(s.tool_delay_ms, 500);
    assert!(!s.warmup_enabled);
}

#[test]
fn session_state_construction() {
    let ss = SessionState {
        context: vec![Message::new("user", "hello")],
        status: "running".into(),
    };
    assert_eq!(ss.context.len(), 1);
    assert_eq!(ss.status, "running");
}

#[test]
fn run_flags_send_sync() {
    fn assert_send_sync<T: Send + Sync>() {}
    assert_send_sync::<RunFlags>();
}

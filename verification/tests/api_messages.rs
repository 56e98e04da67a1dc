use silences::llm::build_api_messages;
use silences::message::{Message, ToolCallFunction, ToolCallValue};

fn call(id: &str, name: &str, arguments: &str) -> ToolCallValue {
    ToolCallValue {
        id: id.into(),
        call_type: "function".into(),
        function: ToolCallFunction { name: name.into(), arguments: arguments.into() },
    }
}

#[test]
fn test_build_api_messages_assistant_with_reasoning() {
    let mut msg = Message::new("assistant", "你好，我是助手。");
    msg.reasoning_content = Some("让我想想……".into());
    let result = build_api_messages(&vec![msg], None);
    assert_eq!(result.len(), 1);
    assert_eq!(result[0].reasoning_content.as_deref(), Some("让我想想……"));
}

#[test]
fn test_build_api_messages_assistant_without_reasoning() {
    let msg = Message::new("assistant", "你好。");
    let result = build_api_messages(&vec![msg], None);
    assert_eq!(result.len(), 1);
    assert_eq!(result[0].reasoning_content.as_deref(), Some(""));
}

#[test]
fn test_build_api_messages_user_no_reasoning() {
    let msg = Message::new("user", "用户提问");
    let result = build_api_messages(&vec![msg], None);
    assert_eq!(result.len(), 1);
    assert!(result[0].reasoning_content.is_none());
}

#[test]
fn test_build_api_messages_tool_no_reasoning() {
    let mut msg = Message::new("tool", "{\"result\": \"ok\"}");
    msg.tool_call_id = Some("call_123".into());
    let asst_with_declare = Message::new_tool_call(vec![call("call_123", "get_weather", "{}")]);
    let result = build_api_messages(&vec![asst_with_declare, msg], None);
    assert_eq!(result.len(), 2);
    assert!(result[1].reasoning_content.is_none());
    assert_eq!(result[0].reasoning_content.as_deref(), Some(""));
}

#[test]
fn test_build_api_messages_assistant_with_tool_calls_no_reasoning() {
    let mut asst = Message::new("assistant", "我来搜索一下。");
    asst.tool_calls = Some(vec![call("call_456", "search", "{\"q\":\"test\"}")]);
    let result = build_api_messages(&vec![asst], None);
    assert_eq!(result.len(), 1);
    assert_eq!(result[0].reasoning_content.as_deref(), Some(""));
}

#[test]
fn test_build_api_messages_system_no_reasoning() {
    let result = build_api_messages(&vec![], Some("你是助手。"));
    assert_eq!(result.len(), 1);
    assert_eq!(result[0].role, "system");
    assert!(result[0].reasoning_content.is_none());
}

#[test]
fn test_build_api_messages_mixed_roles() {
    let msgs = vec![
        Message::new("user", "今天天气如何？"),
        {
            let mut m = Message::new("assistant", "让我查一下天气。");
            m.reasoning_content = Some("分析用户意图……".into());
            m
        },
        {
            let mut m = Message::new("user", "谢谢。");
            m.name = Some("user".into());
            m
        },
    ];
    let result = build_api_messages(&msgs, Some("你是一个天气助手。"));
    assert_eq!(result.len(), 4);
    assert_eq!(result[0].role, "system");
    assert!(result[0].reasoning_content.is_none());
    assert_eq!(result[1].role, "user");
    assert!(result[1].reasoning_content.is_none());
    assert_eq!(result[2].role, "assistant");
    assert_eq!(result[2].reasoning_content.as_deref(), Some("分析用户意图……"));
    assert_eq!(result[3].role, "user");
    assert!(result[3].reasoning_content.is_none());
}

#[test]
fn test_build_api_messages_orphan_assistant_skipped() {
    let asst = Message::new_tool_call(vec![call("call_orphan", "nonexistent", "{}")]);
    let result = build_api_messages(&vec![asst], None);
    assert_eq!(result.len(), 0);
}

#[test]
fn test_build_api_messages_orphan_tool_result_skipped() {
    let mut tool_msg = Message::new("tool", "结果");
    tool_msg.tool_call_id = Some("call_nonexistent".into());
    let result = build_api_messages(&vec![tool_msg], None);
    assert_eq!(result.len(), 0);
}

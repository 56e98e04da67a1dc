use silences::message::{remove_orphan_tool_messages, Message, ToolCallFunction, ToolCallValue};

fn read_call(id: &str) -> ToolCallValue {
    ToolCallValue {
        id: id.into(),
        call_type: "function".into(),
        function: ToolCallFunction { name: "read".into(), arguments: "{}".into() },
    }
}

#[test]
fn test_remove_orphan_tool_call_with_empty_content() {
    let mut msgs = vec![Message::new_tool_call(vec![read_call("call_1")])];
    remove_orphan_tool_messages(&mut msgs);
    assert!(msgs.is_empty());
}

#[test]
fn test_remove_orphan_tool_result() {
    let mut msgs = vec![Message::new_tool_result("call_nonexistent", "result")];
    remove_orphan_tool_messages(&mut msgs);
    assert!(msgs.is_empty());
}

#[test]
fn test_keep_valid_pair() {
    let mut msgs = vec![
        Message::new_tool_call(vec![read_call("call_1")]),
        Message::new_tool_result("call_1", "content"),
    ];
    remove_orphan_tool_messages(&mut msgs);
    assert_eq!(msgs.len(), 2);
}

#[test]
fn test_keep_orphan_with_nonempty_content() {
    let mut asst = Message::new_tool_call(vec![read_call("call_1")]);
    asst.content = "思考结果".into();
    let mut msgs = vec![asst];
    remove_orphan_tool_messages(&mut msgs);
    assert_eq!(msgs.len(), 1);
    assert_eq!(msgs[0].content, "思考结果");
}

#[test]
fn orphan_removal_keeps_plain_messages_in_order() {
    let mut msgs = vec![
        Message::new("user", "a"),
        Message::new_tool_result("x", "r"),
        Message::new("assistant", "b"),
    ];
    remove_orphan_tool_messages(&mut msgs);
    assert_eq!(msgs.len(), 2);
    assert_eq!(msgs[0].content, "a");
    assert_eq!(msgs[1].content, "b");
}

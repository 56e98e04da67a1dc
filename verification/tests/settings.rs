use silences::message::{enrich_tool_names, Message, ToolCallFunction, ToolCallValue};
use silences::session::SettingsUpdate;
use silences::settings::{mask_api_key, settings_changes, u64_to_string, SettingChange};

fn call(id: &str, name: &str) -> ToolCallValue {
    ToolCallValue {
        id: id.into(),
        call_type: "function".into(),
        function: ToolCallFunction { name: name.into(), arguments: "{}".into() },
    }
}

#[test]
fn test_mask_api_key_long() {
    let key = Some("sk-ant-1234567890abc".to_string());
    assert_eq!(mask_api_key(&key), Some("sk-a...0abc".to_string()));
}

#[test]
fn test_mask_api_key_short() {
    let key = Some("short".to_string());
    assert_eq!(mask_api_key(&key), Some("****".to_string()));
}

#[test]
fn test_mask_api_key_none() {
    assert_eq!(mask_api_key(&None), None);
}

#[test]
fn test_mask_api_key_exactly_eight() {
    let key = Some("12345678".to_string());
    assert_eq!(mask_api_key(&key), Some("****".to_string()));
}

#[test]
fn mask_api_key_nine_bytes() {
    assert_eq!(mask_api_key(&Some("123456789".into())), Some("1234...6789".to_string()));
}

#[test]
fn test_enrich_tool_names_basic() {
    let mut msgs = vec![
        Message::new_tool_call(vec![call("call_1", "search")]),
        Message::new_tool_result("call_1", "some result"),
    ];
    enrich_tool_names(&mut msgs);
    assert_eq!(msgs[1].name.as_deref(), Some("search"));
}

#[test]
fn test_enrich_tool_names_noop() {
    let mut msgs = vec![Message::new("user", "hello"), Message::new("assistant", "hi there")];
    enrich_tool_names(&mut msgs);
    assert!(msgs[0].name.is_none());
    assert!(msgs[1].name.is_none());
}

#[test]
fn test_enrich_tool_names_missing_id() {
    let mut msgs = vec![
        Message::new_tool_call(vec![call("call_1", "search")]),
        Message::new_tool_result("call_2", "result"),
    ];
    enrich_tool_names(&mut msgs);
    assert!(msgs[1].name.is_none());
}

#[test]
fn test_enrich_tool_names_empty() {
    let mut msgs: Vec<Message> = vec![];
    enrich_tool_names(&mut msgs);
}

#[test]
fn test_enrich_tool_names_multiple() {
    let mut msgs = vec![
        Message::new_tool_call(vec![call("c1", "search"), call("c2", "read")]),
        Message::new_tool_result("c1", "result1"),
        Message::new_tool_result("c2", "result2"),
    ];
    enrich_tool_names(&mut msgs);
    assert_eq!(msgs[1].name.as_deref(), Some("search"));
    assert_eq!(msgs[2].name.as_deref(), Some("read"));
}

#[test]
fn test_enrich_tool_names_interleaved() {
    let mut msgs = vec![
        Message::new_tool_call(vec![call("c1", "search")]),
        Message::new_tool_result("c1", "result"),
        Message::new("assistant", "based on search..."),
        Message::new_tool_call(vec![call("c2", "read_file")]),
        Message::new_tool_result("c2", "content"),
    ];
    enrich_tool_names(&mut msgs);
    assert_eq!(msgs[1].name.as_deref(), Some("search"));
    assert_eq!(msgs[4].name.as_deref(), Some("read_file"));
}

fn change(c: &SettingChange) -> (String, Option<String>) {
    match c {
        SettingChange::Store { key, value } => (key.clone(), Some(value.clone())),
        SettingChange::Remove { key } => (key.clone(), None),
    }
}

#[test]
fn settings_changes_in_order() {
    let u = SettingsUpdate {
        api_key: Some("k".into()),
        system_prompt: Some("".into()),
        tool_delay_ms: Some(250),
        warmup_enabled: Some(false),
        auto_collapse_prev: Some(true),
    };
    let cs: Vec<_> = settings_changes(&u).iter().map(change).collect();
    assert_eq!(
        cs,
        vec![
            ("api_key".to_string(), Some("k".to_string())),
            ("system_prompt".to_string(), None),
            ("tool_delay_ms".to_string(), Some("250".to_string())),
            ("warmup_enabled".to_string(), Some("0".to_string())),
            ("auto_collapse_prev".to_string(), Some("1".to_string())),
        ]
    );
}

#[test]
fn settings_changes_skip_empty_key_and_absent_fields() {
    let u = SettingsUpdate {
        api_key: Some("".into()),
        system_prompt: None,
        tool_delay_ms: None,
        warmup_enabled: None,
        auto_collapse_prev: None,
    };
    assert!(settings_changes(&u).is_empty());
}

#[test]
fn u64_decimal() {
    assert_eq!(u64_to_string(0), "0");
    assert_eq!(u64_to_string(18446744073709551615), "18446744073709551615");
}

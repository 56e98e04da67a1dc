use silences::events::UsageFields;
use silences::sse::{
    chunk_delta, classify_line, ChunkFields, DeltaFields, SseLine, StreamCore, StreamDelta,
    StreamStep, ToolCallFields,
};

fn delta(reasoning: Option<&str>, content: Option<&str>, calls: Vec<ToolCallFields>) -> DeltaFields {
    DeltaFields {
        reasoning_content: reasoning.map(String::from),
        content: content.map(String::from),
        tool_calls: calls,
    }
}

fn chunk(choices: Vec<DeltaFields>) -> ChunkFields {
    ChunkFields { usage: None, choices }
}

#[test]
fn lines_are_classified() {
    assert!(matches!(classify_line(""), SseLine::Skip));
    assert!(matches!(classify_line("   "), SseLine::Skip));
    assert!(matches!(classify_line(": keep-alive"), SseLine::Skip));
    assert!(matches!(classify_line("data: [DONE]"), SseLine::Done));
    assert!(matches!(classify_line("  data:  [DONE]  "), SseLine::Done));
    match classify_line("data: {\"a\":1}\r") {
        SseLine::Payload(p) => assert_eq!(p, "{\"a\":1}"),
        _ => panic!("expected a payload"),
    }
    assert!(matches!(classify_line("data:{}"), SseLine::Skip));
}

#[test]
fn reasoning_comes_before_text() {
    let c = chunk(vec![delta(Some("think"), Some("say"), vec![])]);
    assert!(matches!(chunk_delta(&c), Some(StreamDelta::Reasoning(r)) if r == "think"));
    let c2 = chunk(vec![delta(Some(""), Some("say"), vec![])]);
    assert!(matches!(chunk_delta(&c2), Some(StreamDelta::Text(t)) if t == "say"));
}

#[test]
fn first_tool_call_piece_with_defaults() {
    let tc = ToolCallFields { index: None, id: None, name: Some("read".into()), arguments: None };
    let tc2 = ToolCallFields { index: Some(1), id: None, name: None, arguments: Some("x".into()) };
    let c = chunk(vec![delta(None, Some(""), vec![tc, tc2])]);
    match chunk_delta(&c) {
        Some(StreamDelta::ToolCall { index, id, name, arguments }) => {
            assert_eq!(index, 0);
            assert!(id.is_none());
            assert_eq!(name.as_deref(), Some("read"));
            assert_eq!(arguments, "");
        }
        _ => panic!("expected a tool call piece"),
    }
}

#[test]
fn empty_choices_yield_nothing_later_choices_count() {
    assert!(chunk_delta(&chunk(vec![])).is_none());
    let c = chunk(vec![delta(None, None, vec![]), delta(None, Some("b"), vec![])]);
    assert!(matches!(chunk_delta(&c), Some(StreamDelta::Text(t)) if t == "b"));
}

#[test]
fn stream_core_splits_lines_and_ends() {
    let mut s = StreamCore::new();
    assert!(matches!(s.next_step(), StreamStep::NeedData));
    s.push_text("data: {\"x\"");
    assert!(matches!(s.next_step(), StreamStep::NeedData));
    s.push_text(":1}\n\n: ping\ndata: [DONE]\n");
    match s.next_step() {
        StreamStep::Payload(p) => assert_eq!(p, "{\"x\":1}"),
        _ => panic!("expected a payload"),
    }
    assert!(!s.ended());
    assert!(matches!(s.next_step(), StreamStep::Done));
    assert!(s.ended());
    assert!(matches!(s.next_step(), StreamStep::Done));
}

#[test]
fn stream_core_keeps_the_last_usage() {
    let mut s = StreamCore::new();
    let usage = UsageFields {
        input_tokens: Some(Some(10)),
        prompt_tokens: None,
        output_tokens: Some(Some(2)),
        completion_tokens: None,
        prompt_cache_hit_tokens: Some(4),
        cached_tokens: None,
        prompt_cache_miss_tokens: None,
    };
    let c = ChunkFields { usage: Some(usage), choices: vec![] };
    assert!(s.absorb_chunk(&c).is_none());
    let u = s.take_usage().unwrap();
    assert_eq!(u.input_tokens, 10);
    assert_eq!(u.cache_miss_tokens, 6);
    assert!(s.take_usage().is_none());
}

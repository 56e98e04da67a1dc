use silences::context::{build_surgery_messages, build_warmup_text, load_project_context, session_context_dir, join_path};
use std::path::Path;

#[test]
fn test_session_context_dir_constructs_path() {
    let path = session_context_dir("/project", "abc123");
    assert_eq!(Path::new(&path), Path::new("/project/.silences/sessions/abc123"));
}

#[test]
fn test_session_context_dir_trailing_slash_in_root() {
    let path = session_context_dir("/project/", "sess_01");
    assert_eq!(Path::new(&path), Path::new("/project/.silences/sessions/sess_01"));
}

#[test]
fn test_build_warmup_text_all_parts() {
    let result = build_warmup_text("history", "user msg", "silences");
    assert_eq!(result, "history\n\nuser msg\n\nsilences");
}

#[test]
fn test_build_warmup_text_empty_history() {
    let result = build_warmup_text("", "user msg", "silences");
    assert_eq!(result, "user msg\n\nsilences");
}

#[test]
fn test_build_warmup_text_only_user_and_silences() {
    let result = build_warmup_text("", "hello", "## Project Info");
    assert_eq!(result, "hello\n\n## Project Info");
}

#[test]
fn test_build_warmup_text_empty_silences() {
    let result = build_warmup_text("history", "msg", "");
    assert_eq!(result, "history\n\nmsg\n\n");
}

#[test]
fn test_load_project_context_paths() {
    let ctx = load_project_context(Some("/project"), Some("sess_01"), None, None);
    assert_eq!(Path::new(&ctx.root), Path::new("/project"));
    assert_eq!(Path::new(&ctx.session_dir), Path::new("/project/.silences/sessions/sess_01"));
    assert!(ctx.silences_md.is_none());
    assert!(ctx.context_delta.is_none());
}

#[test]
fn load_project_context_defaults_to_current_dir() {
    let ctx = load_project_context(None, None, Some("s".into()), None);
    assert_eq!(ctx.root, ".");
    assert_eq!(ctx.session_dir, ".");
    assert_eq!(ctx.silences_md.as_deref(), Some("s"));
}

#[test]
fn join_path_follows_unix_rules() {
    assert_eq!(join_path("/a", "b"), "/a/b");
    assert_eq!(join_path("/a/", "b"), "/a/b");
    assert_eq!(join_path("", "b"), "b");
    assert_eq!(join_path("/a", "/etc"), "/etc");
}

#[test]
fn surgery_messages_with_and_without_system_prompt() {
    let with = build_surgery_messages(Some("sys"), "md", "fix it");
    assert_eq!(with.len(), 3);
    assert_eq!(with[0].role, "system");
    assert_eq!(with[0].content, "sys");
    assert_eq!(with[1].name.as_deref(), Some("SILENCES.md"));
    assert_eq!(with[2].content, "根据要求修改 context.json，不要管其他文件: fix it");
    let without = build_surgery_messages(None, "md", "x");
    assert_eq!(without.len(), 2);
    assert_eq!(without[0].content, "md");
}

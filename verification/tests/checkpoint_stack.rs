use silences::checkpoint_stack::CheckpointStack;

#[test]
fn test_new_stack_empty() {
    let s = CheckpointStack::new();
    assert!(s.is_empty());
    assert_eq!(s.len(), 0);
}

#[test]
fn test_push_and_list() {
    let mut s = CheckpointStack::new();
    s.push("c1".into(), "first".into());
    s.push("c2".into(), "second".into());
    let list = s.list();
    assert_eq!(list.len(), 2);
    assert_eq!(list[0].id, "c1");
    assert_eq!(list[1].id, "c2");
}

#[test]
fn test_rollback_to_keeps_target() {
    let mut s = CheckpointStack::new();
    s.push("c1".into(), "first".into());
    s.push("c2".into(), "second".into());
    s.push("c3".into(), "third".into());

    assert!(s.rollback_to("c2").is_ok());
    let list = s.list();
    assert_eq!(list.len(), 2);
    assert_eq!(list[0].id, "c1");
    assert_eq!(list[1].id, "c2");
}

#[test]
fn test_rollback_to_first() {
    let mut s = CheckpointStack::new();
    s.push("c1".into(), "a".into());
    s.push("c2".into(), "b".into());
    assert!(s.rollback_to("c1").is_ok());
    assert_eq!(s.len(), 1);
    assert_eq!(s.list()[0].id, "c1");
}

#[test]
fn test_rollback_to_non_existent_errors() {
    let mut s = CheckpointStack::new();
    s.push("c1".into(), "a".into());
    let r = s.rollback_to("c_nonexist");
    assert!(r.is_err());
    assert_eq!(s.len(), 1);
}

#[test]
fn test_rollback_to_empty_stack_errors() {
    let mut s = CheckpointStack::new();
    assert!(s.rollback_to("c1").is_err());
}

#[test]
fn checkpoint_stack_test_format_for_context_empty() {
    let s = CheckpointStack::new();
    let fmt = s.format_for_context();
    assert_eq!(fmt, "_暂无检查点_");
}

#[test]
fn test_format_for_context_non_empty() {
    let mut s = CheckpointStack::new();
    s.push("c1".into(), "处理 A".into());
    s.push("c2".into(), "处理 B".into());
    let fmt = s.format_for_context();
    assert!(fmt.contains("c1"));
    assert!(fmt.contains("c2"));
    assert!(fmt.contains("处理 A"));
}

#[test]
fn test_clear() {
    let mut s = CheckpointStack::new();
    s.push("c1".into(), "a".into());
    s.push("c2".into(), "b".into());
    s.clear();
    assert!(s.is_empty());
}

#[test]
fn test_push_after_rollback() {
    let mut s = CheckpointStack::new();
    s.push("c1".into(), "a".into());
    s.push("c2".into(), "b".into());
    s.rollback_to("c1").unwrap();
    s.push("c3".into(), "c".into());
    let list = s.list();
    assert_eq!(list.len(), 2);
    assert_eq!(list[0].id, "c1");
    assert_eq!(list[1].id, "c3");
}

#[test]
fn format_for_context_exact_listing() {
    let mut s = CheckpointStack::new();
    s.push("c1".into(), "处理 A".into());
    s.push("c2".into(), "处理 B".into());
    assert_eq!(s.format_for_context(), "1. **c1**: 处理 A\n2. **c2**: 处理 B");
}

#[test]
fn rollback_error_names_the_checkpoint() {
    let mut s = CheckpointStack::new();
    s.push("c1".into(), "a".into());
    assert_eq!(s.rollback_to("zz").unwrap_err(), "检查点 \"zz\" 不存在");
}

#[test]
fn rollback_twice_changes_nothing_more() {
    let mut s = CheckpointStack::new();
    s.push("c1".into(), "a".into());
    s.push("c2".into(), "b".into());
    s.push("c3".into(), "c".into());
    s.rollback_to("c2").unwrap();
    s.rollback_to("c2").unwrap();
    assert_eq!(s.len(), 2);
}

#[test]
fn rollback_goes_to_first_of_duplicate_ids() {
    let mut s = CheckpointStack::new();
    s.push("c1".into(), "a".into());
    s.push("dup".into(), "b".into());
    s.push("dup".into(), "c".into());
    s.rollback_to("dup").unwrap();
    assert_eq!(s.len(), 2);
    assert_eq!(s.list()[1].description, "b");
}

use silences::edit::{is_tabsensitive, normalize};
use silences::tokens::{truncate_head_tok, truncate_opt};

#[test]
fn test_is_tabsensitive_makefile() {
    assert!(is_tabsensitive("Makefile"));
    assert!(is_tabsensitive("makefile"));
    assert!(is_tabsensitive("GNUmakefile"));
    assert!(is_tabsensitive("gnumakefile"));
}

#[test]
fn test_is_tabsensitive_dockerfile() {
    assert!(is_tabsensitive("Dockerfile"));
    assert!(is_tabsensitive("dockerfile"));
}

#[test]
fn test_is_tabsensitive_dot_mk() {
    assert!(is_tabsensitive("build.mk"));
    assert!(is_tabsensitive("rules.mk"));
}

#[test]
fn test_is_tabsensitive_negative() {
    assert!(!is_tabsensitive("main.rs"));
    assert!(!is_tabsensitive("README.md"));
    assert!(!is_tabsensitive("Cargo.toml"));
}

#[test]
fn is_tabsensitive_uses_the_file_name_of_a_path() {
    assert!(is_tabsensitive("/src/app/Makefile"));
    assert!(!is_tabsensitive("/Makefile/main.rs"));
}

#[test]
fn test_normalize_crlf_to_lf() {
    assert_eq!(normalize("a\r\nb\r\nc"), "a\nb\nc");
}

#[test]
fn test_normalize_tabs_to_spaces() {
    assert_eq!(normalize("\tHello"), "    Hello");
    assert_eq!(normalize("\t\tIndented"), "        Indented");
}

#[test]
fn test_normalize_mixed() {
    assert_eq!(normalize("\tfoo\r\n\t\tbar\r\nbaz"), "    foo\n        bar\nbaz");
}

#[test]
fn test_normalize_no_tabs_no_crlf() {
    assert_eq!(normalize("hello\nworld"), "hello\nworld");
}

#[test]
fn test_normalize_empty() {
    assert_eq!(normalize(""), "");
}

#[test]
fn normalize_keeps_inner_tabs() {
    assert_eq!(normalize("a\tb\n\tc\td"), "a\tb\n    c\td");
}

#[test]
fn test_truncate_head_tok_under_limit() {
    let content = "hello world";
    let (result, truncated) = truncate_head_tok(content, 100, None);
    assert!(!truncated);
    assert_eq!(result, content);
}

#[test]
fn test_truncate_head_tok_over_limit() {
    let content = "hello world this is a very long string that should definitely exceed any reasonable token limit for this test! ".repeat(20);
    let (result, truncated) = truncate_head_tok(&content, 3, None);
    assert!(truncated);
    assert!(result.len() < content.len());
    assert!(content.starts_with(&result));
}

#[test]
fn test_truncate_head_tok_exact_limit() {
    let content = "a";
    let (result, truncated) = truncate_head_tok(content, 3, None);
    assert!(!truncated);
    assert_eq!(result, content);
}

#[test]
fn truncate_by_estimate_backs_off_to_a_char_boundary() {
    // three-byte characters: 4 bytes fall inside the second one
    let (result, truncated) = truncate_head_tok("你好世界", 1, None);
    assert!(truncated);
    assert_eq!(result, "你");
}

#[test]
fn truncate_opt_only_when_cut() {
    assert!(truncate_opt("short", 10, None).is_none());
    let (t, cut) = truncate_opt("abcdefghij", 2, None).unwrap();
    assert!(cut);
    assert_eq!(t, "abcdefgh");
}

#[test]
fn normalize_twice_is_normalize_once() {
    for s in ["\tfoo\r\n\t\tbar\r\nbaz", "a\r\rb\n", "\r\n\t", "x\r"] {
        assert_eq!(normalize(&normalize(s)), normalize(s));
    }
    assert_eq!(normalize("\r\r\n"), "\r\n");
    assert_eq!(normalize(&normalize("\r\r\n")), "\n");
}

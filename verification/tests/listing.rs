use silences::listing::{
    dir_entry_line, dir_listing, dir_summary, file_glance_text, find_full_text, find_matches, find_summary,
    preview_text,
};

#[test]
fn find_summary_shows_all_when_few() {
    let results = vec!["  a.rs".to_string(), "  src/b.rs".to_string()];
    let r = find_summary("rs", "/p", &results, 5, "unused");
    assert_eq!(r, "find \"rs\" in /p:\n  a.rs\n  src/b.rs\n── 共 2 个匹配");
    assert_eq!(r, find_full_text("rs", "/p", &results));
}

#[test]
fn find_summary_cuts_when_many() {
    let results = vec!["  a".to_string(), "  b".to_string(), "  c".to_string()];
    let r = find_summary("x", "/d", &results, 2, "/s/find_0.out");
    assert_eq!(r, "find \"x\" in /d:\n  a\n  b\n...以及 1 个匹配（共 3 个），完整输出: /s/find_0.out\n");
}

#[test]
fn dir_listing_and_entries() {
    let entries = vec![
        dir_entry_line("src", true, 0, None),
        dir_entry_line("main.rs", false, 120, Some("// entry")),
        dir_entry_line("data.bin", false, 7, None),
    ];
    let full = dir_listing("/p", &entries);
    assert_eq!(
        full,
        "[DIR] /p (3 项):\n  [DIR] src/\n  [FILE] main.rs (120 bytes) 开头: // entry\n  [FILE] data.bin (7 bytes)"
    );
    assert_eq!(dir_summary(&full, 3, 3, "unused"), full);
    assert_eq!(
        dir_summary(&full, 3, 1, "/s/glance_0.out"),
        "[DIR] /p (3 项):\n  [DIR] src/\n...以及 2 个未显示项（共 3 项），完整输出: /s/glance_0.out\n"
    );
}

#[test]
fn dir_summary_with_no_entry_shown() {
    let full = "[DIR] /p (2 项):\n  [DIR] a/\n  [DIR] b/";
    assert_eq!(dir_summary(full, 2, 0, "f"), "[DIR] /p (2 项):\n\n...以及 2 个未显示项（共 2 项），完整输出: f\n");
}

#[test]
fn preview_prefers_long_comment_block() {
    let c = "// one\n// two\n// three\nfn main() {}\n";
    assert_eq!(preview_text(c, 20), Some("开头注释:\n// one\n// two\n// three".to_string()));
}

#[test]
fn preview_adds_first_lines_to_short_comment_block() {
    let c = "# title\n\nx = 1\ny = 2\n";
    assert_eq!(
        preview_text(c, 20),
        Some("开头注释:\n# title\n[文件前 3 行内容]:\n# title\nx = 1\ny = 2".to_string())
    );
}

#[test]
fn preview_without_comments() {
    assert_eq!(preview_text("\n  \nalpha\nbeta\n", 20), Some("[文件前 2 行内容]:\nalpha\nbeta".to_string()));
    assert_eq!(preview_text("\n\n", 20), None);
}

#[test]
fn file_glance_counts_lines() {
    assert_eq!(
        file_glance_text("/p/a.txt", 11, Some("hello\nworld"), 20),
        "[FILE] /p/a.txt (11 bytes, 2 行)\n[文件前 2 行内容]:\nhello\nworld"
    );
    assert_eq!(file_glance_text("/p/b.bin", 3, None, 20), "[FILE] /p/b.bin (3 bytes, 0 行)");
}

#[test]
fn file_glance_hints_read_for_long_files() {
    let content = "x\n".repeat(501);
    let r = file_glance_text("/f", 1002, Some(&content), 20);
    assert!(r.starts_with("[FILE] /f (1002 bytes, 501 行)\n[文件前 3 行内容]:\nx\nx\nx"));
    assert!(r.ends_with("\n[提示] 文件共 501 行，仅显示文件开头。如需完整内容请使用 read 工具。"));
}

#[test]
fn find_matches_literal_and_regex() {
    let names = vec!["a.b.rs".to_string(), "axb.rs".to_string(), "main.rs".to_string()];
    assert_eq!(find_matches("a.b", false, &names), Some(vec![true, false, false]));
    assert_eq!(find_matches("a.b", true, &names), Some(vec![true, true, false]));
    assert_eq!(find_matches("^ma", true, &names), Some(vec![false, false, true]));
    assert_eq!(find_matches("(", true, &names), None);
    assert_eq!(find_matches("(", false, &names), Some(vec![false, false, false]));
}

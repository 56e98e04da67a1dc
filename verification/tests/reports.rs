use silences::feedback::{
    block_failure_report, context_page, edit_failure_report, grep_failure_report,
    leading_comment_lines, numbered_line, read_output, target_context, window,
};
use silences::grep::{grep_full_text, grep_pattern, grep_summary, search_content, total_matches, GrepError};
use silences::similarity::levenshtein;
use silences::walk::{descends_into, file_extension, searches_file, wanted_extensions};

fn strings(v: &[&str]) -> Vec<String> {
    v.iter().map(|s| s.to_string()).collect()
}

#[test]
fn numbered_lines_are_right_aligned() {
    assert_eq!(numbered_line(7, "x"), "     7\tx");
    assert_eq!(numbered_line(1234567, "y"), "1234567\ty");
    assert_eq!(numbered_line(7, "x"), format!("{:>6}\t{}", 7, "x"));
}

#[test]
fn context_page_marks_the_line() {
    let lines = strings(&["a", "b", "c"]);
    assert_eq!(context_page(&lines, 1, 2, 2), "       1\ta\n→      2\tb");
    assert_eq!(target_context(&lines, 2, 1), "\n目标第 2 行附近（±1 行）的内容：\n       1\ta\n→      2\tb\n       3\tc");
    assert_eq!(target_context(&lines, 9, 1), "\n目标第 9 行附近（±1 行）的内容：\n");
}

#[test]
fn edit_failure_report_variants() {
    let lines = strings(&["a", "b"]);
    assert_eq!(
        edit_failure_report(&lines, true, None, &vec![], 5),
        "未找到匹配。\n当前为正则模式，如需纯文本匹配请设置 regex=false。"
    );
    assert_eq!(
        edit_failure_report(&lines, false, None, &vec![], 5),
        "未找到匹配。\n提示：如需查看整行，可使用 read 工具"
    );
    let with = edit_failure_report(&lines, false, None, &vec![(1, "80".to_string())], 2);
    assert_eq!(
        with,
        "未找到匹配。\n最接近的候选位置：\n  1. 第 2 行附近（相似度 80%）\n       1\ta\n→      2\tb\n\n提示：如需查看整行，可使用 read 工具"
    );
}

#[test]
fn grep_failure_report_lists_candidates() {
    let lines = strings(&["abc"]);
    assert_eq!(grep_failure_report(&lines, &vec![], 2), "grep: 无匹配。");
    assert_eq!(
        grep_failure_report(&lines, &vec![(0, "67".to_string())], 2),
        "grep: 无匹配。\n最接近的候选行：\n  1. 第 1 行（相似度 67%）\n→      1\tabc\n"
    );
    assert_eq!(
        grep_failure_report(&lines, &vec![(0, "67".to_string())], 0),
        "grep: 无匹配。\n最接近的候选行：\n  1. 第 1 行（相似度 67%）\n\n"
    );
}

#[test]
fn block_failure_report_cases() {
    let lines = strings(&["x", "begin", "y", "begin"]);
    let r = block_failure_report(&lines, "begin", "end", Some(4), &vec![], 1);
    assert_eq!(
        r,
        "❌ block_edit 失败：结束行匹配失败\n\n起始行 'begin' 已匹配（2 处），但之后未找到结束行 'end'。\n起始行第 4 行附近（±1 行）的内容：\n       3\ty\n→      4\tbegin\n提示：检查 end 模式 'end' 是否正确，或确认 start 之后是否存在 end 行。"
    );
    let none = block_failure_report(&lines, "zzz", "end", None, &vec![], 1);
    assert_eq!(
        none,
        "❌ block_edit 失败：起始行匹配失败\n\n未找到起始行匹配 'zzz'。\n文件中无任何接近的内容。\n提示：如需查看文件内容，可使用 read 工具"
    );
}

#[test]
fn leading_comments() {
    let src = "// a\n\n# b\nfn main() {}\n// c\n";
    assert_eq!(leading_comment_lines(src, 20).as_deref(), Some("// a\n# b"));
    assert!(leading_comment_lines("fn x() {}", 20).is_none());
    assert_eq!(
        leading_comment_lines("-- a\n-- b\n-- c\n", 2).as_deref(),
        Some("-- a\n-- b\n[提示: 仅显示前 2 行注释，文件可能还有更多注释内容]")
    );
}

#[test]
fn read_window_clamps() {
    assert_eq!(window(10, None, None), (1, 10));
    assert_eq!(window(10, Some(0), Some(3)), (1, 3));
    assert_eq!(window(10, Some(8), Some(2)), (8, 8));
    assert_eq!(window(10, Some(50), None), (10, 10));
}

#[test]
fn read_output_header_and_lines() {
    let lines = strings(&["     1\ta", "     2\tb"]);
    let out = read_output(false, "/f", 2, false, true, &lines, &vec![], 2, 2, "");
    assert_eq!(out, "[FILE] /f (共 2 行, 显示 2–2)\n     2\tb");
    let all = read_output(true, "/f", 2, false, false, &lines, &vec![], 1, 2, "\nW");
    assert_eq!(all, "[RAW FILE] /f (共 2 行)\n     1\ta\n     2\tb\nW");
}

#[test]
fn levenshtein_distances() {
    assert_eq!(levenshtein("kitten", "sitting"), 3);
    assert_eq!(levenshtein("", "abc"), 3);
    assert_eq!(levenshtein("中文", "中文"), 0);
    assert_eq!(levenshtein("flaw", "lawn"), levenshtein("lawn", "flaw"));
}

#[test]
fn grep_search_of_one_file() {
    let entry = search_content("/f.rs", "a\nneedle\nb\nc\n", "needle", false, 1).ok().unwrap();
    let (text, n) = entry.unwrap();
    assert_eq!(n, 1);
    assert_eq!(text, "[/f.rs]\n2  needle\n  1  a\n  3  b");
    assert!(search_content("/f.rs", "abc", "zzz", false, 1).ok().unwrap().is_none());
    assert!(matches!(search_content("/f.rs", "abc", "(", true, 1), Err(GrepError::InvalidPattern)));
}

#[test]
fn grep_literal_pattern_is_escaped() {
    assert_eq!(grep_pattern("a.b", false), "a\\.b");
    assert_eq!(grep_pattern("a.b", true), "a.b");
    assert_eq!(grep_pattern("x-y&z~%#", false), "x\\-y\\&z\\~%\\#");
    assert_eq!(grep_pattern("(a|b)*", false), "\\(a\\|b\\)\\*");
    let entry = search_content("/f", "axb\na.b\n", "a.b", false, 0).ok().unwrap().unwrap();
    assert_eq!(entry.1, 1);
}

#[test]
fn grep_summaries() {
    let entries = vec![("[a]\n1  x".to_string(), 2usize), ("[b]\n1  y".to_string(), 3usize)];
    assert_eq!(total_matches(&entries), 5);
    assert_eq!(grep_summary("x", &entries, 10, None), "grep \"x\" 匹配 5 处:\n[a]\n1  x\n---\n[b]\n1  y");
    assert_eq!(
        grep_summary("x", &entries, 2, Some("/c/grep_0.out")),
        "grep \"x\" 匹配 5 处（显示前 2 条）:\n[a]\n1  x\n...以及 3 条匹配（共 5 条），完整输出: /c/grep_0.out\n"
    );
    assert_eq!(
        grep_summary("x", &entries, 2, None),
        "grep \"x\" 匹配 5 处（显示前 2 条）:\n[a]\n1  x\n...以及 3 条匹配（共 5 条），未设置 console 目录，请缩小搜索范围。\n"
    );
    assert_eq!(grep_full_text("x", &entries, 5), "grep \"x\" 匹配 5 处:\n[a]\n1  x\n---\n[b]\n1  y");
}

#[test]
fn walk_filters() {
    assert!(descends_into("src"));
    assert!(!descends_into(".git"));
    assert!(!descends_into("node_modules"));
    assert!(!descends_into("target"));
    assert_eq!(file_extension("a.RS").as_deref(), Some("RS"));
    assert_eq!(file_extension("x.tar.gz").as_deref(), Some("gz"));
    assert!(file_extension(".bashrc").is_none());
    assert!(file_extension("Makefile").is_none());
    assert_eq!(file_extension("foo.").as_deref(), Some(""));
    let exts = wanted_extensions(&strings(&["RS", "ts"]));
    assert_eq!(exts, strings(&["rs", "ts"]));
    assert!(searches_file("Main.RS", &exts));
    assert!(!searches_file("api_debug.json", &strings(&["json"])));
    assert!(!searches_file("notes.md", &exts));
}

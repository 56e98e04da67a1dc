use silences::edit::{find_literal_matches, find_pairs, select_pair, SelectError};
use silences::regex_edit::{regex_edit, regex_replacement, replace_all_regex, RegexError};
use silences::splice::{
    block_edit, line_of_byte_pos, lines_of, literal_replacement, raw_edit_literal, replace_summary,
    select_match, BlockFailure, EditFailure,
};
use silences::text::replace_all;

fn strings(v: &[&str]) -> Vec<String> {
    v.iter().map(|s| s.to_string()).collect()
}

#[test]
fn lines_follow_str_lines() {
    assert_eq!(lines_of("a\nb\r\nc"), strings(&["a", "b", "c"]));
    assert_eq!(lines_of("a\n"), strings(&["a"]));
    assert_eq!(lines_of(""), Vec::<String>::new());
    assert_eq!(lines_of("\n\n"), strings(&["", ""]));
    assert_eq!(lines_of("x\r"), strings(&["x\r"]));
    let text = "one\r\ntwo\n\nthree\r";
    let expected: Vec<String> = text.lines().map(String::from).collect();
    assert_eq!(lines_of(text), expected);
}

#[test]
fn literal_matches_do_not_overlap() {
    assert_eq!(find_literal_matches("aaaa", "aa"), vec![(0, 2), (2, 4)]);
    assert_eq!(find_literal_matches("中文中文", "文"), vec![(3, 6), (9, 12)]);
    assert!(find_literal_matches("abc", "x").is_empty());
}

#[test]
fn literal_matches_are_byte_offsets() {
    assert_eq!(find_literal_matches("é", "é"), vec![(0, 2)]);
    assert_eq!(find_literal_matches("aéb é", "é"), vec![(1, 3), (5, 7)]);
}

#[test]
fn raw_edit_literal_keeps_multibyte_text() {
    let r = raw_edit_literal("名字 = 1\n名字 = 2\n", "名字 = 2", "名字 = 3", None).ok().unwrap();
    assert_eq!(r.content, "名字 = 1\n名字 = 3\n");
    assert_eq!(r.line, 2);
}

#[test]
fn line_numbers_count_line_feeds() {
    let bs = "é\nb\nc".as_bytes();
    assert_eq!(line_of_byte_pos(bs, 0), 1);
    assert_eq!(line_of_byte_pos(bs, 3), 2);
    assert_eq!(line_of_byte_pos(bs, 5), 3);
}

#[test]
fn select_match_prefers_first_nearest() {
    assert_eq!(select_match(&vec![3], None).ok(), Some(0));
    assert!(matches!(select_match(&vec![1, 2], None), Err(SelectError::NotUnique(2))));
    assert_eq!(select_match(&vec![1, 5, 9], Some(6)).ok(), Some(1));
    assert_eq!(select_match(&vec![4, 8], Some(6)).ok(), Some(0));
    assert!(matches!(select_match(&vec![], Some(1)), Err(SelectError::NoPair)));
}

#[test]
fn raw_edit_literal_replaces_one_match() {
    let r = raw_edit_literal("x = 1\ny = 2\n", "y = 2", "y = 3", None).ok().unwrap();
    assert_eq!(r.content, "x = 1\ny = 3\n");
    assert_eq!(r.line, 2);
}

#[test]
fn raw_edit_literal_needs_a_target_for_several() {
    let text = "a\nb\na\n";
    assert!(matches!(raw_edit_literal(text, "a", "z", None), Err(EditFailure::NotUnique(2))));
    let r = raw_edit_literal(text, "a", "z", Some(3)).ok().unwrap();
    assert_eq!(r.content, "a\nb\nz\n");
    assert_eq!(r.line, 3);
    assert!(matches!(raw_edit_literal(text, "q", "z", None), Err(EditFailure::NoMatch)));
}

#[test]
fn edit_failure_messages() {
    assert_eq!(EditFailure::NotUnique(3).message(), "匹配不唯一（3 处），请指定 line 参数选择目标行");
    assert_eq!(EditFailure::InvalidRegex.message(), "正则表达式无效");
}

#[test]
fn regex_edit_uses_fancy_regex() {
    let r = regex_edit("fn a() {}\nfn b() {}\n", r"fn b\(\)", "fn c()", None).ok().unwrap();
    assert_eq!(r.content, "fn a() {}\nfn c() {}\n");
    assert_eq!(r.line, 2);
    assert!(matches!(regex_edit("abc", "(", "x", None), Err(EditFailure::InvalidRegex)));
    assert!(matches!(regex_edit("abc", "z+", "x", None), Err(EditFailure::NoMatch)));
    let multi = regex_edit("é1\né2\n", r"é\d", "X", Some(2)).ok().unwrap();
    assert_eq!(multi.content, "é1\nX\n");
}

#[test]
fn replace_all_regex_replaces_every_match() {
    assert_eq!(replace_all_regex(r"\d+", "a1b22c", "#").ok().unwrap(), "a#b#c");
    assert_eq!(replace_all_regex("x", "abc", "#").ok().unwrap(), "abc");
    assert!(matches!(replace_all_regex("[", "abc", "#"), Err(RegexError::Invalid)));
}

#[test]
fn replace_all_matches_str_replace() {
    for (s, f, t) in [("aaa", "aa", "b"), ("abcabc", "bc", "X"), ("ab", "", "-"), ("", "", "x"), ("中文", "文", "字")] {
        assert_eq!(replace_all(s, f, t), s.replace(f, t));
    }
}

#[test]
fn file_replacements_report_changes_only() {
    assert_eq!(literal_replacement("a\r\nfoo\n", "foo", "bar").as_deref(), Some("a\nbar\n"));
    assert!(literal_replacement("abc", "zz", "y").is_none());
    assert_eq!(regex_replacement("x1\n", r"\d", "N").ok().unwrap().as_deref(), Some("xN\n"));
    assert!(regex_replacement("abc", r"\d", "N").ok().unwrap().is_none());
}

#[test]
fn replace_summaries() {
    let files = strings(&["/a.rs", "/b.rs"]);
    assert_eq!(replace_summary(&files, false), "批量替换完成 (2 个文件):\n/a.rs\n/b.rs");
    assert_eq!(replace_summary(&files, true), "[DRY RUN] 将在 2 个文件中替换（共扫描 2 个文件）:\n/a.rs\n/b.rs");
}

#[test]
fn block_pairs_do_not_nest() {
    let lines = strings(&["start", "x", "start", "end", "start", "end", "start"]);
    assert_eq!(find_pairs(&lines, "start", "end"), vec![(0, 3), (4, 5)]);
}

#[test]
fn select_pair_by_middle_line() {
    let pairs = vec![(0, 3), (10, 12)];
    assert!(matches!(select_pair(&pairs, None), Err(SelectError::NotUnique(2))));
    assert_eq!(select_pair(&pairs, Some(9)).ok(), Some((10, 12)));
    assert_eq!(select_pair(&vec![(2, 4)], None).ok(), Some((2, 4)));
    assert!(matches!(select_pair(&vec![], Some(1)), Err(SelectError::NoPair)));
}

#[test]
fn block_edit_replaces_lines() {
    let text = "a\nbegin\nold\nend\nz\n";
    let r = block_edit(text, "begin", "end", "new\n", true, true, None).ok().unwrap();
    assert_eq!(r.content, "a\nnew\nz\n");
    assert_eq!((r.first, r.past), (1, 4));
    let inner = block_edit(text, "begin", "end", "new\n", false, false, None).ok().unwrap();
    assert_eq!(inner.content, "a\nbegin\nnew\nend\nz\n");
}

#[test]
fn block_edit_failures() {
    assert!(matches!(block_edit("a\nb\n", "x", "y", "", true, true, None), Err(BlockFailure::NoPair)));
    assert!(matches!(block_edit("s\ne\n", "s", "e", "", false, false, None), Err(BlockFailure::EmptyRange)));
    let two = "s\ne\ns\ne\n";
    assert!(matches!(block_edit(two, "s", "e", "", true, true, None), Err(BlockFailure::NotUnique(2))));
}

#[test]
fn block_edit_empty_range_only_for_the_chosen_pair() {
    let text = "s\ne\ns\nx\ne\n";
    let r = block_edit(text, "s", "e", "Y\n", false, false, Some(4)).ok().unwrap();
    assert_eq!(r.content, "s\ne\ns\nY\ne\n");
    assert!(matches!(block_edit(text, "s", "e", "Y\n", false, false, Some(1)), Err(BlockFailure::EmptyRange)));
    assert!(matches!(block_edit(text, "s", "e", "Y\n", false, false, None), Err(BlockFailure::NotUnique(2))));
}

#[test]
fn block_failure_messages() {
    assert_eq!(SelectError::NotUnique(2).message(), "匹配不唯一（2 对），请指定 line 参数选择目标对");
    assert_eq!(SelectError::NoPair.message(), "选择配对时出错");
    assert_eq!(BlockFailure::NotUnique(3).message().unwrap(), "匹配不唯一（3 对），请指定 line 参数选择目标对");
    assert_eq!(
        BlockFailure::EmptyRange.message().unwrap(),
        "替换范围为空（start 和 end 在同一行），请调整 include_start/include_end"
    );
    assert_eq!(
        BlockFailure::InvalidRange { start_line: 3, end_line: 2, include_start: false, include_end: true }.message().unwrap(),
        "替换范围无效：start 第 3 行，end 第 2 行，include_start=false, include_end=true 导致空范围"
    );
    assert!(BlockFailure::NoPair.message().is_none());
}

#[test]
fn block_edit_at_end_without_final_newline() {
    let r = block_edit("a\nbegin\nend", "begin", "end", "X", true, true, None).ok().unwrap();
    assert_eq!(r.content, "a\nX");
}

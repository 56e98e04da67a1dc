use silences::feedback::number_lines_with_cut;
use silences::tokens::token_count;

fn lines(n: usize) -> Vec<String> {
    (1..=n).map(|i| format!("l{}", i)).collect()
}

#[test]
fn small_files_are_shown_whole() {
    let (shown, notices, cut) = number_lines_with_cut(&lines(3), 2000, 0, 0);
    assert_eq!(shown, vec!["     1\tl1", "     2\tl2", "     3\tl3"]);
    assert!(notices.is_empty());
    assert!(!cut);
}

#[test]
fn large_files_show_head_and_tail() {
    let (shown, notices, cut) = number_lines_with_cut(&lines(10), 3000, 3, 2);
    assert_eq!(
        shown,
        vec!["     1\tl1", "     2\tl2", "     3\tl3", "[...截断...]", "     9\tl9", "    10\tl10"]
    );
    assert_eq!(
        notices,
        vec!["[截断：文件较大 (~3000 tok，共 10 行)，仅显示 1-3 行 + 9-10 行。使用 all=true 或 start_line/end_line 读取完整内容。]"]
    );
    assert!(cut);
}

#[test]
fn head_and_tail_never_meet() {
    let (shown, _, cut) = number_lines_with_cut(&lines(4), 2500, 4, 3);
    assert!(cut);
    assert_eq!(shown, vec!["[...截断...]", "     2\tl2", "     3\tl3", "     4\tl4"]);
}

#[test]
fn token_count_without_tokenizer_is_a_quarter_of_the_bytes() {
    assert_eq!(token_count("abcdefgh", None), 2);
    assert_eq!(token_count("中文", None), 1);
}

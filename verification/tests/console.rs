use silences::console::{command_summary, stream_report};

#[test]
fn stream_report_keeps_uncut_stream() {
    assert_eq!(stream_report("stdout", "all of it", "all", false, 10, 9, "unused"), "all of it");
}

#[test]
fn stream_report_notes_cut_stream() {
    assert_eq!(
        stream_report("stderr", "abcdef", "abc", true, 1000, 6, "/c/1_x_stderr.out"),
        "abc...\n[stderr 仅显示前 1000 tok，完整内容 (6B) 已保存至 /c/1_x_stderr.out]\n"
    );
}

#[test]
fn command_summary_shapes() {
    assert_eq!(command_summary("ls", "a\nb\n", "", Some(0)), "$ ls\na\nb\n\n退出码: 0");
    assert_eq!(command_summary("x", "", "boom", Some(1)), "$ x\nstderr:\nboom\n退出码: 1");
    assert_eq!(command_summary("y", "out", "err", None), "$ y\nout\nstderr:\nerr");
    assert_eq!(command_summary("z", "", "", Some(-1073741819)), "$ z\n\n退出码: -1073741819");
}

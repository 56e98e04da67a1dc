//! The report of the `command` tool: the command line, its output streams (cut to a token
//! budget, the whole saved elsewhere) and its exit code.
use vstd::prelude::*;

use crate::text::{decimal, push_decimal};

verus! {

/// What `command` shows of an output stream: the stream itself, or, when it was cut, its
/// head, "..." and a note of the budget, the stream's length in bytes and where it was saved.
pub open spec fn stream_shown(
    name: Seq<char>,
    full: Seq<char>,
    head: Seq<char>,
    cut: bool,
    max_tok: nat,
    len: nat,
    saved: Seq<char>,
) -> Seq<char> {
    if cut {
        head + "...\n["@ + name + " 仅显示前 "@ + decimal(max_tok) + " tok，完整内容 ("@ + decimal(len)
            + "B) 已保存至 "@ + saved + "]\n"@
    } else {
        full
    }
}

/// What `command` shows of an output stream (see `stream_shown`).
pub fn stream_report(
    name: &str,
    full: &str,
    head: &str,
    cut: bool,
    max_tok: usize,
    len: usize,
    saved: &str,
) -> (r: String)
    ensures
        r@ == stream_shown(name@, full@, head@, cut, max_tok as nat, len as nat, saved@),
{
    if !cut {
        return full.to_owned();
    }
    let mut r = head.to_owned();
    r.append("...\n[");
    r.append(name);
    r.append(" 仅显示前 ");
    push_decimal(&mut r, max_tok);
    r.append(" tok，完整内容 (");
    push_decimal(&mut r, len);
    r.append("B) 已保存至 ");
    r.append(saved);
    r.append("]\n");
    r
}

/// The decimal numeral of a signed number.
pub open spec fn signed_decimal(n: int) -> Seq<char> {
    if n < 0 {
        "-"@ + decimal((-n) as nat)
    } else {
        decimal(n as nat)
    }
}

/// The report of a command: "$ {command}" and a line break, the shown stdout, then (when
/// stderr shows anything) "stderr:" and the shown stderr on a line of their own, then the
/// exit code, when the process had one.
pub open spec fn command_text(command: Seq<char>, out: Seq<char>, err: Seq<char>, code: Option<i32>) -> Seq<
    char,
> {
    "$ "@ + command + "\n"@ + out + (if err.len() > 0 {
        (if out.len() > 0 {
            "\n"@
        } else {
            ""@
        }) + "stderr:\n"@ + err
    } else {
        ""@
    }) + match code {
        Some(c) => "\n退出码: "@ + signed_decimal(c as int),
        None => ""@,
    }
}

/// The report of a command (see `command_text`).
pub fn command_summary(command: &str, out: &str, err: &str, code: Option<i32>) -> (r: String)
    ensures
        r@ == command_text(command@, out@, err@, code),
{
    proof {
        reveal_strlit("");
    }
    let mut r = String::from_str("$ ");
    r.append(command);
    r.append("\n");
    r.append(out);
    if err.unicode_len() > 0 {
        if out.unicode_len() > 0 {
            r.append("\n");
        }
        r.append("stderr:\n");
        r.append(err);
    }
    match code {
        Some(c) => {
            r.append("\n退出码: ");
            if c < 0 {
                r.append("-");
                let m: i64 = -(c as i64);
                push_decimal(&mut r, m as usize);
            } else {
                push_decimal(&mut r, c as usize);
            }
        },
        None => {},
    }
    r
}

/// The exit code only adds its own line at the end of a command's report: the report with a
/// code is the report without one followed by "\n退出码: {code}", so what it shows of the
/// command, stdout and stderr does not depend on the code. Whenever stderr is not empty, the
/// report shows it under "stderr:" right after the command line and stdout (and a line break
/// when stdout is not empty).
pub proof fn lemma_command_text_streams(command: Seq<char>, out: Seq<char>, err: Seq<char>, code: Option<i32>)
    ensures
        command_text(command, out, err, code) == command_text(command, out, err, None) + match code {
            Some(c) => "\n退出码: "@ + signed_decimal(c as int),
            None => Seq::<char>::empty(),
        },
        command_text(command, out, err, None).subrange(0, (3 + command.len() + out.len()) as int)
            == "$ "@ + command + "\n"@ + out,
        err.len() > 0 ==> command_text(command, out, err, None) == "$ "@ + command + "\n"@ + out
            + (if out.len() > 0 {
            "\n"@
        } else {
            ""@
        }) + "stderr:\n"@ + err,
        err.len() == 0 ==> command_text(command, out, err, None) == "$ "@ + command + "\n"@ + out,
{
    reveal_strlit("$ ");
    reveal_strlit("\n");
    reveal_strlit("");
    let p = "$ "@ + command + "\n"@ + out;
    let t = command_text(command, out, err, None);
    assert(t.subrange(0, (3 + command.len() + out.len()) as int) =~= p);
    assert(command_text(command, out, err, code) =~= t + match code {
        Some(c) => "\n退出码: "@ + signed_decimal(c as int),
        None => Seq::<char>::empty(),
    });
}

} // verus!

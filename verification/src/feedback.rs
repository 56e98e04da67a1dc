//! Texts the file tools show: numbered lines, pages of context around a line, and the
//! comment block at the top of a file.
use vstd::prelude::*;

use crate::splice::{lines_of, text_lines};
use crate::text::{decimal, join, join_strings, push_decimal, str_chars, trim, trimmed};

verus! {

/// `s` padded on the left with spaces to `w` characters (`{:>w}`).
pub open spec fn pad_left(s: Seq<char>, w: nat) -> Seq<char> {
    if s.len() >= w {
        s
    } else {
        Seq::new((w - s.len()) as nat, |i: int| ' ') + s
    }
}

/// A line with its number (from 1) right-aligned in six columns and a tab (`{:>6}\t{}`).
pub open spec fn numbered(n: nat, line: Seq<char>) -> Seq<char> {
    pad_left(decimal(n), 6) + "\t"@ + line
}

/// The numbered line `n`, marked with an arrow when it is the line in question.
pub open spec fn marked(n: nat, line: Seq<char>, mark: bool) -> Seq<char> {
    (if mark {
        "→"@
    } else {
        " "@
    }) + " "@ + numbered(n, line)
}

/// A line with its number (`{:>6}\t{}`).
pub fn numbered_line(n: usize, line: &str) -> (r: String)
    ensures
        r@ == numbered(n as nat, line@),
{
    let mut num = String::new();
    push_decimal(&mut num, n);
    let nc = str_chars(num.as_str());
    let mut r = String::new();
    let mut k: usize = nc.len();
    while k < 6
        invariant
            nc@ == decimal(n as nat),
            nc.len() <= k <= 6 || nc.len() > 6 && k == nc.len(),
            r@ == Seq::new((k - nc.len()) as nat, |i: int| ' '),
        decreases 6 - k,
    {
        let ghost before = r@;
        r.append(" ");
        proof {
            reveal_strlit(" ");
            assert(r@ =~= Seq::new((k + 1 - nc.len()) as nat, |i: int| ' '));
        }
        k = k + 1;
    }
    r.append(num.as_str());
    r.append("\t");
    r.append(line);
    proof {
        if nc.len() >= 6 {
            assert(r@ =~= decimal(n as nat) + "\t"@ + line@);
        }
    }
    r
}

/// A numbered line, marked with an arrow or not.
pub fn marked_line(n: usize, line: &str, mark: bool) -> (r: String)
    ensures
        r@ == marked(n as nat, line@, mark),
{
    let mut r = if mark {
        String::from_str("→")
    } else {
        String::from_str(" ")
    };
    r.append(" ");
    let nl = numbered_line(n, line);
    r.append(nl.as_str());
    r
}

/// The lines `first..=last` (numbered from 1) of `lines`, each marked when it is line
/// `mark`.
pub open spec fn page_lines(lines: Seq<Seq<char>>, first: nat, last: nat, mark: nat) -> Seq<Seq<char>> {
    Seq::new(
        (last + 1 - first) as nat,
        |i: int| marked((first + i) as nat, lines[first + i - 1], first + i == mark),
    )
}

/// The lines `first..=last` (from 1) of `lines`, numbered and marked, one per line.
pub fn context_page(lines: &Vec<String>, first: usize, last: usize, mark: usize) -> (r: String)
    requires
        1 <= first <= last + 1,
        last <= lines@.len(),
    ensures
        r@ == join(page_lines(lines@.map_values(|l: String| l@), first as nat, last as nat, mark as nat), "\n"@),
{
    let ghost lv = lines@.map_values(|l: String| l@);
    let mut parts: Vec<String> = Vec::new();
    if first > last {
        proof {
            assert(parts@.map_values(|p: String| p@) =~= page_lines(lv, first as nat, last as nat, mark as nat));
        }
        return join_strings(&parts, "\n");
    }
    let count = last - first + 1;
    let mut q: usize = 0;
    while q < count
        invariant
            1 <= first <= last,
            count == last - first + 1,
            last <= lines@.len(),
            q <= count,
            lv == lines@.map_values(|l: String| l@),
            parts@.len() == q,
            forall|j: int| 0 <= j < q ==> (#[trigger] parts@[j])@ == marked(
                (first + j) as nat,
                lv[first + j - 1],
                first + j == mark,
            ),
        decreases count - q,
    {
        let k = first + q;
        proof {
            assert(lv[k - 1] == lines@[k - 1]@);
        }
        let l = marked_line(k, lines[k - 1].as_str(), k == mark);
        parts.push(l);
        q = q + 1;
    }
    proof {
        assert(parts@.map_values(|p: String| p@) =~= page_lines(lv, first as nat, last as nat, mark as nat));
    }
    join_strings(&parts, "\n")
}

/// Whether `t` starts with `p`.
pub open spec fn starts_with(t: Seq<char>, p: Seq<char>) -> bool {
    t.len() >= p.len() && t.take(p.len() as int) == p
}

/// Whether a trimmed line starts like a comment in one of the common languages.
pub open spec fn is_comment_line(t: Seq<char>) -> bool {
    starts_with(t, "//"@) || starts_with(t, "#"@) || starts_with(t, ";"@) || starts_with(t, "--"@)
        || starts_with(t, "(*"@)
}

/// The comment lines (trimmed) that open `lines` from `i` on: blank lines are passed over,
/// and the first other line that is no comment ends them.
pub open spec fn opening_comments(lines: Seq<Seq<char>>, i: int) -> Seq<Seq<char>>
    decreases lines.len() - i,
{
    if i < 0 || i >= lines.len() {
        Seq::empty()
    } else if trimmed(lines[i]).len() == 0 {
        opening_comments(lines, i + 1)
    } else if is_comment_line(trimmed(lines[i])) {
        seq![trimmed(lines[i])] + opening_comments(lines, i + 1)
    } else {
        Seq::empty()
    }
}

/// The comment block at the top of a file (within its first `max_lines` lines), with a note
/// when it may go on; `None` when the file opens with no comment.
pub open spec fn comment_block(content: Seq<char>, max_lines: nat) -> Option<Seq<char>> {
    let cs = opening_comments(text_lines(content).take(
        if max_lines <= text_lines(content).len() {
            max_lines as int
        } else {
            text_lines(content).len() as int
        },
    ), 0);
    if cs.len() == 0 {
        None
    } else if cs.len() >= max_lines {
        Some(
            join(cs, "\n"@) + "\n[提示: 仅显示前 "@ + decimal(max_lines) + " 行注释，文件可能还有更多注释内容]"@,
        )
    } else {
        Some(join(cs, "\n"@))
    }
}

fn starts_with_lit(t: &Vec<char>, lit: &str) -> (b: bool)
    ensures
        b == starts_with(t@, lit@),
{
    let lc = str_chars(lit);
    if lc.len() > t.len() {
        return false;
    }
    let b = crate::text::matches_at_chars(t, &lc, 0);
    proof {
        assert(t@.subrange(0, lc@.len() as int) =~= t@.take(lc@.len() as int));
    }
    b
}

fn comment_start(t: &Vec<char>) -> (b: bool)
    ensures
        b == is_comment_line(t@),
{
    starts_with_lit(t, "//") || starts_with_lit(t, "#") || starts_with_lit(t, ";")
        || starts_with_lit(t, "--") || starts_with_lit(t, "(*")
}

/// The comment block at the top of `content` (see `comment_block`).
pub fn leading_comment_lines(content: &str, max_lines: usize) -> (r: Option<String>)
    ensures
        match r {
            Some(s) => comment_block(content@, max_lines as nat) == Some(s@),
            None => comment_block(content@, max_lines as nat) is None,
        },
{
    let lines = lines_of(content);
    let ghost lv = lines@.map_values(|l: String| l@);
    let limit = if max_lines <= lines.len() {
        max_lines
    } else {
        lines.len()
    };
    let ghost lt = lv.take(limit as int);
    let mut comments: Vec<String> = Vec::new();
    let mut i: usize = 0;
    proof {
        assert(lv == text_lines(content@));
    }
    while i < limit
        invariant
            i <= limit <= lines@.len(),
            lv == lines@.map_values(|l: String| l@),
            lt == lv.take(limit as int),
            comments@.map_values(|c: String| c@) + opening_comments(lt, i as int) == opening_comments(lt, 0),
        ensures
            comments@.map_values(|c: String| c@) == opening_comments(lt, 0),
        decreases limit - i,
    {
        proof {
            assert(lt[i as int] == lines@[i as int]@);
        }
        let t = trim(lines[i].as_str());
        let tc = str_chars(t.as_str());
        if tc.len() == 0 {
            i = i + 1;
        } else if comment_start(&tc) {
            let ghost before = comments@.map_values(|c: String| c@);
            comments.push(t);
            proof {
                assert(comments@.map_values(|c: String| c@) =~= before.push(trimmed(lt[i as int])));
                assert(before.push(trimmed(lt[i as int])) + opening_comments(lt, i + 1) =~= before + (seq![
                    trimmed(lt[i as int]),
                ] + opening_comments(lt, i + 1)));
            }
            i = i + 1;
        } else {
            proof {
                assert(tc@ == trimmed(lt[i as int]));
                assert(opening_comments(lt, i as int) == Seq::<Seq<char>>::empty());
                assert(comments@.map_values(|c: String| c@) + Seq::<Seq<char>>::empty() =~= comments@.map_values(
                    |c: String| c@,
                ));
            }
            break;
        }
    }
    proof {
        assert(lv == text_lines(content@));
    }
    if comments.len() == 0 {
        return None;
    }
    let mut result = join_strings(&comments, "\n");
    if comments.len() >= max_lines {
        result.append("\n[提示: 仅显示前 ");
        push_decimal(&mut result, max_lines);
        result.append(" 行注释，文件可能还有更多注释内容]");
    }
    Some(result)
}

/// The lines `read` shows, from 1: from the requested start (1 when none) to the requested
/// end (the last line when none), kept within the `n` numbered lines and never ending
/// before the start.
pub open spec fn read_window(n: nat, start: Option<u64>, end: Option<u64>) -> (int, int) {
    let s0 = match start {
        Some(s) => s as usize as int,
        None => 1,
    };
    let s1 = if s0 < 1 {
        1
    } else {
        s0
    };
    let a = if s1 > n {
        n as int
    } else {
        s1
    };
    let e0 = match end {
        Some(e) => e as usize as int,
        None => n as int,
    };
    let e1 = if e0 < a {
        a
    } else {
        e0
    };
    let b = if e1 > n {
        n as int
    } else {
        e1
    };
    (a, b)
}

/// The window `read` shows of `n >= 1` lines runs from the start line asked for to the end
/// line asked for, each moved into `1..=n` (the end no earlier than the start): with no
/// start line it begins at line 1, and with no end line it ends at the last line, whatever
/// the start.
pub proof fn lemma_read_window(n: nat, start: Option<u64>, end: Option<u64>)
    requires
        n >= 1,
    ensures
        ({
            let (a, b) = read_window(n, start, end);
            &&& 1 <= a <= b <= n
            &&& start is None ==> a == 1
            &&& start matches Some(s) ==> (1 <= s as usize as int <= n ==> a == s as usize as int)
            &&& end is None ==> b == n
            &&& end matches Some(e) ==> (a <= e as usize as int <= n ==> b == e as usize as int)
            &&& end matches Some(e) ==> (e as usize as int > n ==> b == n)
        }),
{
}

/// The lines `read` shows (see `read_window`).
pub fn window(n: usize, start: Option<u64>, end: Option<u64>) -> (r: (usize, usize))
    ensures
        (r.0 as int, r.1 as int) == read_window(n as nat, start, end),
{
    let s0: usize = match start {
        Some(s) => s as usize,
        None => 1,
    };
    let s1 = if s0 < 1 {
        1
    } else {
        s0
    };
    let a = if s1 > n {
        n
    } else {
        s1
    };
    let e0: usize = match end {
        Some(e) => e as usize,
        None => n,
    };
    let e1 = if e0 < a {
        a
    } else {
        e0
    };
    let b = if e1 > n {
        n
    } else {
        e1
    };
    (a, b)
}

/// The output of `read`: the header "{[FILE] or [RAW FILE]} {path} (共 {total} 行", with ",
/// 已截断" when the numbered lines were cut and ", 显示 {a}–{b}" when a range was asked for
/// or the lines were cut, then each warning line, then the shown lines `a..=b`, then the
/// trailing warning.
pub open spec fn read_text(
    raw: bool,
    path: Seq<char>,
    total: nat,
    cut: bool,
    ranged: bool,
    lines: Seq<Seq<char>>,
    warnings: Seq<Seq<char>>,
    a: int,
    b: int,
    tail: Seq<char>,
) -> Seq<char> {
    (if raw {
        "[RAW FILE]"@
    } else {
        "[FILE]"@
    }) + " "@ + path + " (共 "@ + decimal(total) + " 行"@ + (if cut {
        ", 已截断"@
    } else {
        ""@
    }) + (if ranged || cut {
        ", 显示 "@ + decimal(a as nat) + "–"@ + decimal(b as nat)
    } else {
        ""@
    }) + ")"@ + join(Seq::new(warnings.len(), |k: int| "\n"@ + warnings[k]), ""@) + join(
        Seq::new((b - a + 1) as nat, |k: int| "\n"@ + lines[a - 1 + k]),
        ""@,
    ) + tail
}

fn append_each(r: &mut String, items: &Vec<String>, from: usize, to: usize)
    requires
        from <= to <= items@.len(),
    ensures
        final(r)@ == old(r)@ + join(
            Seq::new((to - from) as nat, |k: int| "\n"@ + items@[from + k]@),
            ""@,
        ),
{
    let mut i: usize = from;
    while i < to
        invariant
            from <= i <= to <= items@.len(),
            r@ == old(r)@ + join(Seq::new((i - from) as nat, |k: int| "\n"@ + items@[from + k]@), ""@),
        decreases to - i,
    {
        let ghost before = Seq::new((i - from) as nat, |k: int| "\n"@ + items@[from + k]@);
        let ghost after = Seq::new((i + 1 - from) as nat, |k: int| "\n"@ + items@[from + k]@);
        r.append("\n");
        r.append(items[i].as_str());
        proof {
            reveal_strlit("");
            assert(after.drop_last() =~= before);
            assert(after.last() == "\n"@ + items@[i as int]@);
            if i == from {
                assert(join(after, ""@) == after[0]);
                assert(join(before, ""@) =~= Seq::<char>::empty());
            } else {
                assert(join(after, ""@) == join(before, ""@) + ""@ + after.last());
            }
        }
        i = i + 1;
    }
}

/// Puts the output of `read` together (see `read_text`).
#[verifier::spinoff_prover]
pub fn read_output(
    raw: bool,
    path: &str,
    total: usize,
    cut: bool,
    ranged: bool,
    lines: &Vec<String>,
    warnings: &Vec<String>,
    a: usize,
    b: usize,
    tail: &str,
) -> (r: String)
    requires
        1 <= a <= b + 1,
        b <= lines@.len(),
    ensures
        r@ == read_text(
            raw,
            path@,
            total as nat,
            cut,
            ranged,
            lines@.map_values(|l: String| l@),
            warnings@.map_values(|w: String| w@),
            a as int,
            b as int,
            tail@,
        ),
{
    let mut r = if raw {
        String::from_str("[RAW FILE]")
    } else {
        String::from_str("[FILE]")
    };
    r.append(" ");
    r.append(path);
    r.append(" (共 ");
    push_decimal(&mut r, total);
    r.append(" 行");
    proof {
        reveal_strlit("");
    }
    if cut {
        r.append(", 已截断");
    }
    if ranged || cut {
        r.append(", 显示 ");
        push_decimal(&mut r, a);
        r.append("–");
        push_decimal(&mut r, b);
    }
    r.append(")");
    append_each(&mut r, warnings, 0, warnings.len());
    append_each(&mut r, lines, a - 1, b);
    r.append(tail);
    proof {
        let lv = lines@.map_values(|l: String| l@);
        let wv = warnings@.map_values(|w: String| w@);
        assert(Seq::new(warnings@.len(), |k: int| "\n"@ + warnings@[0 + k]@) =~= Seq::new(
            wv.len(),
            |k: int| "\n"@ + wv[k],
        ));
        assert(Seq::new((b - (a - 1)) as nat, |k: int| "\n"@ + lines@[(a - 1) + k]@) =~= Seq::new(
            (b - a + 1) as nat,
            |k: int| "\n"@ + lv[a - 1 + k],
        ));
    }
    r
}

/// The lines around `center` (from 1): `ctx` lines on each side, within the file.
pub open spec fn around(center: nat, ctx: nat, total: nat) -> (nat, nat) {
    let lo = if center >= ctx {
        (center - ctx) as nat
    } else {
        0nat
    };
    (if lo >= 1 {
        lo
    } else {
        1nat
    }, if center + ctx <= total {
        center + ctx
    } else {
        total
    })
}

/// The page of lines `first..=last` around a line, empty when the range is empty.
pub open spec fn page_text(lines: Seq<Seq<char>>, first: nat, last: nat, mark: nat) -> Seq<char> {
    if first > last {
        Seq::empty()
    } else {
        join(page_lines(lines, first, last, mark), "\n"@)
    }
}

fn page(lines: &Vec<String>, first: usize, last: usize, mark: usize) -> (r: String)
    requires
        1 <= first,
        last <= lines@.len(),
    ensures
        r@ == page_text(lines@.map_values(|l: String| l@), first as nat, last as nat, mark as nat),
{
    if first > last {
        String::new()
    } else {
        context_page(lines, first, last, mark)
    }
}

fn around_exec(center: usize, ctx: usize, total: usize) -> (r: (usize, usize))
    requires
        center + ctx <= usize::MAX,
    ensures
        (r.0 as nat, r.1 as nat) == around(center as nat, ctx as nat, total as nat),
{
    let lo = if center >= ctx {
        center - ctx
    } else {
        0
    };
    (if lo >= 1 {
        lo
    } else {
        1
    }, if center + ctx <= total {
        center + ctx
    } else {
        total
    })
}

/// The section that shows the lines around the target line of a failed edit.
pub open spec fn target_section(lines: Seq<Seq<char>>, line: nat, ctx: nat) -> Seq<char> {
    let r = around(line, ctx, lines.len());
    "\n目标第 "@ + decimal(line) + " 行附近（±"@ + decimal(ctx) + " 行）的内容：\n"@ + page_text(
        lines,
        r.0,
        r.1,
        line,
    )
}

/// The section that shows the lines around the target line of a failed edit.
pub fn target_context(lines: &Vec<String>, line: usize, ctx: usize) -> (r: String)
    requires
        line + ctx <= usize::MAX,
    ensures
        r@ == target_section(lines@.map_values(|l: String| l@), line as nat, ctx as nat),
{
    let (first, last) = around_exec(line, ctx, lines.len());
    let mut r = String::from_str("\n目标第 ");
    push_decimal(&mut r, line);
    r.append(" 行附近（±");
    push_decimal(&mut r, ctx);
    r.append(" 行）的内容：\n");
    let p = page(lines, first, last, line);
    r.append(p.as_str());
    r
}

/// One candidate of a failed search: its number in the list, its line (from 0) and how
/// similar it is (a percentage as shown), followed by the lines around it.
pub open spec fn candidate_text(
    lines: Seq<Seq<char>>,
    k: nat,
    line: nat,
    similarity: Seq<char>,
    ctx: nat,
    near: bool,
) -> Seq<char> {
    let r = around(line, ctx / 2, lines.len());
    "  "@ + decimal(k + 1) + ". 第 "@ + decimal(line + 1) + (if near {
        " 行附近（相似度 "@
    } else {
        " 行（相似度 "@
    }) + similarity + "%）\n"@ + page_text(lines, r.0, r.1, line + 1) + "\n"@
}

/// The list of the closest candidates of a failed search, in the given order.
pub open spec fn candidates_text(
    lines: Seq<Seq<char>>,
    cands: Seq<(usize, Seq<char>)>,
    ctx: nat,
    near: bool,
) -> Seq<char> {
    join(
        Seq::new(
            cands.len(),
            |k: int| candidate_text(lines, k as nat, cands[k].0 as nat, cands[k].1, ctx, near),
        ),
        ""@,
    )
}

fn candidate_item(lines: &Vec<String>, k: usize, ln: usize, sim: &str, ctx: usize, near: bool) -> (r: String)
    requires
        ln < lines@.len(),
        k < usize::MAX,
        lines@.len() + ctx <= usize::MAX,
    ensures
        r@ == candidate_text(lines@.map_values(|l: String| l@), k as nat, ln as nat, sim@, ctx as nat, near),
{
    let (first, last) = around_exec(ln, ctx / 2, lines.len());
    let mut r = String::from_str("  ");
    push_decimal(&mut r, k + 1);
    r.append(". 第 ");
    push_decimal(&mut r, ln + 1);
    if near {
        r.append(" 行附近（相似度 ");
    } else {
        r.append(" 行（相似度 ");
    }
    r.append(sim);
    r.append("%）\n");
    let p = page(lines, first, last, ln + 1);
    r.append(p.as_str());
    r.append("\n");
    r
}

/// The list of the closest candidates of a failed search (see `candidates_text`); `near`
/// says "line ... or so" rather than "line ...".
pub fn candidate_list(lines: &Vec<String>, cands: &Vec<(usize, String)>, ctx: usize, near: bool) -> (r:
    String)
    requires
        forall|k: int| 0 <= k < cands@.len() ==> (#[trigger] cands@[k]).0 < lines@.len(),
        lines@.len() + ctx <= usize::MAX,
    ensures
        r@ == candidates_text(
            lines@.map_values(|l: String| l@),
            cands@.map_values(|c: (usize, String)| (c.0, c.1@)),
            ctx as nat,
            near,
        ),
{
    let ghost lv = lines@.map_values(|l: String| l@);
    let ghost cv = cands@.map_values(|c: (usize, String)| (c.0, c.1@));
    let ghost items = Seq::new(
        cv.len(),
        |k: int| candidate_text(lv, k as nat, cv[k].0 as nat, cv[k].1, ctx as nat, near),
    );
    let mut r = String::new();
    let mut i: usize = 0;
    while i < cands.len()
        invariant
            i <= cands@.len(),
            lv == lines@.map_values(|l: String| l@),
            cv == cands@.map_values(|c: (usize, String)| (c.0, c.1@)),
            items == Seq::new(
                cv.len(),
                |k: int| candidate_text(lv, k as nat, cv[k].0 as nat, cv[k].1, ctx as nat, near),
            ),
            forall|k: int| 0 <= k < cands@.len() ==> (#[trigger] cands@[k]).0 < lines@.len(),
            lines@.len() + ctx <= usize::MAX,
            r@ == join(items.take(i as int), ""@),
        decreases cands@.len() - i,
    {
        let ln = cands[i].0;
        let item = candidate_item(lines, i, ln, cands[i].1.as_str(), ctx, near);
        let ghost before = r@;
        r.append(item.as_str());
        proof {
            reveal_strlit("");
            assert(cv[i as int] == (ln, cands@[i as int].1@));
            assert(items.take(i + 1).drop_last() =~= items.take(i as int));
            assert(items.take(i + 1).last() == items[i as int]);
            if i == 0 {
                assert(join(items.take(1), ""@) == items[0]);
            } else {
                assert(join(items.take(i + 1), ""@) == join(items.take(i as int), ""@) + ""@ + items[i as int]);
            }
        }
        i = i + 1;
    }
    proof {
        assert(items.take(cands@.len() as int) =~= items);
    }
    r
}

/// The failure report of `raw_edit` (and of a single-file `replace`): with a target line,
/// the lines around it; in literal mode, the closest candidates and a hint; in regex mode, a
/// hint to try literal mode.
pub open spec fn edit_failure_text(
    lines: Seq<Seq<char>>,
    use_regex: bool,
    target: Option<u64>,
    cands: Seq<(usize, Seq<char>)>,
    ctx: nat,
) -> Seq<char> {
    "未找到匹配。"@ + match target {
        Some(t) => target_section(lines, t as usize as nat, ctx),
        None => if !use_regex {
            (if cands.len() > 0 {
                "\n最接近的候选位置：\n"@ + candidates_text(lines, cands, ctx, true)
            } else {
                ""@
            }) + "\n提示：如需查看整行，可使用 read 工具"@
        } else {
            "\n当前为正则模式，如需纯文本匹配请设置 regex=false。"@
        },
    }
}

/// The failure report of an edit (see `edit_failure_text`); `cands` are the closest lines,
/// best first, with their similarity as shown.
pub fn edit_failure_report(
    lines: &Vec<String>,
    use_regex: bool,
    target: Option<u64>,
    cands: &Vec<(usize, String)>,
    ctx: usize,
) -> (r: String)
    requires
        forall|k: int| 0 <= k < cands@.len() ==> (#[trigger] cands@[k]).0 < lines@.len(),
        lines@.len() + ctx <= usize::MAX,
        match target {
            Some(t) => t as usize + ctx <= usize::MAX,
            None => true,
        },
    ensures
        r@ == edit_failure_text(
            lines@.map_values(|l: String| l@),
            use_regex,
            target,
            cands@.map_values(|c: (usize, String)| (c.0, c.1@)),
            ctx as nat,
        ),
{
    let mut r = String::from_str("未找到匹配。");
    proof {
        reveal_strlit("");
    }
    match target {
        Some(t) => {
            let s = target_context(lines, t as usize, ctx);
            r.append(s.as_str());
        },
        None => {
            if !use_regex {
                if cands.len() > 0 {
                    r.append("\n最接近的候选位置：\n");
                    let c = candidate_list(lines, cands, ctx, true);
                    r.append(c.as_str());
                }
                r.append("\n提示：如需查看整行，可使用 read 工具");
            } else {
                r.append("\n当前为正则模式，如需纯文本匹配请设置 regex=false。");
            }
        },
    }
    r
}

/// The failure report of `grep` on a single file in literal mode: the closest lines, if any.
pub open spec fn grep_failure_text(lines: Seq<Seq<char>>, cands: Seq<(usize, Seq<char>)>, ctx: nat) -> Seq<char> {
    "grep: 无匹配。"@ + if cands.len() > 0 {
        "\n最接近的候选行：\n"@ + candidates_text(lines, cands, ctx, false)
    } else {
        ""@
    }
}

/// The failure report of `grep` (see `grep_failure_text`).
pub fn grep_failure_report(lines: &Vec<String>, cands: &Vec<(usize, String)>, ctx: usize) -> (r: String)
    requires
        forall|k: int| 0 <= k < cands@.len() ==> (#[trigger] cands@[k]).0 < lines@.len(),
        lines@.len() + ctx <= usize::MAX,
    ensures
        r@ == grep_failure_text(
            lines@.map_values(|l: String| l@),
            cands@.map_values(|c: (usize, String)| (c.0, c.1@)),
            ctx as nat,
        ),
{
    let mut r = String::from_str("grep: 无匹配。");
    proof {
        reveal_strlit("");
    }
    if cands.len() > 0 {
        r.append("\n最接近的候选行：\n");
        let c = candidate_list(lines, cands, ctx, false);
        r.append(c.as_str());
    }
    r
}

/// The lines (from 0) that contain `pat`.
pub open spec fn lines_containing(lines: Seq<Seq<char>>, pat: Seq<char>) -> Seq<usize>
    decreases lines.len(),
{
    if lines.len() == 0 {
        Seq::empty()
    } else {
        let rest = lines_containing(lines.drop_last(), pat);
        if crate::text::contains_seq(lines.last(), pat) {
            rest.push((lines.len() - 1) as usize)
        } else {
            rest
        }
    }
}

/// The failure report of `block_edit` when no start line is followed by an end line. When
/// no line contains `start`: the closest candidates (or a note that there are none) and a
/// hint. Otherwise: how many start lines matched, the lines around the start line chosen
/// (the one nearest the target line, the first on a tie, or the first), and a hint about
/// the end pattern.
pub open spec fn block_failure_text(
    lines: Seq<Seq<char>>,
    start: Seq<char>,
    end: Seq<char>,
    anchor: int,
    cands: Seq<(usize, Seq<char>)>,
    ctx: nat,
) -> Seq<char> {
    let starts = lines_containing(lines, start);
    if starts.len() == 0 {
        "❌ block_edit 失败：起始行匹配失败\n\n未找到起始行匹配 '"@ + start + "'。"@ + (if cands.len() > 0 {
            "\n最接近的候选位置：\n"@ + candidates_text(lines, cands, ctx, true)
        } else {
            "\n文件中无任何接近的内容。"@
        }) + "\n提示：如需查看文件内容，可使用 read 工具"@
    } else {
        let a = (starts[anchor] + 1) as nat;
        let r = around(a, ctx, lines.len());
        "❌ block_edit 失败：结束行匹配失败\n\n起始行 '"@ + start + "' 已匹配（"@ + decimal(starts.len())
            + " 处），但之后未找到结束行 '"@ + end + "'。"@ + "\n起始行第 "@ + decimal(a) + " 行附近（±"@
            + decimal(ctx) + " 行）的内容：\n"@ + page_text(lines, r.0, r.1, a)
            + "\n提示：检查 end 模式 '"@ + end + "' 是否正确，或确认 start 之后是否存在 end 行。"@
    }
}

proof fn lemma_lines_containing_range(lines: Seq<Seq<char>>, pat: Seq<char>)
    ensures
        forall|k: int|
            0 <= k < lines_containing(lines, pat).len() ==> (#[trigger] lines_containing(lines, pat)[k])
                < lines.len(),
    decreases lines.len(),
{
    if lines.len() > 0 {
        lemma_lines_containing_range(lines.drop_last(), pat);
        let rest = lines_containing(lines.drop_last(), pat);
        let all = lines_containing(lines, pat);
        assert forall|k: int| 0 <= k < all.len() implies (#[trigger] all[k]) < lines.len() by {
            if k < rest.len() {
                assert(all[k] == rest[k]);
            }
        }
    }
}

/// The start line a failed block edit shows: the one nearest the target line (the first on
/// a tie), or the first one without a target.
pub open spec fn anchor_ok(lines: Seq<Seq<char>>, start: Seq<char>, target: Option<u64>, anchor: int) -> bool {
    lines_containing(lines, start).len() > 0 ==> match target {
        Some(t) => crate::splice::chosen_index(
            lines_containing(lines, start),
            Some(t as usize as u64),
            anchor,
        ),
        None => anchor == 0,
    }
}

fn starts_of(lines: &Vec<String>, start: &str) -> (r: Vec<usize>)
    ensures
        r@ == lines_containing(lines@.map_values(|l: String| l@), start@),
{
    let ghost lv = lines@.map_values(|l: String| l@);
    let mut r: Vec<usize> = Vec::new();
    let mut i: usize = 0;
    while i < lines.len()
        invariant
            i <= lines@.len(),
            lv == lines@.map_values(|l: String| l@),
            r@ == lines_containing(lv.take(i as int), start@),
        decreases lines@.len() - i,
    {
        proof {
            assert(lv.take(i + 1).drop_last() =~= lv.take(i as int));
            assert(lv.take(i + 1).last() == lines@[i as int]@);
        }
        if crate::edit::str_contains(lines[i].as_str(), start) {
            r.push(i);
        }
        i = i + 1;
    }
    proof {
        assert(lv.take(lines@.len() as int) =~= lv);
    }
    r
}

/// The failure report of `block_edit` (see `block_failure_text`); `cands` are the lines
/// closest to `start`, best first, with their similarity as shown.
pub fn block_failure_report(
    lines: &Vec<String>,
    start: &str,
    end: &str,
    target: Option<u64>,
    cands: &Vec<(usize, String)>,
    ctx: usize,
) -> (r: String)
    requires
        forall|k: int| 0 <= k < cands@.len() ==> (#[trigger] cands@[k]).0 < lines@.len(),
        lines@.len() + ctx <= usize::MAX,
    ensures
        exists|anchor: int|
            #[trigger] anchor_ok(crate::edit::lines_view(lines@), start@, target, anchor) && r@
                == block_failure_text(
                crate::edit::lines_view(lines@),
                start@,
                end@,
                anchor,
                cands@.map_values(|c: (usize, String)| (c.0, c.1@)),
                ctx as nat,
            ),
{
    let ghost lv = lines@.map_values(|l: String| l@);
    let starts = starts_of(lines, start);
    proof {
        reveal_strlit("");
    }
    if starts.len() == 0 {
        let mut r = String::from_str("❌ block_edit 失败：起始行匹配失败\n\n未找到起始行匹配 '");
        r.append(start);
        r.append("'。");
        if cands.len() > 0 {
            r.append("\n最接近的候选位置：\n");
            let c = candidate_list(lines, cands, ctx, true);
            r.append(c.as_str());
        } else {
            r.append("\n文件中无任何接近的内容。");
        }
        r.append("\n提示：如需查看文件内容，可使用 read 工具");
        proof {
            assert(lv == crate::edit::lines_view(lines@));
            assert(anchor_ok(lv, start@, target, 0));
            assert(r@ == block_failure_text(lv, start@, end@, 0, cands@.map_values(|c: (usize, String)| (c.0, c.1@)), ctx as nat));
        }
        return r;
    }
    let k: usize = match target {
        Some(t) => match crate::splice::select_match(&starts, Some(t as usize as u64)) {
            Ok(k) => k,
            Err(_) => 0,
        },
        None => 0,
    };
    proof {
        assert(lines_containing(lv, start@).len() > 0);
        lemma_lines_containing_range(lv, start@);
        assert(starts@[k as int] < lines@.len());
    }
    let a = starts[k] + 1;
    let (first, last) = around_exec(a, ctx, lines.len());
    let mut r = String::from_str("❌ block_edit 失败：结束行匹配失败\n\n起始行 '");
    r.append(start);
    r.append("' 已匹配（");
    push_decimal(&mut r, starts.len());
    r.append(" 处），但之后未找到结束行 '");
    r.append(end);
    r.append("'。");
    r.append("\n起始行第 ");
    push_decimal(&mut r, a);
    r.append(" 行附近（±");
    push_decimal(&mut r, ctx);
    r.append(" 行）的内容：\n");
    let p = page(lines, first, last, a);
    r.append(p.as_str());
    r.append("\n提示：检查 end 模式 '");
    r.append(end);
    r.append("' 是否正确，或确认 start 之后是否存在 end 行。");
    proof {
        assert(lv == crate::edit::lines_view(lines@));
        assert(anchor_ok(lv, start@, target, k as int));
        assert(r@ == block_failure_text(lv, start@, end@, k as int, cands@.map_values(|c: (usize, String)| (c.0, c.1@)), ctx as nat));
    }
    r
}

/// `a - b`, or zero when `b` is larger (`usize::saturating_sub`).
pub open spec fn sat_sub(a: nat, b: nat) -> nat {
    if a >= b {
        (a - b) as nat
    } else {
        0
    }
}

/// The lines `a..b` of `lines`, each with its number (from 1).
pub open spec fn numbered_range(lines: Seq<Seq<char>>, a: nat, b: nat) -> Seq<Seq<char>> {
    Seq::new(sat_sub(b, a), |i: int| numbered((a + i + 1) as nat, lines[a + i]))
}

/// The token count above which `read` shows only the head and tail of a whole file.
pub open spec fn read_threshold_tok() -> nat {
    2000
}

/// Where `read` cuts a file of `n` lines, asked for `head_lines` lines at the top and
/// `tail_lines` at the bottom: the number of head lines shown and the first tail line (from
/// 0), so that the two never meet.
pub open spec fn cut_bounds(n: nat, head_lines: nat, tail_lines: nat) -> (nat, nat) {
    let h = if head_lines <= sat_sub(n, tail_lines + 1) {
        head_lines
    } else {
        sat_sub(n, tail_lines + 1)
    };
    let ts = if sat_sub(n, tail_lines) >= h + 1 {
        sat_sub(n, tail_lines)
    } else {
        h + 1
    };
    let h2 = if h <= sat_sub(ts, 1) {
        h
    } else {
        sat_sub(ts, 1)
    };
    (h2, ts)
}

/// The notice above a cut file.
pub open spec fn cut_notice(total_tok: nat, n: nat, head: nat, tail_start: nat) -> Seq<char> {
    "[截断：文件较大 (~"@ + decimal(total_tok) + " tok，共 "@ + decimal(n) + " 行)，仅显示 1-"@
        + decimal(head) + " 行 + "@ + decimal(tail_start + 1) + "-"@ + decimal(n)
        + " 行。使用 all=true 或 start_line/end_line 读取完整内容。]"@
}

/// The numbered lines `read` shows of a whole file of `total_tok` tokens, the notices above
/// them, and whether it was cut: every line up to the threshold; above it the head lines, a
/// cut marker and the tail lines (see `cut_bounds`), with a notice.
pub open spec fn cut_view(lines: Seq<Seq<char>>, total_tok: nat, head_lines: nat, tail_lines: nat) -> (
    Seq<Seq<char>>,
    Seq<Seq<char>>,
    bool,
) {
    let n = lines.len();
    if total_tok <= read_threshold_tok() {
        (numbered_range(lines, 0, n), Seq::empty(), false)
    } else {
        let (h, ts) = cut_bounds(n, head_lines, tail_lines);
        (
            numbered_range(lines, 0, h) + seq!["[...截断...]"@] + numbered_range(lines, ts, n),
            seq![cut_notice(total_tok, n, h, ts)],
            true,
        )
    }
}

/// Pushes the numbered lines `a..b` of `lines` onto `out`.
fn push_numbered(out: &mut Vec<String>, lines: &Vec<String>, a: usize, b: usize)
    requires
        a <= b <= lines.len(),
    ensures
        strings_view(final(out)@) == strings_view(old(out)@) + numbered_range(
            strings_view(lines@),
            a as nat,
            b as nat,
        ),
{
    let ghost start = strings_view(out@);
    let ghost lv = strings_view(lines@);
    let mut i = a;
    while i < b
        invariant
            a <= i <= b <= lines.len(),
            lv == strings_view(lines@),
            strings_view(out@) == start + numbered_range(lv, a as nat, i as nat),
        decreases b - i,
    {
        let line = numbered_line(i + 1, lines[i].as_str());
        let ghost before = strings_view(out@);
        out.push(line);
        proof {
            assert(strings_view(out@) =~= before.push(line@));
            assert(numbered_range(lv, a as nat, (i + 1) as nat) =~= numbered_range(
                lv,
                a as nat,
                i as nat,
            ).push(numbered((i + 1) as nat, lv[i as int])));
            assert(strings_view(out@) =~= start + numbered_range(lv, a as nat, (i + 1) as nat));
        }
        i = i + 1;
    }
}

pub open spec fn strings_view(v: Seq<String>) -> Seq<Seq<char>> {
    v.map_values(|s: String| s@)
}

/// The numbered lines `read` shows of a whole file (see `cut_view`), given its token count
/// and the head and tail line counts asked for.
pub fn number_lines_with_cut(lines: &Vec<String>, total_tok: usize, head_lines: usize, tail_lines: usize) -> (r: (
    Vec<String>,
    Vec<String>,
    bool,
))
    requires
        tail_lines < usize::MAX,
        lines@.len() < usize::MAX,
    ensures
        (strings_view(r.0@), strings_view(r.1@), r.2) == cut_view(
            strings_view(lines@),
            total_tok as nat,
            head_lines as nat,
            tail_lines as nat,
        ),
{
    let n = lines.len();
    let ghost lv = strings_view(lines@);
    let mut numbered: Vec<String> = Vec::new();
    proof {
        assert(strings_view(numbered@) =~= Seq::<Seq<char>>::empty());
    }
    if total_tok <= 2000 {
        push_numbered(&mut numbered, lines, 0, n);
        let none: Vec<String> = Vec::new();
        proof {
            assert(strings_view(none@) =~= Seq::<Seq<char>>::empty());
            assert(strings_view(numbered@) =~= numbered_range(lv, 0, n as nat));
        }
        return (numbered, none, false);
    }
    let h = head_lines.min(n.saturating_sub(tail_lines + 1));
    let ts = n.saturating_sub(tail_lines).max(h + 1);
    let h2 = h.min(ts.saturating_sub(1));
    proof {
        assert((h2 as nat, ts as nat) == cut_bounds(n as nat, head_lines as nat, tail_lines as nat));
    }
    let mut notice = String::from_str("[截断：文件较大 (~");
    push_decimal(&mut notice, total_tok);
    notice.append(" tok，共 ");
    push_decimal(&mut notice, n);
    notice.append(" 行)，仅显示 1-");
    push_decimal(&mut notice, h2);
    notice.append(" 行 + ");
    push_decimal(&mut notice, ts + 1);
    notice.append("-");
    push_decimal(&mut notice, n);
    notice.append(" 行。使用 all=true 或 start_line/end_line 读取完整内容。]");
    push_numbered(&mut numbered, lines, 0, h2);
    let ghost head = strings_view(numbered@);
    numbered.push(String::from_str("[...截断...]"));
    let ghost marked = strings_view(numbered@);
    proof {
        assert(marked =~= head.push("[...截断...]"@));
    }
    let tail_from = if ts < n {
        ts
    } else {
        n
    };
    push_numbered(&mut numbered, lines, tail_from, n);
    let mut notices: Vec<String> = Vec::new();
    notices.push(notice);
    proof {
        assert(numbered_range(lv, tail_from as nat, n as nat) =~= numbered_range(lv, ts as nat, n as nat));
        assert(strings_view(numbered@) =~= numbered_range(lv, 0, h2 as nat) + seq!["[...截断...]"@]
            + numbered_range(lv, ts as nat, n as nat));
        assert(strings_view(notices@) =~= seq![cut_notice(total_tok as nat, n as nat, h2 as nat, ts as nat)]);
    }
    (numbered, notices, true)
}

} // verus!

//! The reports of the `find` and `glance` tools: which file names matched, what a directory
//! holds and what a file opens with.
use vstd::prelude::*;

use crate::feedback::{comment_block, leading_comment_lines};
use crate::grep::{grep_pattern, search_pattern};
use crate::splice::{lines_of, text_lines};
use crate::text::{decimal, join, join_strings, push_decimal, trim, trimmed, str_chars};
use crate::settings::u64_to_string;

verus! {

pub open spec fn strings_of(v: Seq<String>) -> Seq<Seq<char>> {
    v.map_values(|s: String| s@)
}

#[verifier::external_type_specification]
#[verifier::external_body]
pub struct ExRegex(regex::Regex);

/// Whether `regex::Regex::new` accepts `pattern`.
pub uninterp spec fn regex_compiles_of(pattern: Seq<char>) -> bool;

/// What `regex::Regex::is_match` answers for the compiled `pattern` on `text`.
pub uninterp spec fn regex_match_of(pattern: Seq<char>, text: Seq<char>) -> bool;

/// A pattern of the `regex` crate, compiled, with its source.
pub struct NamePattern {
    re: regex::Regex,
    source: String,
}

impl NamePattern {
    /// The source the pattern was compiled from.
    pub closed spec fn source(&self) -> Seq<char> {
        self.source@
    }
}

/// Compiles `pattern` with `regex::Regex::new`; the contract names whether it compiles and
/// keeps the source with the compiled pattern.
#[verifier::external_body]
fn compile_regex(pattern: &str) -> (r: Option<NamePattern>)
    ensures
        match r {
            Some(p) => regex_compiles_of(pattern@) && p.source() == pattern@,
            None => !regex_compiles_of(pattern@),
        },
{
    match regex::Regex::new(pattern) {
        Ok(re) => Some(NamePattern { re, source: pattern.to_owned() }),
        Err(_) => None,
    }
}

/// Asks `regex::Regex::is_match` of `text`; the contract names the answer.
#[verifier::external_body]
fn regex_is_match(p: &NamePattern, text: &str) -> (r: bool)
    ensures
        r == regex_match_of(p.source(), text@),
{
    p.re.is_match(text)
}

/// Which of `names` a pattern of the `regex` crate matches (`None` when the pattern does not
/// compile).
pub open spec fn regex_name_hits_of(pattern: Seq<char>, names: Seq<Seq<char>>) -> Option<Seq<bool>> {
    if regex_compiles_of(pattern) {
        Some(Seq::new(names.len(), |k: int| regex_match_of(pattern, names[k])))
    } else {
        None
    }
}

/// Which of `names` the pattern matches (see `regex_name_hits_of`).
fn name_hits(pattern: &str, names: &Vec<String>) -> (r: Option<Vec<bool>>)
    ensures
        match r {
            Some(v) => regex_name_hits_of(pattern@, strings_of(names@)) == Some(v@) && v@.len()
                == names@.len(),
            None => regex_name_hits_of(pattern@, strings_of(names@)) is None,
        },
{
    let p = match compile_regex(pattern) {
        Some(p) => p,
        None => return None,
    };
    let ghost nv = strings_of(names@);
    let mut hits: Vec<bool> = Vec::new();
    let mut i: usize = 0;
    while i < names.len()
        invariant
            i <= names@.len(),
            nv == strings_of(names@),
            p.source() == pattern@,
            hits@ == Seq::new(i as nat, |k: int| regex_match_of(pattern@, nv[k])),
        decreases names@.len() - i,
    {
        let hit = regex_is_match(&p, names[i].as_str());
        hits.push(hit);
        proof {
            assert(nv[i as int] == names@[i as int]@);
            assert(hits@ =~= Seq::new((i + 1) as nat, |k: int| regex_match_of(pattern@, nv[k])));
        }
        i = i + 1;
    }
    Some(hits)
}

/// Which of the file names `names` the `find` pattern matches: the user's pattern as a
/// regular expression, or escaped to match literally; `None` when it does not compile.
pub fn find_matches(pattern: &str, use_regex: bool, names: &Vec<String>) -> (r: Option<Vec<bool>>)
    ensures
        match r {
            Some(v) => regex_name_hits_of(search_pattern(pattern@, use_regex), strings_of(names@))
                == Some(v@) && v@.len() == names@.len(),
            None => regex_name_hits_of(search_pattern(pattern@, use_regex), strings_of(names@)) is None,
        },
{
    let p = grep_pattern(pattern, use_regex);
    name_hits(p.as_str(), names)
}

/// The head of a `find` report: `find "{pattern}" in {path}:` and a line break.
pub open spec fn find_header(pattern: Seq<char>, path: Seq<char>) -> Seq<char> {
    "find \""@ + pattern + "\" in "@ + path + ":\n"@
}

/// The whole `find` report: the head, every matching entry on a line of its own, and the
/// number of matches.
pub open spec fn find_full(pattern: Seq<char>, path: Seq<char>, results: Seq<Seq<char>>) -> Seq<char> {
    find_header(pattern, path) + join(results, "\n"@) + "\n── 共 "@ + decimal(results.len()) + " 个匹配"@
}

/// The `find` report shown to the model: the whole report when there are at most `max`
/// matches; otherwise the first `max` of them, how many are left out and where the whole
/// report was saved.
pub open spec fn find_shown(
    pattern: Seq<char>,
    path: Seq<char>,
    results: Seq<Seq<char>>,
    max: nat,
    saved: Seq<char>,
) -> Seq<char> {
    if results.len() <= max {
        find_full(pattern, path, results)
    } else {
        find_header(pattern, path) + join(results.take(max as int), "\n"@) + "\n...以及 "@ + decimal(
            (results.len() - max) as nat,
        ) + " 个匹配（共 "@ + decimal(results.len()) + " 个），完整输出: "@ + saved + "\n"@
    }
}

fn append_header(r: &mut String, pattern: &str, path: &str)
    ensures
        final(r)@ == old(r)@ + find_header(pattern@, path@),
{
    r.append("find \"");
    r.append(pattern);
    r.append("\" in ");
    r.append(path);
    r.append(":\n");
    proof {
        reveal_strlit("find \"");
        reveal_strlit("\" in ");
        reveal_strlit(":\n");
    }
}

/// The whole `find` report (see `find_full`), as it is saved when the shown one is cut.
pub fn find_full_text(pattern: &str, path: &str, results: &Vec<String>) -> (r: String)
    ensures
        r@ == find_full(pattern@, path@, strings_of(results@)),
{
    let mut r = String::new();
    append_header(&mut r, pattern, path);
    let body = join_strings(results, "\n");
    r.append(body.as_str());
    r.append("\n── 共 ");
    push_decimal(&mut r, results.len());
    r.append(" 个匹配");
    r
}

/// The `find` report shown to the model (see `find_shown`).
pub fn find_summary(pattern: &str, path: &str, results: &Vec<String>, max: usize, saved: &str) -> (r:
    String)
    ensures
        r@ == find_shown(pattern@, path@, strings_of(results@), max as nat, saved@),
{
    if results.len() <= max {
        return find_full_text(pattern, path, results);
    }
    let mut shown: Vec<String> = Vec::new();
    let mut i: usize = 0;
    while i < max
        invariant
            i <= max < results@.len(),
            strings_of(shown@) == strings_of(results@).take(i as int),
        decreases max - i,
    {
        let ghost before = strings_of(shown@);
        shown.push(results[i].clone());
        proof {
            assert(strings_of(results@)[i as int] == results@[i as int]@);
            assert(strings_of(shown@) =~= before.push(results@[i as int]@));
            assert(strings_of(shown@) =~= strings_of(results@).take(i + 1));
        }
        i = i + 1;
    }
    let mut r = String::new();
    append_header(&mut r, pattern, path);
    let body = join_strings(&shown, "\n");
    r.append(body.as_str());
    r.append("\n...以及 ");
    push_decimal(&mut r, results.len() - max);
    r.append(" 个匹配（共 ");
    push_decimal(&mut r, results.len());
    r.append(" 个），完整输出: ");
    r.append(saved);
    r.append("\n");
    r
}

/// One entry of a directory listing: a directory as `  [DIR] {name}/`, a file as
/// `  [FILE] {name} ({size} bytes)` with ` 开头: {hint}` when the file opens with comments.
pub open spec fn dir_entry(name: Seq<char>, is_dir: bool, size: nat, hint: Option<Seq<char>>) -> Seq<
    char,
> {
    if is_dir {
        "  [DIR] "@ + name + "/"@
    } else {
        "  [FILE] "@ + name + " ("@ + decimal(size) + " bytes)"@ + match hint {
            Some(h) => " 开头: "@ + h,
            None => ""@,
        }
    }
}

/// One entry of a directory listing (see `dir_entry`).
pub fn dir_entry_line(name: &str, is_dir: bool, size: u64, hint: Option<&str>) -> (r: String)
    ensures
        r@ == dir_entry(
            name@,
            is_dir,
            size as nat,
            match hint {
                Some(h) => Some(h@),
                None => None,
            },
        ),
{
    proof {
        reveal_strlit("");
    }
    if is_dir {
        let mut r = String::from_str("  [DIR] ");
        r.append(name);
        r.append("/");
        return r;
    }
    let mut r = String::from_str("  [FILE] ");
    r.append(name);
    r.append(" (");
    let digits = u64_to_string(size);
    r.append(digits.as_str());
    r.append(" bytes)");
    if let Some(h) = hint {
        r.append(" 开头: ");
        r.append(h);
    }
    r
}

/// A directory listing: `[DIR] {path} ({n} 项):` and each entry on a line of its own.
pub open spec fn dir_text(path: Seq<char>, entries: Seq<Seq<char>>) -> Seq<char> {
    join(seq!["[DIR] "@ + path + " ("@ + decimal(entries.len()) + " 项):"@] + entries, "\n"@)
}

/// A directory listing (see `dir_text`).
pub fn dir_listing(path: &str, entries: &Vec<String>) -> (r: String)
    ensures
        r@ == dir_text(path@, strings_of(entries@)),
{
    let mut head = String::from_str("[DIR] ");
    head.append(path);
    head.append(" (");
    push_decimal(&mut head, entries.len());
    head.append(" 项):");
    let mut all: Vec<String> = Vec::new();
    all.push(head);
    let mut i: usize = 0;
    while i < entries.len()
        invariant
            i <= entries@.len(),
            all@.len() == i + 1,
            strings_of(all@).drop_first() == strings_of(entries@).take(i as int),
            all@[0]@ == "[DIR] "@ + path@ + " ("@ + decimal(entries@.len()) + " 项):"@,
        decreases entries@.len() - i,
    {
        all.push(entries[i].clone());
        proof {
            assert(strings_of(all@).drop_first() =~= strings_of(entries@).take(i + 1));
        }
        i = i + 1;
    }
    proof {
        assert(strings_of(entries@).take(entries@.len() as int) =~= strings_of(entries@));
        assert(strings_of(all@) =~= seq![all@[0]@] + strings_of(entries@));
    }
    join_strings(&all, "\n")
}

/// The directory listing shown to the model: the whole listing when it has at most `max`
/// entries; otherwise its first line, its next lines up to the `max`-th, how many entries
/// are left out and where the whole listing was saved.
pub open spec fn dir_shown(full: Seq<char>, count: nat, max: nat, saved: Seq<char>) -> Seq<char> {
    let lines = text_lines(full);
    let last = if max <= lines.len() - 1 {
        max as int
    } else {
        lines.len() - 1
    };
    if count <= max {
        full
    } else {
        lines[0] + "\n"@ + join(lines.subrange(1, last + 1), "\n"@) + "\n...以及 "@ + decimal(
            (count - max) as nat,
        ) + " 个未显示项（共 "@ + decimal(count) + " 项），完整输出: "@ + saved + "\n"@
    }
}

/// The directory listing shown to the model (see `dir_shown`).
pub fn dir_summary(full: &str, count: usize, max: usize, saved: &str) -> (r: String)
    requires
        text_lines(full@).len() > 0,
    ensures
        r@ == dir_shown(full@, count as nat, max as nat, saved@),
{
    if count <= max {
        return full.to_owned();
    }
    let lines = lines_of(full);
    let ghost lv = strings_of(lines@);
    let last = if max <= lines.len() - 1 {
        max
    } else {
        lines.len() - 1
    };
    let mut shown: Vec<String> = Vec::new();
    let end = last + 1;
    let mut i: usize = 1;
    while i < end
        invariant
            1 <= i <= end,
            end == last + 1,
            last < lines@.len(),
            lv == strings_of(lines@),
            strings_of(shown@) == lv.subrange(1, i as int),
        decreases end - i,
    {
        let ghost before = strings_of(shown@);
        shown.push(lines[i].clone());
        proof {
            assert(lv[i as int] == lines@[i as int]@);
            assert(strings_of(shown@) =~= before.push(lines@[i as int]@));
            assert(strings_of(shown@) =~= lv.subrange(1, i + 1));
        }
        i = i + 1;
    }
    let mut r = lines[0].clone();
    r.append("\n");
    let body = join_strings(&shown, "\n");
    r.append(body.as_str());
    r.append("\n...以及 ");
    push_decimal(&mut r, count - max);
    r.append(" 个未显示项（共 ");
    push_decimal(&mut r, count);
    r.append(" 项），完整输出: ");
    r.append(saved);
    r.append("\n");
    r
}

/// The first `k` lines from `i` on that are not blank.
pub open spec fn first_nonblank(lines: Seq<Seq<char>>, i: int, k: nat) -> Seq<Seq<char>>
    decreases lines.len() - i,
{
    if k == 0 || i < 0 || i >= lines.len() {
        Seq::empty()
    } else if trimmed(lines[i]).len() == 0 {
        first_nonblank(lines, i + 1, k)
    } else {
        seq![lines[i]] + first_nonblank(lines, i + 1, (k - 1) as nat)
    }
}

/// What `glance` shows of a file's opening: its comment block (within the first `max`
/// lines) and, when that has fewer than three lines or there is none, the first three lines
/// that are not blank.
pub open spec fn file_preview(content: Seq<char>, max: nat) -> Option<Seq<char>> {
    let head = first_nonblank(text_lines(content), 0, 3);
    let head_text = "[文件前 "@ + decimal(head.len()) + " 行内容]:\n"@ + join(head, "\n"@);
    match comment_block(content, max) {
        Some(c) => if text_lines(c).len() >= 3 {
            Some("开头注释:\n"@ + c)
        } else {
            Some(
                "开头注释:\n"@ + c + if head.len() > 0 {
                    "\n"@ + head_text
                } else {
                    ""@
                },
            )
        },
        None => if head.len() > 0 {
            Some(head_text)
        } else {
            None
        },
    }
}

/// What `glance` says of a file: `[FILE] {path} ({size} bytes, {n} 行)`, the preview of
/// its opening, and a hint to use `read` when it has more than 500 lines. A file that could
/// not be read counts no lines and has no preview.
pub open spec fn file_glance(path: Seq<char>, size: nat, content: Option<Seq<char>>, max: nat) -> Seq<
    char,
> {
    let n = match content {
        Some(c) => text_lines(c).len(),
        None => 0,
    };
    let preview = match content {
        Some(c) => file_preview(c, max),
        None => None,
    };
    "[FILE] "@ + path + " ("@ + decimal(size) + " bytes, "@ + decimal(n) + " 行)"@ + match preview {
        Some(p) => "\n"@ + p,
        None => ""@,
    } + if n > 500 {
        "\n[提示] 文件共 "@ + decimal(n) + " 行，仅显示文件开头。如需完整内容请使用 read 工具。"@
    } else {
        ""@
    }
}

fn nonblank_head(lines: &Vec<String>) -> (r: Vec<String>)
    ensures
        strings_of(r@) == first_nonblank(strings_of(lines@), 0, 3),
{
    let ghost lv = strings_of(lines@);
    let mut r: Vec<String> = Vec::new();
    let mut i: usize = 0;
    while i < lines.len() && r.len() < 3
        invariant
            i <= lines@.len(),
            r@.len() <= 3,
            lv == strings_of(lines@),
            strings_of(r@) + first_nonblank(lv, i as int, (3 - r@.len()) as nat) == first_nonblank(
                lv,
                0,
                3,
            ),
        decreases lines@.len() - i,
    {
        let t = trim(lines[i].as_str());
        let tc = str_chars(t.as_str());
        proof {
            assert(lv[i as int] == lines@[i as int]@);
        }
        if tc.len() > 0 {
            let ghost before = strings_of(r@);
            r.push(lines[i].clone());
            proof {
                assert(strings_of(r@) =~= before.push(lv[i as int]));
                assert(before.push(lv[i as int]) + first_nonblank(lv, i + 1, (3 - r@.len()) as nat)
                    =~= before + (seq![lv[i as int]] + first_nonblank(
                    lv,
                    i + 1,
                    (3 - r@.len()) as nat,
                )));
            }
        }
        i = i + 1;
    }
    proof {
        assert(first_nonblank(lv, i as int, (3 - r@.len()) as nat) =~= Seq::<Seq<char>>::empty());
        assert(strings_of(r@) + Seq::<Seq<char>>::empty() =~= strings_of(r@));
    }
    r
}

/// The preview of a file's opening (see `file_preview`).
pub fn preview_text(content: &str, max: usize) -> (r: Option<String>)
    ensures
        match r {
            Some(s) => file_preview(content@, max as nat) == Some(s@),
            None => file_preview(content@, max as nat) is None,
        },
{
    let lines = lines_of(content);
    let head = nonblank_head(&lines);
    let mut head_text = String::from_str("[文件前 ");
    push_decimal(&mut head_text, head.len());
    head_text.append(" 行内容]:\n");
    let joined = join_strings(&head, "\n");
    head_text.append(joined.as_str());
    proof {
        reveal_strlit("");
    }
    match leading_comment_lines(content, max) {
        Some(c) => {
            let c_lines = lines_of(c.as_str());
            let mut r = String::from_str("开头注释:\n");
            r.append(c.as_str());
            if c_lines.len() < 3 && head.len() > 0 {
                r.append("\n");
                r.append(head_text.as_str());
            }
            Some(r)
        },
        None => {
            if head.len() > 0 {
                Some(head_text)
            } else {
                None
            }
        },
    }
}

/// What `glance` says of a file (see `file_glance`).
pub fn file_glance_text(path: &str, size: u64, content: Option<&str>, max: usize) -> (r: String)
    ensures
        r@ == file_glance(
            path@,
            size as nat,
            match content {
                Some(c) => Some(c@),
                None => None,
            },
            max as nat,
        ),
{
    let (n, preview): (usize, Option<String>) = match content {
        Some(c) => {
            let lines = lines_of(c);
            (lines.len(), preview_text(c, max))
        },
        None => (0, None),
    };
    proof {
        reveal_strlit("");
    }
    let mut r = String::from_str("[FILE] ");
    r.append(path);
    r.append(" (");
    let digits = u64_to_string(size);
    r.append(digits.as_str());
    r.append(" bytes, ");
    push_decimal(&mut r, n);
    r.append(" 行)");
    if let Some(p) = preview {
        r.append("\n");
        r.append(p.as_str());
    }
    if n > 500 {
        r.append("\n[提示] 文件共 ");
        push_decimal(&mut r, n);
        r.append(" 行，仅显示文件开头。如需完整内容请使用 read 工具。");
    }
    r
}

} // verus!

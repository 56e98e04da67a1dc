//! The search of the `grep` tool: which lines of a file match, how each match is shown with
//! its context, and the summary of all matches.
use vstd::prelude::*;

use crate::edit::{normalize, normalized};
use crate::splice::{lines_of, text_lines};
use crate::text::{decimal, join, join_strings, push_decimal};

verus! {

/// The characters that have a meaning in a regular expression (`regex_syntax::is_meta_character`).
pub open spec fn is_meta_character(c: char) -> bool {
    c == '\\' || c == '.' || c == '+' || c == '*' || c == '?' || c == '(' || c == ')' || c == '|'
        || c == '[' || c == ']' || c == '{' || c == '}' || c == '^' || c == '$' || c == '#' || c
        == '&' || c == '-' || c == '~'
}

/// `pattern` with a backslash put before each meta character, so that it matches itself
/// literally.
pub open spec fn regex_escape_of(pattern: Seq<char>) -> Seq<char>
    decreases pattern.len(),
{
    if pattern.len() == 0 {
        Seq::empty()
    } else {
        let c = pattern[0];
        (if is_meta_character(c) {
            seq!['\\', c]
        } else {
            seq![c]
        }) + regex_escape_of(pattern.drop_first())
    }
}

/// Escapes the meta characters of `pattern` with `regex::escape` (which hands the text to
/// `regex_syntax::escape_into`: a backslash before each character for which
/// `is_meta_character` holds, every character copied).
#[verifier::external_body]
fn regex_escape(pattern: &str) -> (r: String)
    ensures
        r@ == regex_escape_of(pattern@),
{
    regex::escape(pattern)
}

#[verifier::external_type_specification]
#[verifier::external_body]
pub struct ExFancyRegex(fancy_regex::Regex);

/// Whether `fancy_regex::Regex::new` accepts `pattern`.
pub uninterp spec fn fancy_compiles_of(pattern: Seq<char>) -> bool;

/// What `fancy_regex::Regex::is_match` answers for the compiled `pattern` on `text`: `None`
/// when matching fails (a backtracking limit is hit).
pub uninterp spec fn fancy_match_of(pattern: Seq<char>, text: Seq<char>) -> Option<bool>;

/// A `fancy_regex` pattern, compiled, with its source.
pub struct FancyPattern {
    re: fancy_regex::Regex,
    source: String,
}

impl FancyPattern {
    /// The source the pattern was compiled from.
    pub closed spec fn source(&self) -> Seq<char> {
        self.source@
    }
}

/// Compiles `pattern` with `fancy_regex::Regex::new`; the contract names whether it
/// compiles and keeps the source with the compiled pattern.
#[verifier::external_body]
fn compile_fancy(pattern: &str) -> (r: Option<FancyPattern>)
    ensures
        match r {
            Some(p) => fancy_compiles_of(pattern@) && p.source() == pattern@,
            None => !fancy_compiles_of(pattern@),
        },
{
    match fancy_regex::Regex::new(pattern) {
        Ok(re) => Some(FancyPattern { re, source: pattern.to_owned() }),
        Err(_) => None,
    }
}

/// Asks `fancy_regex::Regex::is_match` of `text`; the contract names the answer.
#[verifier::external_body]
fn fancy_is_match(p: &FancyPattern, text: &str) -> (r: Option<bool>)
    ensures
        r == fancy_match_of(p.source(), text@),
{
    p.re.is_match(text).ok()
}

pub open spec fn strings_view(v: Seq<String>) -> Seq<Seq<char>> {
    v.map_values(|s: String| s@)
}

/// Which of `lines` a `fancy_regex` pattern matches (`None` when the pattern does not
/// compile); a line on which matching fails counts as not matching.
pub open spec fn fancy_line_hits_of(pattern: Seq<char>, lines: Seq<Seq<char>>) -> Option<Seq<bool>> {
    if fancy_compiles_of(pattern) {
        Some(Seq::new(lines.len(), |k: int| fancy_match_of(pattern, lines[k]) == Some(true)))
    } else {
        None
    }
}

/// Which of `lines` the pattern matches (see `fancy_line_hits_of`).
fn line_hits(pattern: &str, lines: &Vec<String>) -> (r: Option<Vec<bool>>)
    ensures
        match r {
            Some(v) => fancy_line_hits_of(pattern@, strings_view(lines@)) == Some(v@) && v@.len()
                == lines@.len(),
            None => fancy_line_hits_of(pattern@, strings_view(lines@)) is None,
        },
{
    let p = match compile_fancy(pattern) {
        Some(p) => p,
        None => return None,
    };
    let ghost lv = strings_view(lines@);
    let mut hits: Vec<bool> = Vec::new();
    let mut i: usize = 0;
    while i < lines.len()
        invariant
            i <= lines@.len(),
            lv == strings_view(lines@),
            p.source() == pattern@,
            hits@ == Seq::new(i as nat, |k: int| fancy_match_of(pattern@, lv[k]) == Some(true)),
        decreases lines@.len() - i,
    {
        let m = fancy_is_match(&p, lines[i].as_str());
        let hit = match m {
            Some(b) => b,
            None => false,
        };
        hits.push(hit);
        proof {
            assert(lv[i as int] == lines@[i as int]@);
            assert(hits@ =~= Seq::new((i + 1) as nat, |k: int| fancy_match_of(pattern@, lv[k]) == Some(true)));
        }
        i = i + 1;
    }
    Some(hits)
}

/// The pattern `grep` searches with: the user's pattern as a regular expression, or
/// escaped to match literally.
pub open spec fn search_pattern(pattern: Seq<char>, use_regex: bool) -> Seq<char> {
    if use_regex {
        pattern
    } else {
        regex_escape_of(pattern)
    }
}

/// The pattern `grep` searches with (see `search_pattern`).
pub fn grep_pattern(pattern: &str, use_regex: bool) -> (r: String)
    ensures
        r@ == search_pattern(pattern@, use_regex),
{
    if use_regex {
        pattern.to_owned()
    } else {
        regex_escape(pattern)
    }
}

/// A line shown with its number: "{n}  {line}", indented by two spaces for a context line.
pub open spec fn hit_line(n: nat, line: Seq<char>, context: bool) -> Seq<char> {
    (if context {
        "  "@
    } else {
        ""@
    }) + decimal(n) + "  "@ + line
}

/// The block shown for a match on line `i` (from 0): the line itself first, then the
/// context lines before it, then those after it, within `c` lines.
pub open spec fn hit_block(lines: Seq<Seq<char>>, i: int, c: nat) -> Seq<Seq<char>> {
    let start = if i >= c {
        i - c
    } else {
        0
    };
    let end = if i + c + 1 <= lines.len() {
        i + c + 1
    } else {
        lines.len() as int
    };
    seq![hit_line((i + 1) as nat, lines[i], false)] + Seq::new(
        (i - start) as nat,
        |k: int| hit_line((start + k + 1) as nat, lines[start + k], true),
    ) + Seq::new((end - i - 1) as nat, |k: int| hit_line((i + 2 + k) as nat, lines[i + 1 + k], true))
}

/// The blocks of the matched lines (from line `i` on), in order.
pub open spec fn hit_blocks(lines: Seq<Seq<char>>, hits: Seq<bool>, c: nat, i: int) -> Seq<Seq<char>>
    decreases lines.len() - i,
{
    if i < 0 || i >= lines.len() || i >= hits.len() {
        Seq::empty()
    } else if hits[i] {
        seq![join(hit_block(lines, i, c), "\n"@)] + hit_blocks(lines, hits, c, i + 1)
    } else {
        hit_blocks(lines, hits, c, i + 1)
    }
}

fn hit_line_exec(n: usize, line: &str, context: bool) -> (r: String)
    ensures
        r@ == hit_line(n as nat, line@, context),
{
    let mut r = if context {
        String::from_str("  ")
    } else {
        String::new()
    };
    proof {
        reveal_strlit("");
    }
    push_decimal(&mut r, n);
    r.append("  ");
    r.append(line);
    r
}

fn hit_block_exec(lines: &Vec<String>, i: usize, c: usize) -> (r: String)
    requires
        i < lines@.len(),
        lines@.len() + c <= usize::MAX,
    ensures
        r@ == join(hit_block(strings_view(lines@), i as int, c as nat), "\n"@),
{
    let ghost lv = strings_view(lines@);
    let start = if i >= c {
        i - c
    } else {
        0
    };
    let end = if i + c + 1 <= lines.len() {
        i + c + 1
    } else {
        lines.len()
    };
    let mut parts: Vec<String> = Vec::new();
    parts.push(hit_line_exec(i + 1, lines[i].as_str(), false));
    let mut j: usize = start;
    while j < i
        invariant
            start <= j <= i < lines@.len(),
            lv == strings_view(lines@),
            parts@.len() == 1 + (j - start),
            parts@[0]@ == hit_line((i + 1) as nat, lv[i as int], false),
            forall|k: int| 0 <= k < j - start ==> (#[trigger] parts@[1 + k])@ == hit_line(
                (start + k + 1) as nat,
                lv[start + k],
                true,
            ),
        decreases i - j,
    {
        proof {
            assert(lv[j as int] == lines@[j as int]@);
        }
        parts.push(hit_line_exec(j + 1, lines[j].as_str(), true));
        j = j + 1;
    }
    let mut q: usize = i + 1;
    while q < end
        invariant
            i < q <= end <= lines@.len(),
            start <= i,
            lv == strings_view(lines@),
            parts@.len() == 1 + (i - start) + (q - i - 1),
            parts@[0]@ == hit_line((i + 1) as nat, lv[i as int], false),
            forall|k: int| 0 <= k < i - start ==> (#[trigger] parts@[1 + k])@ == hit_line(
                (start + k + 1) as nat,
                lv[start + k],
                true,
            ),
            forall|k: int| 0 <= k < q - i - 1 ==> (#[trigger] parts@[1 + (i - start) + k])@ == hit_line(
                (i + 2 + k) as nat,
                lv[i + 1 + k],
                true,
            ),
        decreases end - q,
    {
        proof {
            assert(lv[q as int] == lines@[q as int]@);
        }
        parts.push(hit_line_exec(q + 1, lines[q].as_str(), true));
        q = q + 1;
    }
    proof {
        let hb = hit_block(lv, i as int, c as nat);
        let a = seq![hit_line((i + 1) as nat, lv[i as int], false)];
        let b = Seq::new(
            (i - start) as nat,
            |k: int| hit_line((start + k + 1) as nat, lv[start + k], true),
        );
        let d = Seq::new((end - i - 1) as nat, |k: int| hit_line((i + 2 + k) as nat, lv[i + 1 + k], true));
        assert(hb == a + b + d);
        assert forall|k: int| 0 <= k < parts@.len() implies (#[trigger] parts@[k])@ == hb[k] by {
            if k == 0 {
            } else if k < 1 + (i - start) {
                assert(parts@[1 + (k - 1)]@ == hit_line((start + (k - 1) + 1) as nat, lv[start + (k - 1)], true));
            } else {
                let j = k - 1 - (i - start);
                assert(parts@[1 + (i - start) + j]@ == hit_line((i + 2 + j) as nat, lv[i + 1 + j], true));
            }
        }
        assert(parts@.map_values(|p: String| p@) =~= hb);
    }
    join_strings(&parts, "\n")
}

/// The entry of one file in the search results: "[{path}]" and the blocks of its matches
/// separated by "---" lines, with the number of matches; `None` when nothing matched.
pub open spec fn file_entry(path: Seq<char>, blocks: Seq<Seq<char>>) -> Option<(Seq<char>, nat)> {
    if blocks.len() == 0 {
        None
    } else {
        Some(("["@ + path + "]\n"@ + join(blocks, "\n---\n"@), blocks.len()))
    }
}

/// Why a search could not be made.
pub enum GrepError {
    /// The pattern does not compile: "搜索模式无效".
    InvalidPattern,
}

/// Searches the content of one file (normalised first) for `pattern` (see `hit_blocks` and
/// `file_entry`).
pub fn search_content(path: &str, content: &str, pattern: &str, use_regex: bool, context_lines: usize) -> (r:
    Result<Option<(String, usize)>, GrepError>)
    requires
        text_lines(normalized(content@)).len() + context_lines <= usize::MAX,
    ensures
        ({
            let lines = text_lines(normalized(content@));
            let p = search_pattern(pattern@, use_regex);
            match r {
                Err(GrepError::InvalidPattern) => fancy_line_hits_of(p, lines) is None,
                Ok(e) => fancy_line_hits_of(p, lines) matches Some(hits) && match e {
                    Some((text, n)) => file_entry(path@, hit_blocks(lines, hits, context_lines as nat, 0))
                        == Some((text@, n as nat)),
                    None => file_entry(path@, hit_blocks(lines, hits, context_lines as nat, 0)) is None,
                },
            }
        }),
{
    let norm = normalize(content);
    let lines = lines_of(norm.as_str());
    let ghost lv = strings_view(lines@);
    let p = grep_pattern(pattern, use_regex);
    let hits = match line_hits(p.as_str(), &lines) {
        Some(h) => h,
        None => return Err(GrepError::InvalidPattern),
    };
    let mut blocks: Vec<String> = Vec::new();
    let mut i: usize = 0;
    proof {
        assert(lv == text_lines(normalized(content@)));
    }
    while i < lines.len()
        invariant
            i <= lines@.len() == hits@.len(),
            lv == strings_view(lines@),
            lines@.len() + context_lines <= usize::MAX,
            blocks@.map_values(|b: String| b@) + hit_blocks(lv, hits@, context_lines as nat, i as int)
                == hit_blocks(lv, hits@, context_lines as nat, 0),
        decreases lines@.len() - i,
    {
        if hits[i] {
            let b = hit_block_exec(&lines, i, context_lines);
            let ghost before = blocks@.map_values(|b: String| b@);
            blocks.push(b);
            proof {
                assert(blocks@.map_values(|b: String| b@) =~= before.push(b@));
                assert(before.push(b@) + hit_blocks(lv, hits@, context_lines as nat, i + 1) =~= before + (
                seq![b@] + hit_blocks(lv, hits@, context_lines as nat, i + 1)));
            }
        }
        i = i + 1;
    }
    proof {
        assert(blocks@.map_values(|b: String| b@) + Seq::<Seq<char>>::empty() =~= blocks@.map_values(
            |b: String| b@,
        ));
    }
    if blocks.len() == 0 {
        return Ok(None);
    }
    let mut text = String::from_str("[");
    text.append(path);
    text.append("]\n");
    let body = join_strings(&blocks, "\n---\n");
    text.append(body.as_str());
    Ok(Some((text, blocks.len())))
}

/// The sum of the match counts from entry `i` on.
pub open spec fn sum_from(counts: Seq<usize>, i: int) -> nat
    decreases counts.len() - i,
{
    if i < 0 || i >= counts.len() {
        0
    } else {
        (counts[i] + sum_from(counts, i + 1)) as nat
    }
}

/// How many file entries the summary shows: entries are taken until the matches shown reach
/// the limit.
pub open spec fn shown_entries(counts: Seq<usize>, max: nat, i: int, shown: nat) -> int
    decreases counts.len() - i,
{
    if i < 0 || i >= counts.len() || shown >= max {
        i
    } else {
        shown_entries(counts, max, i + 1, (shown + counts[i]) as nat)
    }
}

/// The matches in the entries a summary shows.
pub open spec fn shown_count(counts: Seq<usize>, max: nat, i: int, shown: nat) -> nat
    decreases counts.len() - i,
{
    if i < 0 || i >= counts.len() || shown >= max {
        shown
    } else {
        shown_count(counts, max, i + 1, (shown + counts[i]) as nat)
    }
}

proof fn lemma_shown_le_total(counts: Seq<usize>, max: nat, i: int, shown: nat)
    requires
        0 <= i,
    ensures
        shown <= shown_count(counts, max, i, shown) <= shown + sum_from(counts, i),
    decreases counts.len() - i,
{
    if i < counts.len() && shown < max {
        lemma_shown_le_total(counts, max, i + 1, (shown + counts[i]) as nat);
    }
}

/// The full search result: "grep \"{pattern}\" 匹配 {total} 处:" and every file entry,
/// separated by "---" lines.
pub open spec fn full_report(pattern: Seq<char>, texts: Seq<Seq<char>>, total: nat) -> Seq<char> {
    "grep \""@ + pattern + "\" 匹配 "@ + decimal(total) + " 处:\n"@ + join(texts, "\n---\n"@)
}

/// The summary of a search with more matches than are shown: the first entries, then how
/// many matches are left out and where the full result was saved, if anywhere.
pub open spec fn cut_report(
    pattern: Seq<char>,
    texts: Seq<Seq<char>>,
    total: nat,
    max: nat,
    shown_n: int,
    over: nat,
    saved: Option<Seq<char>>,
) -> Seq<char> {
    "grep \""@ + pattern + "\" 匹配 "@ + decimal(total) + " 处（显示前 "@ + decimal(max) + " 条）:\n"@
        + join(texts.take(shown_n), "\n---\n"@) + match saved {
        Some(p) => "\n...以及 "@ + decimal(over) + " 条匹配（共 "@ + decimal(total) + " 条），完整输出: "@
            + p + "\n"@,
        None => "\n...以及 "@ + decimal(over) + " 条匹配（共 "@ + decimal(total)
            + " 条），未设置 console 目录，请缩小搜索范围。\n"@,
    }
}

pub open spec fn entry_texts(v: Seq<(String, usize)>) -> Seq<Seq<char>> {
    v.map_values(|e: (String, usize)| e.0@)
}

pub open spec fn entry_counts(v: Seq<(String, usize)>) -> Seq<usize> {
    v.map_values(|e: (String, usize)| e.1)
}

/// The total number of matches of the file entries.
pub fn total_matches(entries: &Vec<(String, usize)>) -> (t: usize)
    requires
        sum_from(entry_counts(entries@), 0) <= usize::MAX,
    ensures
        t == sum_from(entry_counts(entries@), 0),
{
    let ghost c = entry_counts(entries@);
    let mut t: usize = 0;
    let mut i: usize = 0;
    while i < entries.len()
        invariant
            i <= entries@.len() == c.len(),
            c == entry_counts(entries@),
            sum_from(c, 0) <= usize::MAX,
            t + sum_from(c, i as int) == sum_from(c, 0),
        decreases entries@.len() - i,
    {
        proof {
            assert(c[i as int] == entries@[i as int].1);
        }
        t = t + entries[i].1;
        i = i + 1;
    }
    t
}

/// The full search result (see `full_report`), as saved when the summary is cut.
pub fn grep_full_text(pattern: &str, entries: &Vec<(String, usize)>, total: usize) -> (r: String)
    ensures
        r@ == full_report(pattern@, entry_texts(entries@), total as nat),
{
    let mut texts: Vec<String> = Vec::new();
    let mut i: usize = 0;
    while i < entries.len()
        invariant
            i <= entries@.len(),
            texts@.map_values(|t: String| t@) == entry_texts(entries@).take(i as int),
        decreases entries@.len() - i,
    {
        texts.push(entries[i].0.clone());
        proof {
            assert(entry_texts(entries@).take(i + 1) =~= entry_texts(entries@).take(i as int).push(
                entries@[i as int].0@,
            ));
            assert(texts@.map_values(|t: String| t@) =~= entry_texts(entries@).take(i + 1));
        }
        i = i + 1;
    }
    proof {
        assert(entry_texts(entries@).take(entries@.len() as int) =~= entry_texts(entries@));
    }
    let mut r = String::from_str("grep \"");
    r.append(pattern);
    r.append("\" 匹配 ");
    push_decimal(&mut r, total);
    r.append(" 处:\n");
    let body = join_strings(&texts, "\n---\n");
    r.append(body.as_str());
    r
}

/// The summary of a search with matches: all of them when there are no more than `max`;
/// otherwise the first entries (see `cut_report`), with the path where the full result was
/// saved, if it was.
pub fn grep_summary(pattern: &str, entries: &Vec<(String, usize)>, max: usize, saved: Option<&str>) -> (r:
    String)
    requires
        sum_from(entry_counts(entries@), 0) <= usize::MAX,
    ensures
        ({
            let total = sum_from(entry_counts(entries@), 0);
            if total <= max {
                r@ == full_report(pattern@, entry_texts(entries@), total)
            } else {
                r@ == cut_report(
                    pattern@,
                    entry_texts(entries@),
                    total,
                    max as nat,
                    shown_entries(entry_counts(entries@), max as nat, 0, 0),
                    (total - shown_count(entry_counts(entries@), max as nat, 0, 0)) as nat,
                    match saved {
                        Some(p) => Some(p@),
                        None => None,
                    },
                )
            }
        }),
{
    let total = total_matches(entries);
    if total <= max {
        return grep_full_text(pattern, entries, total);
    }
    let ghost c = entry_counts(entries@);
    let ghost tv = entry_texts(entries@);
    let mut shown_texts: Vec<String> = Vec::new();
    let mut shown: usize = 0;
    let mut i: usize = 0;
    proof {
        lemma_shown_le_total(c, max as nat, 0, 0);
    }
    while i < entries.len() && shown < max
        invariant
            i <= entries@.len() == c.len() == tv.len(),
            c == entry_counts(entries@),
            tv == entry_texts(entries@),
            shown_texts@.map_values(|t: String| t@) == tv.take(i as int),
            shown_entries(c, max as nat, i as int, shown as nat) == shown_entries(c, max as nat, 0, 0),
            shown_count(c, max as nat, i as int, shown as nat) == shown_count(c, max as nat, 0, 0),
            shown + sum_from(c, i as int) == sum_from(c, 0),
            sum_from(c, 0) == total,
        decreases entries@.len() - i,
    {
        proof {
            assert(c[i as int] == entries@[i as int].1);
            assert(tv[i as int] == entries@[i as int].0@);
        }
        shown_texts.push(entries[i].0.clone());
        proof {
            assert(tv.take(i + 1) =~= tv.take(i as int).push(tv[i as int]));
        }
        shown = shown + entries[i].1;
        i = i + 1;
    }
    proof {
        lemma_shown_le_total(c, max as nat, i as int, shown as nat);
    }
    let over = total - shown;
    let mut r = String::from_str("grep \"");
    r.append(pattern);
    r.append("\" 匹配 ");
    push_decimal(&mut r, total);
    r.append(" 处（显示前 ");
    push_decimal(&mut r, max);
    r.append(" 条）:\n");
    let body = join_strings(&shown_texts, "\n---\n");
    r.append(body.as_str());
    r.append("\n...以及 ");
    push_decimal(&mut r, over);
    r.append(" 条匹配（共 ");
    push_decimal(&mut r, total);
    match saved {
        Some(p) => {
            r.append(" 条），完整输出: ");
            r.append(p);
            r.append("\n");
        },
        None => {
            r.append(" 条），未设置 console 目录，请缩小搜索范围。\n");
        },
    }
    r
}

/// The block shown for a match on line `i` (from 0) of `lines` with `c` lines of context:
/// the matched line first (numbered from 1, not indented), then every line before it that is
/// at most `c` lines away, then every line after it that is at most `c` lines away and still
/// in the file, in order and indented as context, and nothing else.
pub proof fn lemma_hit_block_context(lines: Seq<Seq<char>>, i: int, c: nat)
    requires
        0 <= i < lines.len(),
    ensures
        ({
            let b = hit_block(lines, i, c);
            let before = if i >= c {
                c as int
            } else {
                i
            };
            let after = if i + c < lines.len() {
                c as int
            } else {
                lines.len() - 1 - i
            };
            &&& b.len() == 1 + before + after
            &&& b[0] == hit_line((i + 1) as nat, lines[i], false)
            &&& forall|j: int|
                i - before <= j < i ==> #[trigger] b[1 + j - (i - before)] == hit_line(
                    (j + 1) as nat,
                    lines[j],
                    true,
                )
            &&& forall|j: int|
                i < j <= i + after ==> #[trigger] b[before + (j - i)] == hit_line(
                    (j + 1) as nat,
                    lines[j],
                    true,
                )
        }),
{
    let b = hit_block(lines, i, c);
    let before = if i >= c {
        c as int
    } else {
        i
    };
    let after = if i + c < lines.len() {
        c as int
    } else {
        lines.len() - 1 - i
    };
    assert forall|j: int| i - before <= j < i implies #[trigger] b[1 + j - (i - before)] == hit_line(
        (j + 1) as nat,
        lines[j],
        true,
    ) by {}
    assert forall|j: int| i < j <= i + after implies #[trigger] b[before + (j - i)] == hit_line(
        (j + 1) as nat,
        lines[j],
        true,
    ) by {}
}

} // verus!

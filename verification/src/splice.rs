//! The edits of the file tools: which match or block to replace, the line a position is
//! on, and the new content.
use vstd::prelude::*;
use vstd::string::StringSliceAdditionalSpecFns;
use vstd::utf8::{decode_utf8, encode_utf8, is_char_boundary};

use crate::edit::{find_literal_matches, find_pairs, literal_matches, pairs_view, split_chars, split_on, SelectError};
use crate::regex_edit::{byte_edit_ok, edit_one_match, ranges_view, well_placed};
use crate::text::{str_chars, string_from_chars};

verus! {

/// A line of `str::lines` loses the carriage return before its line feed.
pub open spec fn strip_cr(l: Seq<char>) -> Seq<char> {
    if l.len() > 0 && l.last() == '\r' {
        l.drop_last()
    } else {
        l
    }
}

/// The lines of `s` as `str::lines` gives them: split at line feeds, each line that ended
/// with one without its carriage return, and no empty last line.
pub open spec fn text_lines(s: Seq<char>) -> Seq<Seq<char>> {
    let pieces = split_on(s, '\n');
    let ended = pieces.take(pieces.len() - 1).map_values(|l: Seq<char>| strip_cr(l));
    if pieces.last().len() > 0 {
        ended.push(pieces.last())
    } else {
        ended
    }
}

proof fn lemma_split_len(s: Seq<char>, sep: char)
    ensures
        split_on(s, sep).len() >= 1,
    decreases s.len(),
{
    if s.len() > 0 {
        lemma_split_len(s.drop_last(), sep);
    }
}

fn strip_cr_exec(l: &Vec<char>) -> (r: String)
    ensures
        r@ == strip_cr(l@),
{
    if l.len() > 0 && l[l.len() - 1] == '\r' {
        let mut v: Vec<char> = Vec::new();
        let mut i: usize = 0;
        while i < l.len() - 1
            invariant
                l.len() > 0,
                i <= l.len() - 1,
                v@ == l@.take(i as int),
            decreases l.len() - 1 - i,
        {
            v.push(l[i]);
            proof {
                assert(l@.take(i + 1) =~= l@.take(i as int).push(l@[i as int]));
            }
            i = i + 1;
        }
        proof {
            assert(l@.take(l.len() - 1) =~= l@.drop_last());
        }
        string_from_chars(&v)
    } else {
        string_from_chars(l)
    }
}

/// The lines of `s` (`str::lines`).
pub fn lines_of(s: &str) -> (r: Vec<String>)
    ensures
        r@.map_values(|l: String| l@) == text_lines(s@),
{
    let cs = str_chars(s);
    let pieces = split_chars(&cs, '\n');
    let ghost pv = pieces@.map_values(|p: Vec<char>| p@);
    proof {
        lemma_split_len(s@, '\n');
    }
    let n = pieces.len();
    let mut r: Vec<String> = Vec::new();
    let mut i: usize = 0;
    while i + 1 < n
        invariant
            n == pieces.len() == pv.len() >= 1,
            pv == pieces@.map_values(|p: Vec<char>| p@),
            i <= n - 1,
            r@.map_values(|l: String| l@) == pv.take(i as int).map_values(|l: Seq<char>| strip_cr(l)),
        decreases n - i,
    {
        let line = strip_cr_exec(&pieces[i]);
        let ghost before = r@.map_values(|l: String| l@);
        r.push(line);
        proof {
            assert(pv[i as int] == pieces@[i as int]@);
            assert(r@.map_values(|l: String| l@) =~= before.push(strip_cr(pv[i as int])));
            assert(pv.take(i + 1).map_values(|l: Seq<char>| strip_cr(l)) =~= pv.take(i as int).map_values(
                |l: Seq<char>| strip_cr(l),
            ).push(strip_cr(pv[i as int])));
        }
        i = i + 1;
    }
    if pieces[n - 1].len() > 0 {
        let ghost before = r@.map_values(|l: String| l@);
        r.push(string_from_chars(&pieces[n - 1]));
        proof {
            assert(pv.last() == pieces@[n - 1]@);
            assert(r@.map_values(|l: String| l@) =~= before.push(pv.last()));
        }
    } else {
        proof {
            assert(pv.last() == pieces@[n - 1]@);
        }
    }
    r
}

/// The number of `nl` among the first `pos` items of `s`.
pub open spec fn count_before<T>(s: Seq<T>, nl: T, pos: int) -> nat
    decreases pos,
{
    if pos <= 0 || s.len() == 0 {
        0
    } else if pos > s.len() {
        count_before(s, nl, s.len() as int)
    } else {
        count_before(s, nl, pos - 1) + if s[pos - 1] == nl {
            1nat
        } else {
            0nat
        }
    }
}

/// The line (from 1) that position `pos` of `s` is on: one more than the line breaks
/// before it.
pub open spec fn line_at<T>(s: Seq<T>, nl: T, pos: int) -> nat {
    count_before(s, nl, pos) + 1
}

/// The line (from 1) that byte position `pos` of `bs` is on.
pub fn line_of_byte_pos(bs: &[u8], pos: usize) -> (r: usize)
    requires
        pos <= bs@.len(),
        pos < usize::MAX,
    ensures
        r == line_at(bs@, 10u8, pos as int),
{
    let mut n: usize = 0;
    let mut i: usize = 0;
    while i < pos
        invariant
            i <= pos <= bs@.len(),
            n == count_before(bs@, 10u8, i as int),
            n <= i,
        decreases pos - i,
    {
        if bs[i] == 10u8 {
            n = n + 1;
        }
        i = i + 1;
    }
    n + 1
}

/// The distance between two line numbers.
pub open spec fn line_distance(a: int, b: int) -> int {
    if a >= b {
        a - b
    } else {
        b - a
    }
}

/// The index of the entry of `lines` to edit: without a target line, the only entry (an
/// error naming how many there are otherwise); with one, the first entry whose line is
/// nearest to it.
pub open spec fn chosen_index(lines: Seq<usize>, target: Option<u64>, k: int) -> bool {
    &&& 0 <= k < lines.len()
    &&& match target {
        None => lines.len() == 1 && k == 0,
        Some(t) => {
            &&& forall|q: int|
                0 <= q < k ==> line_distance(#[trigger] lines[q] as int, t as int) > line_distance(
                    lines[k] as int,
                    t as int,
                )
            &&& forall|q: int|
                k < q < lines.len() ==> line_distance(#[trigger] lines[q] as int, t as int)
                    >= line_distance(lines[k] as int, t as int)
        },
    }
}

/// Chooses the entry to edit among entries on the given lines (see `chosen_index`).
pub fn select_match(lines: &Vec<usize>, target: Option<u64>) -> (r: Result<usize, SelectError>)
    ensures
        match r {
            Ok(k) => chosen_index(lines@, target, k as int),
            Err(SelectError::NotUnique(n)) => target is None && lines@.len() != 1 && n
                == lines@.len(),
            Err(SelectError::NoPair) => target is Some && lines@.len() == 0,
        },
{
    match target {
        None => {
            if lines.len() == 1 {
                Ok(0)
            } else {
                Err(SelectError::NotUnique(lines.len()))
            }
        },
        Some(t) => {
            if lines.len() == 0 {
                return Err(SelectError::NoPair);
            }
            let mut best: usize = 0;
            let mut best_d: u64 = if lines[0] as u64 >= t {
                lines[0] as u64 - t
            } else {
                t - lines[0] as u64
            };
            let mut q: usize = 1;
            while q < lines.len()
                invariant
                    1 <= q <= lines.len(),
                    best < q,
                    best_d == line_distance(lines@[best as int] as int, t as int),
                    forall|k: int|
                        0 <= k < best ==> line_distance(#[trigger] lines@[k] as int, t as int)
                            > best_d,
                    forall|k: int|
                        best < k < q ==> line_distance(#[trigger] lines@[k] as int, t as int)
                            >= best_d,
                decreases lines.len() - q,
            {
                let l = lines[q] as u64;
                let d = if l >= t {
                    l - t
                } else {
                    t - l
                };
                if d < best_d {
                    best = q;
                    best_d = d;
                }
                q = q + 1;
            }
            Ok(best)
        },
    }
}

/// `cs` with its items from `start` to `end` replaced by `rep`.
pub open spec fn spliced(cs: Seq<char>, start: int, end: int, rep: Seq<char>) -> Seq<char> {
    cs.take(start) + rep + cs.skip(end)
}

fn splice_chars(cs: &Vec<char>, start: usize, end: usize, rep: &str) -> (r: String)
    requires
        start <= end <= cs.len(),
    ensures
        r@ == spliced(cs@, start as int, end as int, rep@),
{
    let mut out: Vec<char> = Vec::new();
    let mut i: usize = 0;
    while i < start
        invariant
            i <= start <= end <= cs.len(),
            out@ == cs@.take(i as int),
        decreases start - i,
    {
        out.push(cs[i]);
        proof {
            assert(cs@.take(i + 1) =~= cs@.take(i as int).push(cs@[i as int]));
        }
        i = i + 1;
    }
    let rc = str_chars(rep);
    let mut k: usize = 0;
    let ghost mid = out@;
    while k < rc.len()
        invariant
            k <= rc.len(),
            out@ == mid + rc@.take(k as int),
        decreases rc.len() - k,
    {
        out.push(rc[k]);
        proof {
            assert(rc@.take(k + 1) =~= rc@.take(k as int).push(rc@[k as int]));
        }
        k = k + 1;
    }
    proof {
        assert(rc@.take(rc@.len() as int) =~= rc@);
    }
    let ghost mid2 = out@;
    let mut j: usize = end;
    while j < cs.len()
        invariant
            end <= j <= cs.len(),
            out@ == mid2 + cs@.subrange(end as int, j as int),
        decreases cs.len() - j,
    {
        out.push(cs[j]);
        proof {
            assert(cs@.subrange(end as int, j + 1) =~= cs@.subrange(end as int, j as int).push(cs@[j as int]));
        }
        j = j + 1;
    }
    proof {
        assert(cs@.subrange(end as int, cs@.len() as int) =~= cs@.skip(end as int));
        assert(out@ =~= spliced(cs@, start as int, end as int, rep@));
    }
    string_from_chars(&out)
}

/// A successful single edit: the new content and the line (from 1) where the replaced text
/// started.
pub struct EditResult {
    pub content: String,
    pub line: usize,
}

/// Why a single edit was not made.
pub enum EditFailure {
    /// Nothing matched.
    NoMatch,
    /// Several matches and no target line: "匹配不唯一（{n} 处），请指定 line 参数选择目标行".
    NotUnique(usize),
    /// The pattern is no valid regular expression: "正则表达式无效".
    InvalidRegex,
    /// Matching failed: "正则匹配错误".
    MatchFailed,
}

/// The message of an edit failure other than a missed match.
pub open spec fn failure_text(f: EditFailure) -> Seq<char> {
    match f {
        EditFailure::NoMatch => "未找到匹配。"@,
        EditFailure::NotUnique(n) => "匹配不唯一（"@ + crate::text::decimal(n as nat)
            + " 处），请指定 line 参数选择目标行"@,
        EditFailure::InvalidRegex => "正则表达式无效"@,
        EditFailure::MatchFailed => "正则匹配错误"@,
    }
}

impl EditFailure {
    /// The message of this failure.
    pub fn message(&self) -> (r: String)
        ensures
            r@ == failure_text(*self),
    {
        match self {
            EditFailure::NoMatch => String::from_str("未找到匹配。"),
            EditFailure::NotUnique(n) => {
                let mut s = String::from_str("匹配不唯一（");
                crate::text::push_decimal(&mut s, *n);
                s.append(" 处），请指定 line 参数选择目标行");
                s
            },
            EditFailure::InvalidRegex => String::from_str("正则表达式无效"),
            EditFailure::MatchFailed => String::from_str("正则匹配错误"),
        }
    }
}

/// Replaces one literal occurrence of `pattern` in `original` (the `raw_edit` tool without
/// regular expressions): no match is an error, several are told apart by the target line
/// (the first nearest wins), and without one only a single match is accepted. The matches
/// are the byte ranges that `find_literal_matches` gives.
pub fn raw_edit_literal(original: &str, pattern: &str, replacement: &str, target: Option<u64>) -> (r:
    Result<EditResult, EditFailure>)
    requires
        pattern@.len() > 0,
    ensures
        ({
            let ms = literal_matches(original.spec_bytes(), pattern.spec_bytes(), 0);
            match r {
                Ok(e) => ms.len() > 0 && byte_edit_ok(original.spec_bytes(), ms, target, replacement@, e),
                Err(EditFailure::NoMatch) => ms.len() == 0,
                Err(EditFailure::NotUnique(n)) => ms.len() > 1 && target is None && n == ms.len(),
                _ => false,
            }
        }),
{
    let ms = find_literal_matches(original, pattern);
    if ms.len() == 0 {
        return Err(EditFailure::NoMatch);
    }
    proof {
        let b = original.spec_bytes();
        let p = pattern.spec_bytes();
        let msv = pairs_view(ms@);
        crate::edit::lemma_literal_matches_in_range(b, p, 0);
        assert(msv =~= ranges_view(ms@));
        assert forall|k: int| 0 <= k < msv.len() implies 0 <= (#[trigger] msv[k]).0 <= msv[k].1
            <= b.len() && is_char_boundary(b, msv[k].0) && is_char_boundary(b, msv[k].1) by {
            crate::edit::lemma_byte_match_on_boundaries(original@, pattern@, msv[k].0);
        }
        assert forall|k: int| 0 < k < msv.len() implies (#[trigger] msv[k - 1]).1 <= msv[k].0 by {}
        assert(well_placed(b, msv));
        assert forall|q: int| 0 <= q < ms@.len() implies (#[trigger] ms@[q]).0 < usize::MAX by {
            assert(msv[q].0 == ms@[q].0);
            crate::edit::lemma_byte_match_on_boundaries(original@, pattern@, msv[q].0);
        }
    }
    edit_one_match(original, &ms, replacement, target)
}

/// The position where line `k` (from 0) of `cs` starts, scanning from `from`: just after
/// the `k`-th line feed, or the end when there are fewer.
pub open spec fn start_of_line(cs: Seq<char>, k: nat, from: int) -> int
    decreases cs.len() - from,
{
    if k == 0 {
        from
    } else if from < 0 || from >= cs.len() {
        cs.len() as int
    } else if cs[from] == '\n' {
        start_of_line(cs, (k - 1) as nat, from + 1)
    } else {
        start_of_line(cs, k, from + 1)
    }
}

proof fn lemma_start_of_line_range(cs: Seq<char>, k: nat, from: int)
    requires
        0 <= from <= cs.len(),
    ensures
        from <= start_of_line(cs, k, from) <= cs.len(),
    decreases cs.len() - from,
{
    if k > 0 && from < cs.len() {
        if cs[from] == '\n' {
            lemma_start_of_line_range(cs, (k - 1) as nat, from + 1);
        } else {
            lemma_start_of_line_range(cs, k, from + 1);
        }
    }
}

fn line_start(cs: &Vec<char>, k: usize) -> (r: usize)
    ensures
        r == start_of_line(cs@, k as nat, 0),
        r <= cs.len(),
{
    let mut i: usize = 0;
    let mut left: usize = k;
    proof {
        lemma_start_of_line_range(cs@, k as nat, 0);
    }
    while left > 0 && i < cs.len()
        invariant
            i <= cs.len(),
            start_of_line(cs@, left as nat, i as int) == start_of_line(cs@, k as nat, 0),
        decreases cs.len() - i,
    {
        if cs[i] == '\n' {
            left = left - 1;
        }
        i = i + 1;
    }
    if left == 0 {
        i
    } else {
        cs.len()
    }
}

/// A block replacement that was made: the new content, and the replaced lines (from 0,
/// `first..past`).
pub struct BlockResult {
    pub content: String,
    pub first: usize,
    pub past: usize,
}

/// Why a block replacement was not made.
pub enum BlockFailure {
    /// No start line is followed by an end line.
    NoPair,
    /// Several blocks and no target line.
    NotUnique(usize),
    /// The chosen lines leave a negative range (start and end lines, from 1, and whether
    /// they were to be replaced).
    InvalidRange { start_line: usize, end_line: usize, include_start: bool, include_end: bool },
    /// The chosen lines leave an empty range.
    EmptyRange,
}

/// How `format!` writes a `bool`.
pub open spec fn bool_text(b: bool) -> Seq<char> {
    if b {
        "true"@
    } else {
        "false"@
    }
}

/// The message of a failed block replacement; none for a missing pair, which is reported
/// with the lines around the target (`block_failure_report`).
pub open spec fn block_failure_text(f: BlockFailure) -> Option<Seq<char>> {
    match f {
        BlockFailure::NoPair => None,
        BlockFailure::NotUnique(n) => Some(
            crate::edit::select_failure_text(SelectError::NotUnique(n)),
        ),
        BlockFailure::InvalidRange { start_line, end_line, include_start, include_end } => Some(
            "替换范围无效：start 第 "@ + crate::text::decimal(start_line as nat) + " 行，end 第 "@
                + crate::text::decimal(end_line as nat) + " 行，include_start="@ + bool_text(
                include_start,
            ) + ", include_end="@ + bool_text(include_end) + " 导致空范围"@,
        ),
        BlockFailure::EmptyRange => Some("替换范围为空（start 和 end 在同一行），请调整 include_start/include_end"@),
    }
}

fn push_bool(s: &mut String, b: bool)
    ensures
        final(s)@ == old(s)@ + bool_text(b),
{
    if b {
        s.append("true");
    } else {
        s.append("false");
    }
}

impl BlockFailure {
    /// The message of this failure (see `block_failure_text`).
    pub fn message(&self) -> (r: Option<String>)
        ensures
            match r {
                Some(m) => block_failure_text(*self) == Some(m@),
                None => block_failure_text(*self) is None,
            },
    {
        match self {
            BlockFailure::NoPair => None,
            BlockFailure::NotUnique(n) => Some(SelectError::NotUnique(*n).message()),
            BlockFailure::InvalidRange { start_line, end_line, include_start, include_end } => {
                let mut s = String::from_str("替换范围无效：start 第 ");
                crate::text::push_decimal(&mut s, *start_line);
                s.append(" 行，end 第 ");
                crate::text::push_decimal(&mut s, *end_line);
                s.append(" 行，include_start=");
                push_bool(&mut s, *include_start);
                s.append(", include_end=");
                push_bool(&mut s, *include_end);
                s.append(" 导致空范围");
                Some(s)
            },
            BlockFailure::EmptyRange => Some(
                String::from_str("替换范围为空（start 和 end 在同一行），请调整 include_start/include_end"),
            ),
        }
    }
}

/// Whether `k` is the pair that `target` chooses among `pairs`: without a target, the only
/// pair; with one, the first pair whose middle line is nearest to it.
pub open spec fn chosen_pair(pairs: Seq<(int, int)>, target: Option<u64>, k: int) -> bool {
    0 <= k < pairs.len() && match target {
        None => pairs.len() == 1,
        Some(t) => (forall|q: int|
            0 <= q < k ==> crate::edit::pair_distance(
                (#[trigger] pairs[q].0 as usize, pairs[q].1 as usize),
                t as int,
            ) > crate::edit::pair_distance((pairs[k].0 as usize, pairs[k].1 as usize), t as int))
            && (forall|q: int|
            k < q < pairs.len() ==> crate::edit::pair_distance(
                (#[trigger] pairs[q].0 as usize, pairs[q].1 as usize),
                t as int,
            ) >= crate::edit::pair_distance((pairs[k].0 as usize, pairs[k].1 as usize), t as int)),
    }
}

/// The block edit of `content` for the lines `lines` (its `str::lines`): the pairs of start
/// and end lines, the pair chosen by the target line, the lines it covers (the start and end
/// lines included or not), and the content with those lines replaced.
pub open spec fn block_edit_ok(
    content: Seq<char>,
    pairs: Seq<(int, int)>,
    replacement: Seq<char>,
    include_start: bool,
    include_end: bool,
    target: Option<u64>,
    r: BlockResult,
) -> bool {
    exists|k: int|
        #![trigger pairs[k]]
        chosen_pair(pairs, target, k) && r.first == pairs[k].0 + if include_start {
            0int
        } else {
            1int
        } && r.past == pairs[k].1 + if include_end {
            1int
        } else {
            0int
        } && r.first < r.past && r.content@ == spliced(
            content,
            start_of_line(content, r.first as nat, 0),
            start_of_line(content, r.past as nat, 0),
            replacement,
        )
}

/// Replaces a block of lines of `content` (the `block_edit` tool): the block runs from a
/// line containing `start` to the first later line containing `end`; several blocks are told
/// apart by the target line (the first whose middle line is nearest wins), and without one
/// only a single block is accepted.
pub fn block_edit(
    content: &str,
    start: &str,
    end: &str,
    replacement: &str,
    include_start: bool,
    include_end: bool,
    target: Option<u64>,
) -> (r: Result<BlockResult, BlockFailure>)
    requires
        match target {
            Some(t) => t <= isize::MAX,
            None => true,
        },
    ensures
        ({
            let pairs = crate::edit::pairs_from(text_lines(content@), start@, end@, 0);
            match r {
                Ok(b) => block_edit_ok(
                    content@,
                    pairs,
                    replacement@,
                    include_start,
                    include_end,
                    target,
                    b,
                ),
                Err(BlockFailure::NoPair) => pairs.len() == 0,
                Err(BlockFailure::NotUnique(n)) => target is None && pairs.len() > 1 && n
                    == pairs.len(),
                Err(BlockFailure::InvalidRange { .. }) => false,
                Err(BlockFailure::EmptyRange) => exists|k: int|
                    #![trigger pairs[k]]
                    chosen_pair(pairs, target, k) && !include_start && !include_end && pairs[k].1
                        == pairs[k].0 + 1,
            }
        }),
{
    let lines = lines_of(content);
    let pairs = find_pairs(&lines, start, end);
    let ghost lv = lines@.map_values(|l: String| l@);
    let ghost pv = pairs_view(pairs@);
    proof {
        assert(crate::edit::lines_view(lines@) =~= lv);
        crate::edit::lemma_pairs_in_range(lv, start@, end@, 0);
    }
    if pairs.len() == 0 {
        return Err(BlockFailure::NoPair);
    }
    let chosen = match crate::edit::select_pair(&pairs, target) {
        Ok(p) => p,
        Err(SelectError::NotUnique(n)) => return Err(BlockFailure::NotUnique(n)),
        Err(SelectError::NoPair) => return Err(BlockFailure::NoPair),
    };
    let ghost k = choose|k: int| 0 <= k < pairs@.len() && pairs@[k] == chosen && match target {
        None => pairs@.len() == 1,
        Some(t) => (forall|q: int|
            0 <= q < k ==> crate::edit::pair_distance(#[trigger] pairs@[q], t as int)
                > crate::edit::pair_distance(pairs@[k], t as int)) && (forall|q: int|
            k < q < pairs@.len() ==> crate::edit::pair_distance(#[trigger] pairs@[q], t as int)
                >= crate::edit::pair_distance(pairs@[k], t as int)),
    };
    let (s, e) = chosen;
    proof {
        assert(pv[k] == (s as int, e as int));
        assert(s < e && e < lv.len());
        assert(lv.len() == lines@.len());
    }
    let nlines = lines.len();
    let first = if include_start {
        s
    } else {
        s + 1
    };
    let past = if include_end {
        e + 1
    } else {
        e
    };
    if first > past {
        return Err(
            BlockFailure::InvalidRange { start_line: s + 1, end_line: e + 1, include_start, include_end },
        );
    }
    if first == past {
        return Err(BlockFailure::EmptyRange);
    }
    let cs = str_chars(content);
    let a = line_start(&cs, first);
    let b = line_start(&cs, past);
    proof {
        lemma_start_of_line_mono(cs@, first as nat, past as nat);
    }
    let new_content = splice_chars(&cs, a, b, replacement);
    proof {
        assert forall|q: int| 0 <= q < pv.len() implies (#[trigger] pv[q]) == (
        pairs@[q].0 as int,
        pairs@[q].1 as int,
        ) by {}
    }
    Ok(BlockResult { content: new_content, first, past })
}

proof fn lemma_start_of_line_mono(cs: Seq<char>, j: nat, k: nat)
    requires
        j <= k,
    ensures
        start_of_line(cs, j, 0) <= start_of_line(cs, k, 0),
{
    lemma_start_of_line_mono_from(cs, j, k, 0);
}

proof fn lemma_start_of_line_mono_from(cs: Seq<char>, j: nat, k: nat, from: int)
    requires
        j <= k,
        0 <= from <= cs.len(),
    ensures
        start_of_line(cs, j, from) <= start_of_line(cs, k, from),
    decreases cs.len() - from,
{
    lemma_start_of_line_range(cs, j, from);
    lemma_start_of_line_range(cs, k, from);
    if j > 0 && from < cs.len() {
        if cs[from] == '\n' {
            lemma_start_of_line_mono_from(cs, (j - 1) as nat, (k - 1) as nat, from + 1);
        } else {
            lemma_start_of_line_mono_from(cs, j, k, from + 1);
        }
    }
}

/// The new content of a file that the `replace` tool changes literally: the normalised
/// content with every occurrence of `pattern` replaced, or `None` when that changes nothing.
pub fn literal_replacement(original: &str, pattern: &str, replacement: &str) -> (r: Option<String>)
    ensures
        ({
            let c = crate::edit::normalized(original@);
            let n = crate::text::replaced(c, pattern@, replacement@);
            match r {
                Some(t) => n != c && t@ == n,
                None => n == c,
            }
        }),
{
    let content = crate::edit::normalize(original);
    let new = crate::text::replace_all(content.as_str(), pattern, replacement);
    if new != content {
        Some(new)
    } else {
        None
    }
}

/// The summary of a `replace` run that changed files: what it would change (dry run) or what
/// it changed, with the files one per line.
pub open spec fn replace_summary_text(files: Seq<Seq<char>>, dry_run: bool) -> Seq<char> {
    if dry_run {
        "[DRY RUN] 将在 "@ + crate::text::decimal(files.len()) + " 个文件中替换（共扫描 "@
            + crate::text::decimal(files.len()) + " 个文件）:\n"@ + crate::text::join(files, "\n"@)
    } else {
        "批量替换完成 ("@ + crate::text::decimal(files.len()) + " 个文件):\n"@ + crate::text::join(
            files,
            "\n"@,
        )
    }
}

/// The summary of a `replace` run (see `replace_summary_text`).
pub fn replace_summary(files: &Vec<String>, dry_run: bool) -> (r: String)
    ensures
        r@ == replace_summary_text(files@.map_values(|f: String| f@), dry_run),
{
    let list = crate::text::join_strings(files, "\n");
    let n = files.len();
    if dry_run {
        let mut r = String::from_str("[DRY RUN] 将在 ");
        crate::text::push_decimal(&mut r, n);
        r.append(" 个文件中替换（共扫描 ");
        crate::text::push_decimal(&mut r, n);
        r.append(" 个文件）:\n");
        r.append(list.as_str());
        r
    } else {
        let mut r = String::from_str("批量替换完成 (");
        crate::text::push_decimal(&mut r, n);
        r.append(" 个文件):\n");
        r.append(list.as_str());
        r
    }
}

} // verus!

//! The text logic of the file tools: normalisation, tab-sensitive files, matching blocks of
//! lines and literal matches.
use vstd::prelude::*;
use vstd::string::StringSliceAdditionalSpecFns;
use vstd::utf8::{
    encode_scalar, encode_utf8, is_char_boundary, is_continuation_byte, length_of_first_scalar, pop_first_scalar,
    valid_utf8,
};

use crate::text::{contains_seq, matches_at_chars, occurs_at, str_chars, string_from_chars};

verus! {

/// `s` with every "\r\n" (read left to right, without overlap) replaced by "\n".
pub open spec fn crlf_to_lf(s: Seq<char>) -> Seq<char>
    decreases s.len(),
{
    if s.len() == 0 {
        Seq::empty()
    } else if s.len() >= 2 && s[0] == '\r' && s[1] == '\n' {
        seq!['\n'] + crlf_to_lf(s.skip(2))
    } else {
        seq![s[0]] + crlf_to_lf(s.skip(1))
    }
}

pub open spec fn four_spaces() -> Seq<char> {
    seq![' ', ' ', ' ', ' ']
}

/// `s` with each tab of the run of tabs that opens a line replaced by four spaces;
/// `at_line_start` tells whether `s` begins at the start of a line.
pub open spec fn leading_tabs_to_spaces(s: Seq<char>, at_line_start: bool) -> Seq<char>
    decreases s.len(),
{
    if s.len() == 0 {
        Seq::empty()
    } else if at_line_start && s[0] == '\t' {
        four_spaces() + leading_tabs_to_spaces(s.skip(1), true)
    } else {
        seq![s[0]] + leading_tabs_to_spaces(s.skip(1), s[0] == '\n')
    }
}

/// The normal form of a text: "\r\n" becomes "\n", and each leading tab of a line becomes
/// four spaces.
pub open spec fn normalized(s: Seq<char>) -> Seq<char> {
    leading_tabs_to_spaces(crlf_to_lf(s), true)
}

fn crlf_to_lf_exec(cs: &Vec<char>) -> (r: Vec<char>)
    ensures
        r@ == crlf_to_lf(cs@),
{
    let mut out: Vec<char> = Vec::new();
    let mut i: usize = 0;
    proof {
        assert(cs@.skip(0) =~= cs@);
    }
    while i < cs.len()
        invariant
            i <= cs.len(),
            out@ + crlf_to_lf(cs@.skip(i as int)) == crlf_to_lf(cs@),
        decreases cs.len() - i,
    {
        let ghost rest = cs@.skip(i as int);
        if i + 1 < cs.len() && cs[i] == '\r' && cs[i + 1] == '\n' {
            out.push('\n');
            proof {
                assert(rest.skip(2) =~= cs@.skip(i + 2));
                assert(crlf_to_lf(rest) == seq!['\n'] + crlf_to_lf(rest.skip(2)));
                assert(out@ + crlf_to_lf(cs@.skip(i + 2)) =~= crlf_to_lf(cs@));
            }
            i = i + 2;
        } else {
            let c = cs[i];
            out.push(c);
            proof {
                assert(rest.skip(1) =~= cs@.skip(i + 1));
                assert(crlf_to_lf(rest) == seq![c] + crlf_to_lf(rest.skip(1)));
                assert(out@ + crlf_to_lf(cs@.skip(i + 1)) =~= crlf_to_lf(cs@));
            }
            i = i + 1;
        }
    }
    proof {
        assert(cs@.skip(i as int) =~= Seq::<char>::empty());
        assert(out@ + Seq::<char>::empty() =~= out@);
    }
    out
}

fn leading_tabs_exec(cs: &Vec<char>) -> (r: Vec<char>)
    ensures
        r@ == leading_tabs_to_spaces(cs@, true),
{
    let mut out: Vec<char> = Vec::new();
    let mut at_start = true;
    let mut i: usize = 0;
    proof {
        assert(cs@.skip(0) =~= cs@);
    }
    while i < cs.len()
        invariant
            i <= cs.len(),
            out@ + leading_tabs_to_spaces(cs@.skip(i as int), at_start)
                == leading_tabs_to_spaces(cs@, true),
        decreases cs.len() - i,
    {
        let ghost rest = cs@.skip(i as int);
        let ghost old_out = out@;
        let c = cs[i];
        proof {
            assert(rest.skip(1) =~= cs@.skip(i + 1));
        }
        if at_start && c == '\t' {
            out.push(' ');
            out.push(' ');
            out.push(' ');
            out.push(' ');
            proof {
                assert(out@ =~= old_out + four_spaces());
                assert(out@ + leading_tabs_to_spaces(cs@.skip(i + 1), true) =~= old_out + (
                four_spaces() + leading_tabs_to_spaces(rest.skip(1), true)));
            }
        } else {
            out.push(c);
            proof {
                assert(out@ + leading_tabs_to_spaces(cs@.skip(i + 1), c == '\n') =~= old_out + (
                seq![c] + leading_tabs_to_spaces(rest.skip(1), c == '\n')));
            }
            at_start = c == '\n';
        }
        i = i + 1;
    }
    proof {
        assert(cs@.skip(i as int) =~= Seq::<char>::empty());
        assert(out@ + Seq::<char>::empty() =~= out@);
    }
    out
}

/// Normalises a text: "\r\n" becomes "\n" and each leading tab of a line becomes four spaces.
pub fn normalize(s: &str) -> (r: String)
    ensures
        r@ == normalized(s@),
{
    let cs = str_chars(s);
    let lf = crlf_to_lf_exec(&cs);
    let out = leading_tabs_exec(&lf);
    string_from_chars(&out)
}

/// The number of occurrences of `c` in `s`.
pub open spec fn count_char(s: Seq<char>, c: char) -> nat
    decreases s.len(),
{
    if s.len() == 0 {
        0
    } else {
        count_char(s.skip(1), c) + if s[0] == c {
            1nat
        } else {
            0nat
        }
    }
}

proof fn lemma_count_concat(a: Seq<char>, b: Seq<char>, c: char)
    ensures
        count_char(a + b, c) == count_char(a, c) + count_char(b, c),
    decreases a.len(),
{
    if a.len() > 0 {
        assert((a + b).skip(1) =~= a.skip(1) + b);
        lemma_count_concat(a.skip(1), b, c);
    } else {
        assert(a + b =~= b);
    }
}

proof fn lemma_crlf_keeps_newlines(s: Seq<char>)
    ensures
        count_char(crlf_to_lf(s), '\n') == count_char(s, '\n'),
    decreases s.len(),
{
    if s.len() > 0 {
        if s.len() >= 2 && s[0] == '\r' && s[1] == '\n' {
            lemma_crlf_keeps_newlines(s.skip(2));
            lemma_count_concat(seq!['\n'], crlf_to_lf(s.skip(2)), '\n');
            assert(s.skip(1).skip(1) =~= s.skip(2));
            assert(s.skip(1)[0] == '\n');
            assert(seq!['\n'].skip(1) =~= Seq::<char>::empty());
            assert(count_char(seq!['\n'], '\n') == count_char(Seq::<char>::empty(), '\n') + 1);
            assert(count_char(s.skip(1), '\n') == count_char(s.skip(2), '\n') + 1);
        } else {
            lemma_crlf_keeps_newlines(s.skip(1));
            lemma_count_concat(seq![s[0]], crlf_to_lf(s.skip(1)), '\n');
            assert(seq![s[0]].skip(1) =~= Seq::<char>::empty());
            assert(count_char(seq![s[0]], '\n') == count_char(Seq::<char>::empty(), '\n') + if s[0]
                == '\n' {
                1nat
            } else {
                0nat
            });
        }
    }
}

proof fn lemma_tabs_keep_newlines(s: Seq<char>, at: bool)
    ensures
        count_char(leading_tabs_to_spaces(s, at), '\n') == count_char(s, '\n'),
    decreases s.len(),
{
    if s.len() > 0 {
        if at && s[0] == '\t' {
            lemma_tabs_keep_newlines(s.skip(1), true);
            lemma_count_concat(four_spaces(), leading_tabs_to_spaces(s.skip(1), true), '\n');
            assert(four_spaces().skip(1).skip(1).skip(1).skip(1) =~= Seq::<char>::empty());
            assert(count_char(four_spaces(), '\n') == 0) by {
                reveal_with_fuel(count_char, 5);
            }
        } else {
            lemma_tabs_keep_newlines(s.skip(1), s[0] == '\n');
            lemma_count_concat(seq![s[0]], leading_tabs_to_spaces(s.skip(1), s[0] == '\n'), '\n');
            assert(seq![s[0]].skip(1) =~= Seq::<char>::empty());
            assert(count_char(seq![s[0]], '\n') == count_char(Seq::<char>::empty(), '\n') + if s[0]
                == '\n' {
                1nat
            } else {
                0nat
            });
        }
    }
}

/// Normalising keeps the lines of a text: it holds as many line breaks as before.
pub proof fn lemma_normalize_keeps_line_count(s: Seq<char>)
    ensures
        count_char(normalized(s), '\n') == count_char(s, '\n'),
{
    lemma_crlf_keeps_newlines(s);
    lemma_tabs_keep_newlines(crlf_to_lf(s), true);
}

/// No line of a normalised text starts with a tab (`at_line_start` tells whether the text
/// begins a line).
pub proof fn lemma_no_leading_tab(s: Seq<char>, at_line_start: bool)
    ensures
        forall|k: int|
            0 <= k < leading_tabs_to_spaces(s, at_line_start).len() && #[trigger] leading_tabs_to_spaces(
                s,
                at_line_start,
            )[k] == '\t' ==> (k == 0 ==> !at_line_start) && (k > 0 ==> leading_tabs_to_spaces(
                s,
                at_line_start,
            )[k - 1] != '\n'),
    decreases s.len(),
{
    if s.len() > 0 {
        let out = leading_tabs_to_spaces(s, at_line_start);
        if at_line_start && s[0] == '\t' {
            let rest = leading_tabs_to_spaces(s.skip(1), true);
            lemma_no_leading_tab(s.skip(1), true);
            assert(out == four_spaces() + rest);
            assert forall|k: int| 0 <= k < out.len() && #[trigger] out[k] == '\t' implies (k == 0
                ==> !at_line_start) && (k > 0 ==> out[k - 1] != '\n') by {
                if k >= 4 {
                    assert(out[k] == rest[k - 4]);
                    if k > 4 {
                        assert(out[k - 1] == rest[k - 5]);
                    }
                }
            }
        } else {
            let rest = leading_tabs_to_spaces(s.skip(1), s[0] == '\n');
            lemma_no_leading_tab(s.skip(1), s[0] == '\n');
            assert(out == seq![s[0]] + rest);
            assert forall|k: int| 0 <= k < out.len() && #[trigger] out[k] == '\t' implies (k == 0
                ==> !at_line_start) && (k > 0 ==> out[k - 1] != '\n') by {
                if k >= 1 {
                    assert(out[k] == rest[k - 1]);
                    if k > 1 {
                        assert(out[k - 1] == rest[k - 2]);
                    }
                }
            }
        }
    }
}

/// A normalised text has no tab at the start of a line.
pub proof fn lemma_normalized_has_no_leading_tab(s: Seq<char>)
    ensures
        forall|k: int|
            0 <= k < normalized(s).len() && #[trigger] normalized(s)[k] == '\t' ==> k > 0
                && normalized(s)[k - 1] != '\n',
{
    lemma_no_leading_tab(crlf_to_lf(s), true);
}

/// No "\r" of `s` is directly followed by "\n".
pub open spec fn no_crlf(s: Seq<char>) -> bool {
    forall|i: int| 0 <= i < s.len() - 1 ==> !(#[trigger] s[i] == '\r' && s[i + 1] == '\n')
}

proof fn lemma_crlf_to_lf_identity(s: Seq<char>)
    requires
        no_crlf(s),
    ensures
        crlf_to_lf(s) == s,
    decreases s.len(),
{
    if s.len() > 0 {
        let t = s.skip(1);
        assert forall|i: int| 0 <= i < t.len() - 1 implies !(#[trigger] t[i] == '\r' && t[i + 1] == '\n') by {
            assert(t[i] == s[i + 1] && t[i + 1] == s[i + 2]);
        }
        if s.len() >= 2 {
            assert(!(s[0] == '\r' && s[1] == '\n'));
        }
        lemma_crlf_to_lf_identity(t);
        assert(seq![s[0]] + t =~= s);
    }
}

proof fn lemma_tabs_keep_no_crlf(s: Seq<char>, at_line_start: bool)
    requires
        no_crlf(s),
    ensures
        no_crlf(leading_tabs_to_spaces(s, at_line_start)),
    decreases s.len(),
{
    if s.len() > 0 {
        let t = s.skip(1);
        assert forall|i: int| 0 <= i < t.len() - 1 implies !(#[trigger] t[i] == '\r' && t[i + 1] == '\n') by {
            assert(t[i] == s[i + 1] && t[i + 1] == s[i + 2]);
        }
        let out = leading_tabs_to_spaces(s, at_line_start);
        if at_line_start && s[0] == '\t' {
            let rest = leading_tabs_to_spaces(t, true);
            lemma_tabs_keep_no_crlf(t, true);
            assert(out == four_spaces() + rest);
            assert forall|i: int| 0 <= i < out.len() - 1 implies !(#[trigger] out[i] == '\r' && out[i + 1] == '\n') by {
                if i >= 4 {
                    assert(out[i] == rest[i - 4] && out[i + 1] == rest[i - 3]);
                } else {
                    assert(out[i] == ' ');
                }
            }
        } else {
            let rest = leading_tabs_to_spaces(t, s[0] == '\n');
            lemma_tabs_keep_no_crlf(t, s[0] == '\n');
            assert(out == seq![s[0]] + rest);
            assert forall|i: int| 0 <= i < out.len() - 1 implies !(#[trigger] out[i] == '\r' && out[i + 1] == '\n') by {
                if i >= 1 {
                    assert(out[i] == rest[i - 1] && out[i + 1] == rest[i]);
                } else if s[0] == '\r' {
                    assert(t.len() > 0);
                    assert(rest[0] == t[0]);
                    assert(t[0] == s[1]);
                }
            }
        }
    }
}

proof fn lemma_crlf_to_lf_no_crlf(s: Seq<char>)
    requires
        forall|i: int|
            0 <= i < s.len() - 2 ==> !(#[trigger] s[i] == '\r' && s[i + 1] == '\r' && s[i + 2] == '\n'),
    ensures
        no_crlf(crlf_to_lf(s)),
    decreases s.len(),
{
    if s.len() > 0 {
        let out = crlf_to_lf(s);
        if s.len() >= 2 && s[0] == '\r' && s[1] == '\n' {
            let t = s.skip(2);
            assert forall|i: int| 0 <= i < t.len() - 2 implies !(#[trigger] t[i] == '\r' && t[i + 1] == '\r' && t[i + 2] == '\n') by {
                assert(t[i] == s[i + 2] && t[i + 1] == s[i + 3] && t[i + 2] == s[i + 4]);
            }
            lemma_crlf_to_lf_no_crlf(t);
            let rest = crlf_to_lf(t);
            assert(out == seq!['\n'] + rest);
            assert forall|i: int| 0 <= i < out.len() - 1 implies !(#[trigger] out[i] == '\r' && out[i + 1] == '\n') by {
                if i >= 1 {
                    assert(out[i] == rest[i - 1] && out[i + 1] == rest[i]);
                }
            }
        } else {
            let t = s.skip(1);
            assert forall|i: int| 0 <= i < t.len() - 2 implies !(#[trigger] t[i] == '\r' && t[i + 1] == '\r' && t[i + 2] == '\n') by {
                assert(t[i] == s[i + 1] && t[i + 1] == s[i + 2] && t[i + 2] == s[i + 3]);
            }
            lemma_crlf_to_lf_no_crlf(t);
            let rest = crlf_to_lf(t);
            assert(out == seq![s[0]] + rest);
            assert forall|i: int| 0 <= i < out.len() - 1 implies !(#[trigger] out[i] == '\r' && out[i + 1] == '\n') by {
                if i >= 1 {
                    assert(out[i] == rest[i - 1] && out[i + 1] == rest[i]);
                } else if s[0] == '\r' {
                    assert(t.len() > 0);
                    assert(t[0] == s[1]);
                    if t.len() >= 2 && t[0] == '\r' && t[1] == '\n' {
                        assert(s[0] == '\r' && s[1] == '\r' && s[2] == '\n');
                    } else {
                        assert(rest == seq![t[0]] + crlf_to_lf(t.skip(1)));
                    }
                }
            }
        }
    }
}

proof fn lemma_tabs_identity(s: Seq<char>, at_line_start: bool)
    requires
        forall|k: int|
            0 <= k < s.len() && #[trigger] s[k] == '\t' ==> (k == 0 ==> !at_line_start) && (k > 0
                ==> s[k - 1] != '\n'),
    ensures
        leading_tabs_to_spaces(s, at_line_start) == s,
    decreases s.len(),
{
    if s.len() > 0 {
        let t = s.skip(1);
        assert forall|k: int| 0 <= k < t.len() && #[trigger] t[k] == '\t' implies (k == 0 ==> !(s[0]
            == '\n')) && (k > 0 ==> t[k - 1] != '\n') by {
            assert(t[k] == s[k + 1]);
            if k > 0 {
                assert(t[k - 1] == s[k]);
            }
        }
        lemma_tabs_identity(t, s[0] == '\n');
        assert(seq![s[0]] + t =~= s);
    }
}

/// Normalising twice is normalising once, for every text without "\r\r\n" (in such a text
/// the first pass leaves a "\r\n" behind, which the second pass turns into "\n").
pub proof fn lemma_normalize_idempotent(s: Seq<char>)
    requires
        !contains_seq(s, seq!['\r', '\r', '\n']),
    ensures
        normalized(normalized(s)) == normalized(s),
{
    assert forall|i: int| 0 <= i < s.len() - 2 implies !(#[trigger] s[i] == '\r' && s[i + 1] == '\r'
        && s[i + 2] == '\n') by {
        if s[i] == '\r' && s[i + 1] == '\r' && s[i + 2] == '\n' {
            assert(s.subrange(i, i + 3) =~= seq!['\r', '\r', '\n']);
            assert(occurs_at(s, seq!['\r', '\r', '\n'], i));
        }
    }
    let n = normalized(s);
    lemma_crlf_to_lf_no_crlf(s);
    lemma_tabs_keep_no_crlf(crlf_to_lf(s), true);
    lemma_crlf_to_lf_identity(n);
    lemma_no_leading_tab(crlf_to_lf(s), true);
    lemma_tabs_identity(n, true);
}

/// The pieces of `s` between the separators `sep` (one more piece than separators).
pub open spec fn split_on(s: Seq<char>, sep: char) -> Seq<Seq<char>>
    decreases s.len(),
{
    if s.len() == 0 {
        seq![Seq::empty()]
    } else {
        let pieces = split_on(s.drop_last(), sep);
        if s.last() == sep {
            pieces.push(Seq::empty())
        } else {
            pieces.update(pieces.len() - 1, pieces.last().push(s.last()))
        }
    }
}

proof fn lemma_split_on_nonempty(s: Seq<char>, sep: char)
    ensures
        split_on(s, sep).len() >= 1,
    decreases s.len(),
{
    if s.len() > 0 {
        lemma_split_on_nonempty(s.drop_last(), sep);
    }
}

/// A path component that names something (not empty, not ".").
pub open spec fn is_named_component(c: Seq<char>) -> bool {
    c.len() > 0 && c != seq!['.']
}

/// The index of the last named component among the first `n` pieces.
pub open spec fn last_named(pieces: Seq<Seq<char>>, n: int) -> Option<int>
    decreases n,
{
    if n <= 0 {
        None
    } else if is_named_component(pieces[n - 1]) {
        Some(n - 1)
    } else {
        last_named(pieces, n - 1)
    }
}

/// The file name of a '/'-separated path: its last component, ignoring empty and "."
/// components; empty when there is none or when it is "..".
pub open spec fn file_name(path: Seq<char>) -> Seq<char> {
    let pieces = split_on(path, '/');
    match last_named(pieces, pieces.len() as int) {
        Some(k) => if pieces[k] == seq!['.', '.'] {
            Seq::empty()
        } else {
            pieces[k]
        },
        None => Seq::empty(),
    }
}

/// The code point of a character's ASCII lower case.
pub open spec fn ascii_lower(c: char) -> u32 {
    if 'A' <= c && c <= 'Z' {
        ((c as u32) + 32) as u32
    } else {
        c as u32
    }
}

/// Equality up to ASCII case.
pub open spec fn eq_ignore_ascii_case(a: Seq<char>, b: Seq<char>) -> bool {
    a.len() == b.len() && forall|i: int| 0 <= i < a.len() ==> ascii_lower(#[trigger] a[i]) == ascii_lower(b[i])
}

/// `s` ends with `suffix`.
pub open spec fn ends_with(s: Seq<char>, suffix: Seq<char>) -> bool {
    suffix.len() <= s.len() && s.skip(s.len() - suffix.len()) == suffix
}

/// Whether a file's name marks a format in which leading tabs matter (Makefile, GNUmakefile,
/// Dockerfile, in any ASCII case, or a name ending with ".mk").
pub open spec fn tab_sensitive(path: Seq<char>) -> bool {
    let f = file_name(path);
    eq_ignore_ascii_case(f, "makefile"@) || eq_ignore_ascii_case(f, "gnumakefile"@)
        || eq_ignore_ascii_case(f, "dockerfile"@) || ends_with(f, ".mk"@)
}

fn lower_char(c: char) -> (r: u32)
    ensures
        r == ascii_lower(c),
{
    if 'A' <= c && c <= 'Z' {
        (c as u32) + 32
    } else {
        c as u32
    }
}

fn eq_ignore_case_exec(a: &Vec<char>, b: &str) -> (r: bool)
    ensures
        r == eq_ignore_ascii_case(a@, b@),
{
    let bc = str_chars(b);
    if a.len() != bc.len() {
        return false;
    }
    let mut i: usize = 0;
    while i < a.len()
        invariant
            i <= a.len() == bc.len(),
            bc@ == b@,
            forall|q: int| 0 <= q < i ==> ascii_lower(#[trigger] a@[q]) == ascii_lower(bc@[q]),
        decreases a.len() - i,
    {
        if lower_char(a[i]) != lower_char(bc[i]) {
            return false;
        }
        i = i + 1;
    }
    true
}

fn ends_with_exec(a: &Vec<char>, suffix: &str) -> (r: bool)
    ensures
        r == ends_with(a@, suffix@),
{
    let sc = str_chars(suffix);
    if sc.len() > a.len() {
        return false;
    }
    let off = a.len() - sc.len();
    let mut i: usize = 0;
    while i < sc.len()
        invariant
            i <= sc.len(),
            sc@ == suffix@,
            off + sc.len() == a.len(),
            forall|q: int| 0 <= q < i ==> a@[off + q] == sc@[q],
        decreases sc.len() - i,
    {
        if a[off + i] != sc[i] {
            proof {
                assert(a@.skip(off as int)[i as int] != sc@[i as int]);
            }
            return false;
        }
        i = i + 1;
    }
    proof {
        assert(a@.skip(off as int) =~= sc@);
    }
    true
}

/// The pieces of `cs` between the separators `sep`.
pub fn split_chars(cs: &Vec<char>, sep: char) -> (r: Vec<Vec<char>>)
    ensures
        r@.map_values(|p: Vec<char>| p@) == split_on(cs@, sep),
{
    let mut pieces: Vec<Vec<char>> = Vec::new();
    pieces.push(Vec::new());
    let mut i: usize = 0;
    proof {
        assert(cs@.take(0) =~= Seq::<char>::empty());
        assert(pieces@.map_values(|p: Vec<char>| p@) =~= seq![Seq::<char>::empty()]);
    }
    while i < cs.len()
        invariant
            i <= cs.len(),
            pieces@.len() >= 1,
            pieces@.map_values(|p: Vec<char>| p@) =~= split_on(cs@.take(i as int), sep),
        decreases cs.len() - i,
    {
        let c = cs[i];
        let ghost before = pieces@.map_values(|p: Vec<char>| p@);
        proof {
            assert(cs@.take(i + 1).drop_last() =~= cs@.take(i as int));
            assert(cs@.take(i + 1).last() == c);
        }
        if c == sep {
            pieces.push(Vec::new());
            proof {
                assert(pieces@.map_values(|p: Vec<char>| p@) =~= before.push(Seq::<char>::empty()));
            }
        } else {
            let mut last = pieces.pop().unwrap();
            last.push(c);
            pieces.push(last);
            proof {
                assert(pieces@.map_values(|p: Vec<char>| p@) =~= before.update(
                    before.len() - 1,
                    before.last().push(c),
                ));
            }
        }
        i = i + 1;
    }
    proof {
        assert(cs@.take(cs.len() as int) =~= cs@);
    }
    pieces
}

fn file_name_exec(path: &str) -> (r: Vec<char>)
    ensures
        r@ == file_name(path@),
{
    let cs = str_chars(path);
    let pieces = split_chars(&cs, '/');
    let ghost pv = pieces@.map_values(|p: Vec<char>| p@);
    let mut n: usize = pieces.len();
    while n > 0
        invariant
            n <= pieces.len(),
            pv == pieces@.map_values(|p: Vec<char>| p@),
            pv == split_on(path@, '/'),
            last_named(pv, pv.len() as int) == last_named(pv, n as int),
        decreases n,
    {
        let p = &pieces[n - 1];
        proof {
            assert(pv[n - 1] == p@);
        }
        let named = p.len() > 0 && !(p.len() == 1 && p[0] == '.');
        proof {
            if p@.len() == 1 {
                assert((p@ == seq!['.']) == (p@[0] == '.')) by {
                    if p@[0] == '.' {
                        assert(p@ =~= seq!['.']);
                    }
                }
            }
        }
        proof {
            assert(named == is_named_component(pv[n - 1]));
            if named {
                assert(last_named(pv, n as int) == Some(n - 1));
            }
        }
        if named {
            if p.len() == 2 && p[0] == '.' && p[1] == '.' {
                proof {
                    assert(p@ =~= seq!['.', '.']);
                }
                return Vec::new();
            }
            proof {
                if p@.len() == 2 {
                    assert(p@ != seq!['.', '.']) by {
                        if p@ == seq!['.', '.'] {
                            assert(p@[0] == '.' && p@[1] == '.');
                        }
                    }
                }
            }
            let r = p.clone();
            proof {
                assert(r@ =~= p@);
            }
            return r;
        }
        n = n - 1;
    }
    Vec::new()
}

/// Whether the file's leading tabs must be kept (Makefile, GNUmakefile, Dockerfile in any
/// ASCII case, or a name ending with ".mk").
pub fn is_tabsensitive(path: &str) -> (b: bool)
    ensures
        b == tab_sensitive(path@),
{
    let f = file_name_exec(path);
    eq_ignore_case_exec(&f, "makefile") || eq_ignore_case_exec(&f, "gnumakefile")
        || eq_ignore_case_exec(&f, "dockerfile") || ends_with_exec(&f, ".mk")
}

/// Whether `needle` occurs in `hay`.
pub fn str_contains(hay: &str, needle: &str) -> (b: bool)
    ensures
        b == contains_seq(hay@, needle@),
{
    let h = str_chars(hay);
    let n = str_chars(needle);
    chars_contain(&h, &n)
}

/// Whether `n` occurs in `h`.
pub fn chars_contain(h: &Vec<char>, n: &Vec<char>) -> (b: bool)
    ensures
        b == contains_seq(h@, n@),
{
    if n.len() > h.len() {
        proof {
            assert forall|i: int| !occurs_at(h@, n@, i) by {}
        }
        return false;
    }
    if n.len() == 0 {
        proof {
            assert(h@.subrange(0, 0) =~= n@);
            assert(occurs_at(h@, n@, 0));
        }
        return true;
    }
    let mut i: usize = 0;
    while i <= h.len() - n.len()
        invariant
            1 <= n.len() <= h.len(),
            i <= h.len() - n.len() + 1,
            forall|q: int| 0 <= q < i ==> !occurs_at(h@, n@, q),
        decreases h.len() - n.len() + 1 - i,
    {
        if matches_at_chars(h, n, i) {
            return true;
        }
        i = i + 1;
    }
    proof {
        assert forall|q: int| !occurs_at(h@, n@, q) by {
            if 0 <= q < i {
            }
        }
    }
    false
}

/// The first line at or after `from` that contains `end`.
pub open spec fn first_end(lines: Seq<Seq<char>>, end: Seq<char>, from: int) -> Option<int>
    decreases lines.len() - from,
{
    if from < 0 || from >= lines.len() {
        None
    } else if contains_seq(lines[from], end) {
        Some(from)
    } else {
        first_end(lines, end, from + 1)
    }
}

/// The (start line, end line) pairs found from line `i` on: a line containing `start` pairs
/// with the first later line containing `end`, and the search goes on after that end line;
/// a start line with no later end line is skipped.
pub open spec fn pairs_from(lines: Seq<Seq<char>>, start: Seq<char>, end: Seq<char>, i: int) -> Seq<
    (int, int),
>
    decreases lines.len() - i,
{
    if i < 0 || i >= lines.len() {
        Seq::empty()
    } else if contains_seq(lines[i], start) {
        match first_end(lines, end, i + 1) {
            Some(j) => if i < j < lines.len() {
                seq![(i, j)] + pairs_from(lines, start, end, j + 1)
            } else {
                Seq::empty()
            },
            None => pairs_from(lines, start, end, i + 1),
        }
    } else {
        pairs_from(lines, start, end, i + 1)
    }
}

proof fn lemma_first_end_range(lines: Seq<Seq<char>>, end: Seq<char>, from: int)
    ensures
        match first_end(lines, end, from) {
            Some(j) => from <= j < lines.len() && 0 <= j && contains_seq(lines[j], end),
            None => true,
        },
    decreases lines.len() - from,
{
    if 0 <= from < lines.len() && !contains_seq(lines[from], end) {
        lemma_first_end_range(lines, end, from + 1);
    }
}

pub open spec fn pairs_view(s: Seq<(usize, usize)>) -> Seq<(int, int)> {
    s.map_values(|p: (usize, usize)| (p.0 as int, p.1 as int))
}

pub open spec fn lines_view(s: Seq<String>) -> Seq<Seq<char>> {
    s.map_values(|l: String| l@)
}

fn find_end_from(lines: &Vec<Vec<char>>, end: &Vec<char>, from: usize) -> (r: Option<usize>)
    ensures
        match r {
            Some(j) => first_end(lines@.map_values(|l: Vec<char>| l@), end@, from as int) == Some(
                j as int,
            ),
            None => first_end(lines@.map_values(|l: Vec<char>| l@), end@, from as int) is None,
        },
    decreases lines.len() - from,
{
    let ghost lv = lines@.map_values(|l: Vec<char>| l@);
    if from >= lines.len() {
        return None;
    }
    proof {
        assert(lv[from as int] == lines@[from as int]@);
    }
    if chars_contain(&lines[from], end) {
        Some(from)
    } else {
        find_end_from(lines, end, from + 1)
    }
}

/// The (start line, end line) pairs of a block edit (0-based line indices): each line
/// containing `start` pairs with the first later line containing `end`, and the search goes on
/// after that end line; a start line with no later end line is skipped. Pairs never nest.
pub fn find_pairs(lines: &Vec<String>, start: &str, end: &str) -> (r: Vec<(usize, usize)>)
    ensures
        pairs_view(r@) == pairs_from(lines_view(lines@), start@, end@, 0),
{
    let ghost lv = lines_view(lines@);
    let mut lc: Vec<Vec<char>> = Vec::new();
    let mut k: usize = 0;
    while k < lines.len()
        invariant
            k <= lines.len(),
            lc@.len() == k,
            forall|q: int| 0 <= q < k ==> (#[trigger] lc@[q])@ == lines@[q]@,
        decreases lines.len() - k,
    {
        lc.push(str_chars(lines[k].as_str()));
        k = k + 1;
    }
    proof {
        assert(lc@.map_values(|l: Vec<char>| l@) =~= lv);
    }
    let sc = str_chars(start);
    let ec = str_chars(end);
    let mut pairs: Vec<(usize, usize)> = Vec::new();
    let mut i: usize = 0;
    while i < lc.len()
        invariant
            i <= lc.len() == lines.len(),
            lc@.map_values(|l: Vec<char>| l@) == lv,
            sc@ == start@,
            ec@ == end@,
            pairs_view(pairs@) + pairs_from(lv, start@, end@, i as int) == pairs_from(
                lv,
                start@,
                end@,
                0,
            ),
        decreases lc.len() - i,
    {
        proof {
            assert(lv[i as int] == lc@[i as int]@);
        }
        if chars_contain(&lc[i], &sc) {
            match find_end_from(&lc, &ec, i + 1) {
                Some(j) => {
                    proof {
                        lemma_first_end_range(lv, end@, i + 1);
                    }
                    let ghost old_p = pairs@;
                    pairs.push((i, j));
                    proof {
                        assert(pairs_view(pairs@) =~= pairs_view(old_p).push((i as int, j as int)));
                        assert(pairs_view(pairs@) + pairs_from(lv, start@, end@, j + 1) =~= pairs_view(
                            old_p,
                        ) + (seq![(i as int, j as int)] + pairs_from(lv, start@, end@, j + 1)));
                    }
                    i = j + 1;
                },
                None => {
                    i = i + 1;
                },
            }
        } else {
            i = i + 1;
        }
    }
    proof {
        assert(pairs_view(pairs@) + Seq::<(int, int)>::empty() =~= pairs_view(pairs@));
    }
    pairs
}

/// The distance from the middle line of a pair to the target line.
pub open spec fn pair_distance(p: (usize, usize), target: int) -> int {
    let mid = (p.0 + p.1) / 2;
    if mid >= target {
        mid - target
    } else {
        target - mid
    }
}

/// Why a pair could not be chosen.
pub enum SelectError {
    /// Several pairs and no target line: "匹配不唯一（{n} 对），请指定 line 参数选择目标对".
    NotUnique(usize),
    /// No pair to choose from: "选择配对时出错".
    NoPair,
}

/// The message of a failed choice of pair.
pub open spec fn select_failure_text(e: SelectError) -> Seq<char> {
    match e {
        SelectError::NotUnique(n) => "匹配不唯一（"@ + crate::text::decimal(n as nat)
            + " 对），请指定 line 参数选择目标对"@,
        SelectError::NoPair => "选择配对时出错"@,
    }
}

impl SelectError {
    /// The message of this failure.
    pub fn message(&self) -> (r: String)
        ensures
            r@ == select_failure_text(*self),
    {
        match self {
            SelectError::NotUnique(n) => {
                let mut s = String::from_str("匹配不唯一（");
                crate::text::push_decimal(&mut s, *n);
                s.append(" 对），请指定 line 参数选择目标对");
                s
            },
            SelectError::NoPair => String::from_str("选择配对时出错"),
        }
    }
}

/// Chooses the pair to replace: without a target line, the only pair (an error when there
/// are several or none); with one, the first pair whose middle line is nearest to it.
pub fn select_pair(pairs: &Vec<(usize, usize)>, target_line: Option<u64>) -> (r: Result<
    (usize, usize),
    SelectError,
>)
    requires
        match target_line {
            Some(t) => t <= isize::MAX,
            None => true,
        },
    ensures
        match target_line {
            None => if pairs@.len() == 1 {
                r == Ok::<(usize, usize), SelectError>(pairs@[0])
            } else {
                r matches Err(SelectError::NotUnique(n)) && n == pairs@.len()
            },
            Some(t) => if pairs@.len() == 0 {
                r matches Err(SelectError::NoPair)
            } else {
                exists|k: int|
                    0 <= k < pairs@.len() && r == Ok::<(usize, usize), SelectError>(
                        #[trigger] pairs@[k],
                    ) && (forall|q: int|
                        0 <= q < k ==> pair_distance(#[trigger] pairs@[q], t as int)
                            > pair_distance(pairs@[k], t as int)) && (forall|q: int|
                        k < q < pairs@.len() ==> pair_distance(#[trigger] pairs@[q], t as int)
                            >= pair_distance(pairs@[k], t as int))
            },
        },
{
    match target_line {
        None => {
            if pairs.len() == 1 {
                Ok(pairs[0])
            } else {
                Err(SelectError::NotUnique(pairs.len()))
            }
        },
        Some(t) => {
            if pairs.len() == 0 {
                return Err(SelectError::NoPair);
            }
            let tl = t as usize;
            let mut best: usize = 0;
            let mut best_d: usize = pair_dist(pairs[0], tl);
            let mut q: usize = 1;
            while q < pairs.len()
                invariant
                    1 <= q <= pairs.len(),
                    best < q,
                    tl == t,
                    best_d == pair_distance(pairs@[best as int], t as int),
                    forall|k: int|
                        0 <= k < best ==> pair_distance(#[trigger] pairs@[k], t as int) > best_d,
                    forall|k: int|
                        best < k < q ==> pair_distance(#[trigger] pairs@[k], t as int) >= best_d,
                decreases pairs.len() - q,
            {
                let d = pair_dist(pairs[q], tl);
                if d < best_d {
                    best = q;
                    best_d = d;
                }
                q = q + 1;
            }
            Ok(pairs[best])
        },
    }
}

fn pair_dist(p: (usize, usize), tl: usize) -> (d: usize)
    ensures
        d == pair_distance(p, tl as int),
{
    let mid = p.0 / 2 + p.1 / 2 + (p.0 % 2 + p.1 % 2) / 2;
    assert(mid == (p.0 + p.1) / 2);
    if mid >= tl {
        mid - tl
    } else {
        tl - mid
    }
}

/// The first position at or after `from` where a non-empty `p` occurs in `h`.
pub open spec fn next_occurrence<T>(h: Seq<T>, p: Seq<T>, from: int) -> Option<int>
    decreases h.len() - from,
{
    if p.len() == 0 || from < 0 || from + p.len() > h.len() {
        None
    } else if occurs_at(h, p, from) {
        Some(from)
    } else {
        next_occurrence(h, p, from + 1)
    }
}

/// The non-overlapping occurrences of a non-empty `p` in `h` found from `from` on, scanning
/// left to right, as (start, end) positions.
pub open spec fn literal_matches<T>(h: Seq<T>, p: Seq<T>, from: int) -> Seq<(int, int)>
    decreases h.len() - from,
{
    if p.len() == 0 {
        Seq::empty()
    } else {
        match next_occurrence(h, p, from) {
            Some(k) => if from <= k && k + p.len() <= h.len() {
                seq![(k, k + p.len())] + literal_matches(h, p, k + p.len())
            } else {
                Seq::empty()
            },
            None => Seq::empty(),
        }
    }
}

pub proof fn lemma_next_occurrence_range<T>(h: Seq<T>, p: Seq<T>, from: int)
    ensures
        match next_occurrence(h, p, from) {
            Some(k) => from <= k && k + p.len() <= h.len() && occurs_at(h, p, k),
            None => true,
        },
    decreases h.len() - from,
{
    if p.len() > 0 && 0 <= from && from + p.len() <= h.len() && !occurs_at(h, p, from) {
        lemma_next_occurrence_range(h, p, from + 1);
    }
}

/// Whether `needle` occurs in `hay` at byte position `i`.
fn matches_at_bytes(hay: &[u8], needle: &[u8], i: usize) -> (b: bool)
    ensures
        b == occurs_at(hay@, needle@, i as int),
{
    if i > hay.len() || needle.len() > hay.len() - i {
        return false;
    }
    let mut k: usize = 0;
    while k < needle.len()
        invariant
            k <= needle.len(),
            i + needle.len() <= hay.len(),
            forall|q: int| 0 <= q < k ==> hay@[i + q] == needle@[q],
        decreases needle.len() - k,
    {
        if hay[i + k] != needle[k] {
            proof {
                assert(hay@.subrange(i as int, i + needle.len())[k as int] != needle@[k as int]);
            }
            return false;
        }
        k = k + 1;
    }
    proof {
        assert(hay@.subrange(i as int, i + needle.len()) =~= needle@);
    }
    true
}

fn next_occurrence_exec(h: &[u8], p: &[u8], from: usize) -> (r: Option<usize>)
    ensures
        match r {
            Some(k) => next_occurrence(h@, p@, from as int) == Some(k as int),
            None => next_occurrence(h@, p@, from as int) is None,
        },
{
    let mut i = from;
    while i <= h.len() && p.len() > 0 && p.len() <= h.len() - i
        invariant
            from <= i,
            next_occurrence(h@, p@, from as int) == next_occurrence(h@, p@, i as int),
        decreases h.len() + 1 - i,
    {
        if matches_at_bytes(h, p, i) {
            return Some(i);
        }
        i = i + 1;
    }
    None
}

/// A non-empty text has a non-empty encoding.
proof fn lemma_encoding_nonempty(cs: Seq<char>)
    requires
        cs.len() > 0,
    ensures
        encode_utf8(cs).len() > 0,
{
    assert(encode_utf8(cs) == encode_scalar(cs[0] as u32) + encode_utf8(cs.drop_first()));
}

/// Where the encoding of `pc` begins a valid byte sequence `t`, it ends on a character
/// boundary of `t`.
proof fn lemma_encoded_prefix_boundary(t: Seq<u8>, pc: Seq<char>)
    requires
        valid_utf8(t),
        encode_utf8(pc).len() <= t.len(),
        t.subrange(0, encode_utf8(pc).len() as int) == encode_utf8(pc),
    ensures
        is_char_boundary(t, encode_utf8(pc).len() as int),
    decreases pc.len(),
{
    if pc.len() > 0 {
        let e = encode_utf8(pc);
        let rest = encode_utf8(pc.drop_first());
        vstd::utf8::encode_utf8_first_scalar(pc);
        let l = encode_scalar(pc[0] as u32).len() as int;
        assert(e == encode_scalar(pc[0] as u32) + rest);
        assert(t[0] == t.subrange(0, e.len() as int)[0]);
        assert(t[0] == e[0]);
        assert(length_of_first_scalar(t) == length_of_first_scalar(e));
        assert(length_of_first_scalar(t) == l);
        let tt = pop_first_scalar(t);
        assert(tt.subrange(0, rest.len() as int) =~= rest) by {
            assert forall|q: int| 0 <= q < rest.len() implies tt.subrange(0, rest.len() as int)[q]
                == rest[q] by {
                assert(tt[q] == t[l + q]);
                assert(t[l + q] == t.subrange(0, e.len() as int)[l + q]);
                assert(e[l + q] == rest[q]);
            }
        }
        lemma_encoded_prefix_boundary(tt, pc.drop_first());
    }
}

/// A match of the encoding of a non-empty `pattern` in the encoding of `content` starts and
/// ends on character boundaries: byte offsets found this way always cut the text between
/// characters.
pub proof fn lemma_byte_match_on_boundaries(content: Seq<char>, pattern: Seq<char>, k: int)
    requires
        pattern.len() > 0,
        occurs_at(encode_utf8(content), encode_utf8(pattern), k),
    ensures
        is_char_boundary(encode_utf8(content), k),
        is_char_boundary(encode_utf8(content), k + encode_utf8(pattern).len()),
{
    let b = encode_utf8(content);
    let p = encode_utf8(pattern);
    let n = p.len() as int;
    vstd::utf8::encode_utf8_valid_utf8(content);
    vstd::utf8::encode_utf8_valid_utf8(pattern);
    lemma_encoding_nonempty(pattern);
    assert(b[k] == p[0]) by {
        assert(b.subrange(k, k + n)[0] == b[k]);
    }
    assert(is_char_boundary(p, 0));
    vstd::utf8::is_char_boundary_iff_not_is_continuation_byte(p, 0);
    vstd::utf8::is_char_boundary_iff_not_is_continuation_byte(b, k);
    assert(is_char_boundary(b, k));
    vstd::utf8::valid_utf8_split(b, k);
    let t = b.subrange(k, b.len() as int);
    assert(t.subrange(0, n) =~= p);
    lemma_encoded_prefix_boundary(t, pattern);
    if k + n < b.len() {
        vstd::utf8::is_char_boundary_iff_not_is_continuation_byte(t, n);
        assert(t[n] == b[k + n]);
        vstd::utf8::is_char_boundary_iff_not_is_continuation_byte(b, k + n);
    } else {
        vstd::utf8::is_char_boundary_start_end_of_seq(b);
    }
}

/// The non-overlapping occurrences of `pattern` in `content`, left to right, as byte offsets
/// (start, end) into the UTF-8 encoding of `content`.
pub fn find_literal_matches(content: &str, pattern: &str) -> (r: Vec<(usize, usize)>)
    requires
        pattern@.len() > 0,
    ensures
        pairs_view(r@) == literal_matches(content.spec_bytes(), pattern.spec_bytes(), 0),
{
    let h = content.as_bytes();
    let p = pattern.as_bytes();
    proof {
        lemma_encoding_nonempty(pattern@);
    }
    let mut out: Vec<(usize, usize)> = Vec::new();
    let mut from: usize = 0;
    while from <= h.len()
        invariant
            h@ == content.spec_bytes(),
            p@ == pattern.spec_bytes(),
            p@.len() > 0,
            pairs_view(out@) + literal_matches(h@, p@, from as int) == literal_matches(h@, p@, 0),
        decreases h.len() + 1 - from,
    {
        match next_occurrence_exec(h, p, from) {
            Some(k) => {
                proof {
                    lemma_next_occurrence_range(h@, p@, from as int);
                }
                let ghost old_out = out@;
                out.push((k, k + p.len()));
                proof {
                    assert(pairs_view(out@) =~= pairs_view(old_out).push((k as int, k + p@.len())));
                    assert(pairs_view(out@) + literal_matches(h@, p@, k + p@.len()) =~= pairs_view(
                        old_out,
                    ) + (seq![(k as int, k + p@.len())] + literal_matches(h@, p@, k + p@.len())));
                }
                from = k + p.len();
            },
            None => {
                proof {
                    assert(pairs_view(out@) + Seq::<(int, int)>::empty() =~= pairs_view(out@));
                }
                return out;
            },
        }
    }
    proof {
        assert(pairs_view(out@) + Seq::<(int, int)>::empty() =~= pairs_view(out@));
    }
    out
}

/// The literal matches lie within `h`, start where they are found, and follow one another.
pub proof fn lemma_literal_matches_in_range<T>(h: Seq<T>, p: Seq<T>, from: int)
    requires
        0 <= from,
    ensures
        forall|q: int|
            0 <= q < literal_matches(h, p, from).len() ==> from <= (
            #[trigger] literal_matches(h, p, from)[q]).0 <= literal_matches(h, p, from)[q].1
                <= h.len() && literal_matches(h, p, from)[q].1 == literal_matches(h, p, from)[q].0
                + p.len() && occurs_at(h, p, literal_matches(h, p, from)[q].0),
        forall|q: int|
            0 < q < literal_matches(h, p, from).len() ==> (#[trigger] literal_matches(h, p, from)[q
                - 1]).1 <= literal_matches(h, p, from)[q].0,
    decreases h.len() - from,
{
    if p.len() > 0 {
        lemma_next_occurrence_range(h, p, from);
        match next_occurrence(h, p, from) {
            Some(k) => {
                if from <= k && k + p.len() <= h.len() {
                    lemma_literal_matches_in_range(h, p, k + p.len());
                    let rest = literal_matches(h, p, k + p.len());
                    let all = literal_matches(h, p, from);
                    assert forall|q: int| 0 <= q < all.len() implies from <= (#[trigger] all[q]).0
                        <= all[q].1 <= h.len() && all[q].1 == all[q].0 + p.len() && occurs_at(
                        h,
                        p,
                        all[q].0,
                    ) by {
                        if q > 0 {
                            assert(all[q] == rest[q - 1]);
                        }
                    }
                    assert forall|q: int| 0 < q < all.len() implies (#[trigger] all[q - 1]).1
                        <= all[q].0 by {
                        assert(all[q] == rest[q - 1]);
                        if q > 1 {
                            assert(all[q - 1] == rest[q - 2]);
                        }
                    }
                }
            },
            None => {},
        }
    }
}

/// Each block pair runs from a line to a later line of `lines`, and the pairs follow one
/// another.
pub proof fn lemma_pairs_in_range(lines: Seq<Seq<char>>, start: Seq<char>, end: Seq<char>, i: int)
    requires
        0 <= i,
    ensures
        forall|q: int|
            0 <= q < pairs_from(lines, start, end, i).len() ==> i <= (#[trigger] pairs_from(
                lines,
                start,
                end,
                i,
            )[q]).0 < pairs_from(lines, start, end, i)[q].1 < lines.len(),
    decreases lines.len() - i,
{
    if i < lines.len() {
        if contains_seq(lines[i], start) {
            lemma_first_end_range(lines, end, i + 1);
            match first_end(lines, end, i + 1) {
                Some(j) => {
                    lemma_pairs_in_range(lines, start, end, j + 1);
                    let all = pairs_from(lines, start, end, i);
                    let rest = pairs_from(lines, start, end, j + 1);
                    assert forall|q: int| 0 <= q < all.len() implies i <= (#[trigger] all[q]).0
                        < all[q].1 < lines.len() by {
                        if q > 0 {
                            assert(all[q] == rest[q - 1]);
                        }
                    }
                },
                None => {
                    lemma_pairs_in_range(lines, start, end, i + 1);
                    assert(pairs_from(lines, start, end, i) == pairs_from(lines, start, end, i + 1));
                },
            }
        } else {
            lemma_pairs_in_range(lines, start, end, i + 1);
            assert(pairs_from(lines, start, end, i) == pairs_from(lines, start, end, i + 1));
        }
    }
}

} // verus!

//! Edits driven by regular expressions: the matches come from `fancy_regex`, the choice of
//! match and the new content are computed here.
use vstd::prelude::*;
use vstd::string::StringSliceAdditionalSpecFns;
use vstd::utf8::{decode_utf8, encode_utf8, is_char_boundary, valid_utf8};

use crate::edit::SelectError;
use crate::splice::{chosen_index, line_at, line_of_byte_pos, select_match, EditFailure, EditResult};

verus! {

/// What `fancy_regex` finds for `pattern` in `text`: `None` when the pattern does not
/// compile, `Some(None)` when matching fails, else the byte ranges of the successive
/// non-overlapping matches.
pub uninterp spec fn regex_matches_of(pattern: Seq<char>, text: Seq<char>) -> Option<
    Option<Seq<(int, int)>>,
>;

/// The byte ranges lie in `b` on character boundaries, each ends no later than the next
/// one starts.
pub open spec fn well_placed(b: Seq<u8>, ms: Seq<(int, int)>) -> bool {
    &&& forall|k: int|
        0 <= k < ms.len() ==> 0 <= (#[trigger] ms[k]).0 <= ms[k].1 <= b.len()
            && is_char_boundary(b, ms[k].0) && is_char_boundary(b, ms[k].1)
    &&& forall|k: int| 0 < k < ms.len() ==> (#[trigger] ms[k - 1]).1 <= ms[k].0
}

pub open spec fn ranges_view(v: Seq<(usize, usize)>) -> Seq<(int, int)> {
    v.map_values(|p: (usize, usize)| (p.0 as int, p.1 as int))
}

/// Why no match list came back.
pub enum RegexError {
    /// The pattern does not compile.
    Invalid,
    /// Matching failed (a backtracking limit was hit).
    MatchFailed,
}

/// Compiles `pattern` with `fancy_regex::Regex::new` and collects `find_iter(text)`: the
/// start and end byte offsets of each match, in order. The contract names that list and
/// states what `Matches` guarantees of it: each match is a slice of the text (`Match::as_str`
/// slices the text at its two offsets) and the next search starts where the last match ended.
#[verifier::external_body]
fn regex_find(pattern: &str, text: &str) -> (r: Result<Vec<(usize, usize)>, RegexError>)
    ensures
        match r {
            Ok(v) => regex_matches_of(pattern@, text@) == Some(Some(ranges_view(v@)))
                && well_placed(text.spec_bytes(), ranges_view(v@)),
            Err(RegexError::Invalid) => regex_matches_of(pattern@, text@) is None,
            Err(RegexError::MatchFailed) => regex_matches_of(pattern@, text@) == Some(
                None::<Seq<(int, int)>>,
            ),
        },
{
    let re = match fancy_regex::Regex::new(pattern) {
        Ok(re) => re,
        Err(_) => return Err(RegexError::Invalid),
    };
    let mut v = Vec::new();
    for m in re.find_iter(text) {
        match m {
            Ok(m) => v.push((m.start(), m.end())),
            Err(_) => return Err(RegexError::MatchFailed),
        }
    }
    Ok(v)
}

proof fn lemma_boundary_in_prefix(b: Seq<u8>, i: int, j: int)
    requires
        valid_utf8(b),
        0 <= i <= j <= b.len(),
        is_char_boundary(b, i),
        is_char_boundary(b, j),
    ensures
        valid_utf8(b.subrange(0, j)),
        is_char_boundary(b.subrange(0, j), i),
{
    vstd::utf8::valid_utf8_split(b, j);
    let p = b.subrange(0, j);
    if i == j {
        vstd::utf8::is_char_boundary_start_end_of_seq(p);
    } else {
        vstd::utf8::is_char_boundary_iff_not_is_continuation_byte(b, i);
        vstd::utf8::is_char_boundary_iff_not_is_continuation_byte(p, i);
        assert(p[i] == b[i]);
    }
}

/// The characters of `content` between two character boundaries.
fn byte_slice(content: &str, from: usize, to: usize) -> (r: &str)
    requires
        from <= to <= content.spec_bytes().len(),
        is_char_boundary(content.spec_bytes(), from as int),
        is_char_boundary(content.spec_bytes(), to as int),
    ensures
        r@ == decode_utf8(content.spec_bytes().subrange(from as int, to as int)),
{
    proof {
        vstd::utf8::encode_utf8_valid_utf8(content@);
        lemma_boundary_in_prefix(content.spec_bytes(), from as int, to as int);
    }
    let (head, _tail) = content.split_at(to);
    let (_a, piece) = head.split_at(from);
    proof {
        assert(piece.spec_bytes() =~= content.spec_bytes().subrange(from as int, to as int));
        vstd::utf8::encode_utf8_decode_utf8(piece@);
    }
    piece
}

/// `b` with each range of `ms` (from `last` on) replaced by `rep`, decoded.
pub open spec fn regex_spliced(b: Seq<u8>, ms: Seq<(int, int)>, rep: Seq<char>, last: int) -> Seq<char>
    decreases ms.len(),
{
    if ms.len() == 0 {
        decode_utf8(b.subrange(last, b.len() as int))
    } else {
        decode_utf8(b.subrange(last, ms[0].0)) + rep + regex_spliced(b, ms.skip(1), rep, ms[0].1)
    }
}

/// Replaces every match of `pattern` in `content` by `replacement` (`replace_all_regex`):
/// an error when the pattern does not compile or matching fails.
pub fn replace_all_regex(pattern: &str, content: &str, replacement: &str) -> (r: Result<String, RegexError>)
    ensures
        match r {
            Ok(s) => regex_matches_of(pattern@, content@) matches Some(Some(ms)) && s@
                == regex_spliced(content.spec_bytes(), ms, replacement@, 0),
            Err(RegexError::Invalid) => regex_matches_of(pattern@, content@) is None,
            Err(RegexError::MatchFailed) => regex_matches_of(pattern@, content@) == Some(
                None::<Seq<(int, int)>>,
            ),
        },
{
    let ms = match regex_find(pattern, content) {
        Ok(v) => v,
        Err(e) => return Err(e),
    };
    let ghost b = content.spec_bytes();
    let ghost msv = ranges_view(ms@);
    let n = content.as_bytes().len();
    proof {
        vstd::utf8::encode_utf8_valid_utf8(content@);
        vstd::utf8::is_char_boundary_start_end_of_seq(b);
        assert(msv.skip(0) =~= msv);
    }
    let mut out = String::new();
    let mut last: usize = 0;
    let mut i: usize = 0;
    while i < ms.len()
        invariant
            i <= ms.len(),
            n == b.len(),
            b == content.spec_bytes(),
            msv == ranges_view(ms@),
            well_placed(b, msv),
            valid_utf8(b),
            last <= n,
            is_char_boundary(b, last as int),
            i > 0 ==> last == msv[i - 1].1,
            i == 0 ==> last == 0,
            out@ + regex_spliced(b, msv.skip(i as int), replacement@, last as int) == regex_spliced(
                b,
                msv,
                replacement@,
                0,
            ),
        decreases ms.len() - i,
    {
        let (s, e) = ms[i];
        proof {
            assert(msv[i as int] == (s as int, e as int));
            if i > 0 {
                assert(msv[i - 1].1 <= msv[i as int].0);
            }
            let rest = msv.skip(i as int);
            assert(rest[0] == msv[i as int]);
            assert(rest.skip(1) =~= msv.skip(i + 1));
        }
        let piece = byte_slice(content, last, s);
        let ghost before = out@;
        out.append(piece);
        out.append(replacement);
        proof {
            assert(out@ + regex_spliced(b, msv.skip(i + 1), replacement@, e as int) =~= before + (
            decode_utf8(b.subrange(last as int, s as int)) + replacement@ + regex_spliced(
                b,
                msv.skip(i + 1),
                replacement@,
                e as int,
            )));
        }
        last = e;
        i = i + 1;
    }
    let tail = byte_slice(content, last, n);
    let ghost before = out@;
    out.append(tail);
    proof {
        assert(msv.skip(ms.len() as int) =~= Seq::<(int, int)>::empty());
        assert(out@ =~= before + regex_spliced(b, msv.skip(ms.len() as int), replacement@, last as int));
    }
    Ok(out)
}

/// The content with the byte range `start..end` of `b` replaced by `rep`, decoded.
pub open spec fn byte_spliced(b: Seq<u8>, start: int, end: int, rep: Seq<char>) -> Seq<char> {
    decode_utf8(b.subrange(0, start)) + rep + decode_utf8(b.subrange(end, b.len() as int))
}

/// `e` replaces one of the byte ranges `ms` of `b` by `rep`: the one that `target` chooses
/// among the lines the ranges start on (see `chosen_index`); its line is that of the range.
pub open spec fn byte_edit_ok(b: Seq<u8>, ms: Seq<(int, int)>, target: Option<u64>, rep: Seq<char>, e: EditResult) -> bool {
    exists|k: int|
        #![trigger ms[k]]
        chosen_index(Seq::new(ms.len(), |q: int| line_at(b, 10u8, ms[q].0) as usize), target, k)
            && e.content@ == byte_spliced(b, ms[k].0, ms[k].1, rep) && e.line == line_at(
            b,
            10u8,
            ms[k].0,
        )
}

/// Replaces the one of the byte ranges `ms` of `original` that `target` chooses by
/// `replacement`: without a target, several ranges are an error.
pub(crate) fn edit_one_match(original: &str, ms: &Vec<(usize, usize)>, replacement: &str, target: Option<u64>) -> (r: Result<EditResult, EditFailure>)
    requires
        ms@.len() > 0,
        well_placed(original.spec_bytes(), ranges_view(ms@)),
        forall|q: int| 0 <= q < ms@.len() ==> (#[trigger] ms@[q]).0 < usize::MAX,
    ensures
        match r {
            Ok(e) => byte_edit_ok(original.spec_bytes(), ranges_view(ms@), target, replacement@, e),
            Err(EditFailure::NotUnique(n)) => ms@.len() > 1 && target is None && n == ms@.len(),
            Err(_) => false,
        },
{
    let ghost msv = ranges_view(ms@);
    let bytes = original.as_bytes();
    let mut lines: Vec<usize> = Vec::new();
    let mut i: usize = 0;
    while i < ms.len()
        invariant
            i <= ms.len(),
            bytes@ == original.spec_bytes(),
            forall|q: int| 0 <= q < ms@.len() ==> (#[trigger] ms@[q]).0 < usize::MAX,
            msv == ranges_view(ms@),
            well_placed(original.spec_bytes(), msv),
            lines@.len() == i,
            forall|q: int|
                0 <= q < i ==> #[trigger] lines@[q] == line_at(original.spec_bytes(), 10u8, msv[q].0)
                    as usize,
        decreases ms.len() - i,
    {
        proof {
            assert(msv[i as int].0 == ms@[i as int].0);
        }
        let pos = ms[i].0;
        let l = line_of_byte_pos(bytes, pos);
        lines.push(l);
        i = i + 1;
    }
    proof {
        assert(lines@ =~= Seq::new(
            msv.len(),
            |q: int| line_at(original.spec_bytes(), 10u8, msv[q].0) as usize,
        ));
    }
    match select_match(&lines, target) {
        Ok(k) => {
            let (s, e) = ms[k];
            proof {
                assert(msv[k as int] == (s as int, e as int));
                assert(chosen_index(
                    Seq::new(msv.len(), |q: int| line_at(original.spec_bytes(), 10u8, msv[q].0) as usize),
                    target,
                    k as int,
                ));
                vstd::utf8::encode_utf8_valid_utf8(original@);
                vstd::utf8::is_char_boundary_start_end_of_seq(original.spec_bytes());
            }
            let n = bytes.len();
            let head = byte_slice(original, 0, s);
            let tail = byte_slice(original, e, n);
            let mut content = head.to_owned();
            content.append(replacement);
            content.append(tail);
            let line = line_of_byte_pos(bytes, s);
            Ok(EditResult { content, line })
        },
        Err(SelectError::NotUnique(n)) => Err(EditFailure::NotUnique(n)),
        Err(SelectError::NoPair) => Err(EditFailure::NoMatch),
    }
}

/// Replaces one regular-expression match of `pattern` in `original` (the `raw_edit` and
/// `edit` tools): no match is an error, several are told apart by the target line (the first
/// nearest wins), and without one only a single match is accepted.
pub fn regex_edit(original: &str, pattern: &str, replacement: &str, target: Option<u64>) -> (r: Result<
    EditResult,
    EditFailure,
>)
    requires
        original.spec_bytes().len() < usize::MAX,
    ensures
        match r {
            Ok(e) => regex_matches_of(pattern@, original@) matches Some(Some(ms)) && ms.len() > 0
                && byte_edit_ok(original.spec_bytes(), ms, target, replacement@, e),
            Err(EditFailure::NoMatch) => regex_matches_of(pattern@, original@) matches Some(Some(ms))
                && ms.len() == 0,
            Err(EditFailure::NotUnique(n)) => regex_matches_of(pattern@, original@) matches Some(
                Some(ms),
            ) && ms.len() > 1 && target is None && n == ms.len(),
            Err(EditFailure::InvalidRegex) => regex_matches_of(pattern@, original@) is None,
            Err(EditFailure::MatchFailed) => regex_matches_of(pattern@, original@) == Some(
                None::<Seq<(int, int)>>,
            ),
        },
{
    let ms = match regex_find(pattern, original) {
        Ok(v) => v,
        Err(RegexError::Invalid) => return Err(EditFailure::InvalidRegex),
        Err(RegexError::MatchFailed) => return Err(EditFailure::MatchFailed),
    };
    if ms.len() == 0 {
        return Err(EditFailure::NoMatch);
    }
    proof {
        let msv = ranges_view(ms@);
        assert forall|q: int| 0 <= q < ms@.len() implies (#[trigger] ms@[q]).0 < usize::MAX by {
            assert(msv[q].0 == ms@[q].0);
        }
    }
    edit_one_match(original, &ms, replacement, target)
}

/// The new content of a file that the `replace` tool changes with a regular expression:
/// the normalised content with every match replaced, or `None` when that changes nothing.
pub fn regex_replacement(original: &str, pattern: &str, replacement: &str) -> (r: Result<
    Option<String>,
    RegexError,
>)
    ensures
        ({
            let c = crate::edit::normalized(original@);
            match r {
                Ok(o) => regex_matches_of(pattern@, c) matches Some(Some(ms)) && ({
                    let n = regex_spliced(encode_utf8(c), ms, replacement@, 0);
                    match o {
                        Some(t) => n != c && t@ == n,
                        None => n == c,
                    }
                }),
                Err(RegexError::Invalid) => regex_matches_of(pattern@, c) is None,
                Err(RegexError::MatchFailed) => regex_matches_of(pattern@, c) == Some(
                    None::<Seq<(int, int)>>,
                ),
            }
        }),
{
    let content = crate::edit::normalize(original);
    let new = match replace_all_regex(pattern, content.as_str(), replacement) {
        Ok(n) => n,
        Err(e) => return Err(e),
    };
    if new != content {
        Ok(Some(new))
    } else {
        Ok(None)
    }
}

} // verus!

//! Cutting a text down to its first tokens: by the tokenizer's offsets when one is
//! loaded, else by an estimate of four bytes a token.
use vstd::prelude::*;
use vstd::string::StringSliceAdditionalSpecFns;
use vstd::utf8::{encode_utf8, is_char_boundary};

verus! {

#[verifier::external_type_specification]
#[verifier::external_body]
pub struct ExTokenizer(tokenizers::Tokenizer);

/// The number of tokens of `content` and the byte offsets of each token, as
/// `tokenizers::Tokenizer::encode(content, true)` reports them, or `None` when the encoding
/// fails. They depend on the vocabulary and rules the tokenizer was loaded with, so the
/// contract states nothing of them.
#[verifier::external_body]
fn token_offsets(tok: &tokenizers::Tokenizer, content: &str) -> (r: Option<(usize, Vec<(usize, usize)>)>)
{
    match tok.encode(content, true) {
        Ok(enc) => Some((enc.len(), enc.get_offsets().to_vec())),
        Err(_) => None,
    }
}

/// The number of tokens of `content`: what the tokenizer counts when there is one and its
/// encoding succeeds, else a quarter of the number of bytes.
pub fn token_count(content: &str, tokenizer: Option<&tokenizers::Tokenizer>) -> (n: usize)
    ensures
        tokenizer is None ==> n == content.spec_bytes().len() / 4,
{
    match tokenizer {
        Some(tok) => match token_offsets(tok, content) {
            Some((count, _)) => count,
            None => content.as_bytes().len() / 4,
        },
        None => content.as_bytes().len() / 4,
    }
}

/// The largest character boundary of `b` at or below `i`.
pub open spec fn floor_boundary(b: Seq<u8>, i: int) -> int
    decreases i,
{
    if i <= 0 {
        0
    } else if is_char_boundary(b, i) {
        i
    } else {
        floor_boundary(b, i - 1)
    }
}

proof fn lemma_floor_boundary(b: Seq<u8>, i: int)
    requires
        vstd::utf8::valid_utf8(b),
        0 <= i <= b.len(),
    ensures
        0 <= floor_boundary(b, i) <= i,
        is_char_boundary(b, floor_boundary(b, i)),
    decreases i,
{
    vstd::utf8::is_char_boundary_start_end_of_seq(b);
    if i > 0 && !is_char_boundary(b, i) {
        lemma_floor_boundary(b, i - 1);
    }
}

/// The first `end` bytes of `content`.
fn byte_prefix(content: &str, end: usize) -> (r: String)
    requires
        is_char_boundary(content.spec_bytes(), end as int),
    ensures
        encode_utf8(r@) == content.spec_bytes().subrange(0, end as int),
{
    let (a, _b) = content.split_at(end);
    a.to_owned()
}

/// The byte length at which the estimate cuts `content`: `max_tok * 4` bytes, moved down to
/// a character boundary.
pub open spec fn estimate_cut(content: Seq<u8>, max_tok: nat) -> int {
    floor_boundary(content, if max_tok * 4 <= content.len() {
        (max_tok * 4) as int
    } else {
        content.len() as int
    })
}

/// Cuts `content` to about `max_tok` tokens at four bytes a token: unchanged (and not
/// flagged) when it fits, else its first `max_tok * 4` bytes moved down to a character
/// boundary, flagged as cut.
pub fn truncate_by_estimate(content: &str, max_tok: usize) -> (r: (String, bool))
    requires
        max_tok * 4 <= usize::MAX,
    ensures
        r.1 == (content.spec_bytes().len() > max_tok * 4),
        !r.1 ==> r.0@ == content@,
        r.1 ==> encode_utf8(r.0@) == content.spec_bytes().subrange(
            0,
            estimate_cut(content.spec_bytes(), max_tok as nat),
        ),
{
    let max_bytes = max_tok * 4;
    let len = content.as_bytes().len();
    if len <= max_bytes {
        return (content.to_owned(), false);
    }
    let ghost b = content.spec_bytes();
    proof {
        vstd::utf8::encode_utf8_valid_utf8(content@);
    }
    let mut end: usize = if max_bytes < len {
        max_bytes
    } else {
        len
    };
    let ghost start = end as int;
    proof {
        lemma_floor_boundary(b, start);
    }
    while !content.is_char_boundary(end)
        invariant
            0 <= end <= start <= b.len(),
            b == content.spec_bytes(),
            vstd::utf8::valid_utf8(b),
            floor_boundary(b, end as int) == floor_boundary(b, start),
        decreases end,
    {
        proof {
            vstd::utf8::is_char_boundary_start_end_of_seq(b);
        }
        end = end - 1;
    }
    proof {
        vstd::utf8::is_char_boundary_start_end_of_seq(b);
    }
    (byte_prefix(content, end), true)
}

/// Cuts `content` at the end of its token `max_tok` (counting from one; the first token
/// when `max_tok` is zero) when it has more than `max_tok` tokens: `token_count` tokens whose
/// byte ranges are `offsets`. Unchanged and not flagged when it has no more.
pub fn truncate_at_tokens(
    content: &str,
    max_tok: usize,
    token_count: usize,
    offsets: &Vec<(usize, usize)>,
) -> (r: (String, bool))
    requires
        token_count > max_tok ==> {
            let k = if max_tok > 0 {
                max_tok - 1
            } else {
                0
            };
            &&& k < offsets@.len()
            &&& is_char_boundary(
                content.spec_bytes(),
                token_cut(content.spec_bytes(), offsets@[k].1),
            )
        },
    ensures
        r.1 == (token_count > max_tok),
        !r.1 ==> r.0@ == content@,
        r.1 ==> encode_utf8(r.0@) == content.spec_bytes().subrange(
            0,
            token_cut(
                content.spec_bytes(),
                offsets@[if max_tok > 0 {
                    max_tok - 1
                } else {
                    0
                }].1,
            ),
        ),
{
    proof {
        vstd::utf8::encode_utf8_valid_utf8(content@);
    }
    if token_count <= max_tok {
        return (content.to_owned(), false);
    }
    let k = if max_tok > 0 {
        max_tok - 1
    } else {
        0
    };
    let off = offsets[k].1;
    let end = if off < content.as_bytes().len() {
        off
    } else {
        content.as_bytes().len()
    };
    (byte_prefix(content, end), true)
}

/// Where a token that ends at byte `off` cuts `content`: there, or at its end.
pub open spec fn token_cut(content: Seq<u8>, off: usize) -> int {
    if off < content.len() {
        off as int
    } else {
        content.len() as int
    }
}

/// `(cut, flagged)` is what the four-bytes-a-token estimate makes of `content`.
pub open spec fn estimate_result(content: Seq<char>, max_tok: nat, cut: Seq<char>, flagged: bool) -> bool {
    let b = encode_utf8(content);
    &&& flagged == (b.len() > max_tok * 4)
    &&& !flagged ==> cut == content
    &&& flagged ==> encode_utf8(cut) == b.subrange(0, estimate_cut(b, max_tok))
}

/// `(cut, flagged)` is what the tokens make of `content` when it has `count` tokens whose
/// byte ranges are `offsets` (see `truncate_at_tokens`).
pub open spec fn token_result(
    content: Seq<char>,
    max_tok: nat,
    count: nat,
    offsets: Seq<(usize, usize)>,
    cut: Seq<char>,
    flagged: bool,
) -> bool {
    let b = encode_utf8(content);
    let k = if max_tok > 0 {
        max_tok - 1
    } else {
        0
    };
    &&& flagged == (count > max_tok)
    &&& !flagged ==> cut == content
    &&& flagged ==> k < offsets.len() && encode_utf8(cut) == b.subrange(0, token_cut(b, offsets[k].1))
}

/// Cuts `content` to its first `max_tok` tokens and says whether it was cut. With a
/// tokenizer whose encoding succeeds and whose offset for the last kept token falls on a
/// character boundary, the cut follows the tokens (`truncate_at_tokens`); otherwise it
/// follows the four-bytes-a-token estimate (`truncate_by_estimate`).
pub fn truncate_head_tok(content: &str, max_tok: usize, tokenizer: Option<&tokenizers::Tokenizer>) -> (r: (
    String,
    bool,
))
    requires
        max_tok * 4 <= usize::MAX,
    ensures
        !r.1 ==> r.0@ == content@,
        r.1 ==> exists|e: int|
            0 <= e <= content.spec_bytes().len() && encode_utf8(r.0@)
                == content.spec_bytes().subrange(0, e),
        tokenizer is None ==> estimate_result(content@, max_tok as nat, r.0@, r.1),
        tokenizer is Some ==> estimate_result(content@, max_tok as nat, r.0@, r.1) || exists|
            count: nat,
            offsets: Seq<(usize, usize)>,
        | token_result(content@, max_tok as nat, count, offsets, r.0@, r.1),
{
    proof {
        vstd::utf8::encode_utf8_valid_utf8(content@);
        lemma_floor_boundary(
            content.spec_bytes(),
            if max_tok * 4 <= content.spec_bytes().len() {
                max_tok * 4
            } else {
                content.spec_bytes().len() as int
            },
        );
    }
    match tokenizer {
        Some(tok) => {
            match token_offsets(tok, content) {
                Some((n, offs)) => {
                    if n <= max_tok {
                        let r = truncate_at_tokens(content, max_tok, n, &offs);
                        proof {
                            assert(token_result(content@, max_tok as nat, n as nat, offs@, r.0@, r.1));
                        }
                        return r;
                    }
                    let k = if max_tok > 0 {
                        max_tok - 1
                    } else {
                        0
                    };
                    if k < offs.len() {
                        let off = offs[k].1;
                        let end = if off < content.as_bytes().len() {
                            off
                        } else {
                            content.as_bytes().len()
                        };
                        if content.is_char_boundary(end) {
                            proof {
                                assert(end == token_cut(content.spec_bytes(), offs@[k as int].1));
                            }
                            let r = truncate_at_tokens(content, max_tok, n, &offs);
                            proof {
                                assert(token_result(content@, max_tok as nat, n as nat, offs@, r.0@, r.1));
                            }
                            return r;
                        }
                    }
                },
                None => {},
            }
        },
        None => {},
    }
    let r = truncate_by_estimate(content, max_tok);
    proof {
        assert(estimate_result(content@, max_tok as nat, r.0@, r.1));
    }
    r
}

/// The cut text when `text` had to be cut to `max_tok` tokens, `None` when it fits.
pub fn truncate_opt(text: &str, max_tok: usize, tokenizer: Option<&tokenizers::Tokenizer>) -> (r:
    Option<(String, bool)>)
    requires
        max_tok * 4 <= usize::MAX,
    ensures
        match r {
            Some(p) => p.1 && exists|e: int|
                0 <= e <= text.spec_bytes().len() && encode_utf8(p.0@)
                    == text.spec_bytes().subrange(0, e),
            None => true,
        },
        tokenizer is None ==> (r is Some <==> text.spec_bytes().len() > max_tok * 4),
        tokenizer is None ==> match r {
            Some(p) => encode_utf8(p.0@) == text.spec_bytes().subrange(
                0,
                estimate_cut(text.spec_bytes(), max_tok as nat),
            ),
            None => true,
        },
        tokenizer is Some ==> match r {
            Some(p) => estimate_result(text@, max_tok as nat, p.0@, true) || exists|
                count: nat,
                offsets: Seq<(usize, usize)>,
            | token_result(text@, max_tok as nat, count, offsets, p.0@, true),
            None => estimate_result(text@, max_tok as nat, text@, false) || exists|
                count: nat,
                offsets: Seq<(usize, usize)>,
            | token_result(text@, max_tok as nat, count, offsets, text@, false),
        },
{
    let (t, cut) = truncate_head_tok(text, max_tok, tokenizer);
    proof {
        if tokenizer is Some && !estimate_result(text@, max_tok as nat, t@, cut) {
            let (count, offsets) = choose|count: nat, offsets: Seq<(usize, usize)>|
                token_result(text@, max_tok as nat, count, offsets, t@, cut);
            if cut {
                assert(token_result(text@, max_tok as nat, count, offsets, t@, true));
            } else {
                assert(token_result(text@, max_tok as nat, count, offsets, text@, false));
            }
        }
        if !cut {
            assert(t@ == text@);
        }
    }
    if cut {
        Some((t, true))
    } else {
        None
    }
}

} // verus!

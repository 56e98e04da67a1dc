//! Text helpers: decimal numerals and joining parts with a separator.
use vstd::prelude::*;

verus! {

/// The decimal digit for `d < 10`.
pub open spec fn digit_char(d: nat) -> char {
    if d == 0 {
        '0'
    } else if d == 1 {
        '1'
    } else if d == 2 {
        '2'
    } else if d == 3 {
        '3'
    } else if d == 4 {
        '4'
    } else if d == 5 {
        '5'
    } else if d == 6 {
        '6'
    } else if d == 7 {
        '7'
    } else if d == 8 {
        '8'
    } else {
        '9'
    }
}

/// The decimal numeral of `n`, without leading zeros ("0" for zero).
pub open spec fn decimal(n: nat) -> Seq<char>
    decreases n,
{
    if n < 10 {
        seq![digit_char(n)]
    } else {
        decimal(n / 10).push(digit_char(n % 10))
    }
}

/// `parts` joined with `sep` between consecutive parts.
pub open spec fn join(parts: Seq<Seq<char>>, sep: Seq<char>) -> Seq<char>
    decreases parts.len(),
{
    if parts.len() == 0 {
        Seq::empty()
    } else if parts.len() == 1 {
        parts[0]
    } else {
        join(parts.drop_last(), sep) + sep + parts.last()
    }
}

fn digit_str(d: usize) -> (s: &'static str)
    requires
        d < 10,
    ensures
        s@ == seq![digit_char(d as nat)],
{
    if d == 0 {
        proof {
            reveal_strlit("0");
        }
        "0"
    } else if d == 1 {
        proof {
            reveal_strlit("1");
        }
        "1"
    } else if d == 2 {
        proof {
            reveal_strlit("2");
        }
        "2"
    } else if d == 3 {
        proof {
            reveal_strlit("3");
        }
        "3"
    } else if d == 4 {
        proof {
            reveal_strlit("4");
        }
        "4"
    } else if d == 5 {
        proof {
            reveal_strlit("5");
        }
        "5"
    } else if d == 6 {
        proof {
            reveal_strlit("6");
        }
        "6"
    } else if d == 7 {
        proof {
            reveal_strlit("7");
        }
        "7"
    } else if d == 8 {
        proof {
            reveal_strlit("8");
        }
        "8"
    } else {
        proof {
            reveal_strlit("9");
        }
        "9"
    }
}

/// Appends the decimal numeral of `n` to `out`.
pub fn push_decimal(out: &mut String, n: usize)
    ensures
        final(out)@ == old(out)@ + decimal(n as nat),
    decreases n,
{
    if n < 10 {
        out.append(digit_str(n));
    } else {
        push_decimal(out, n / 10);
        out.append(digit_str(n % 10));
        proof {
            assert(decimal(n as nat) == decimal((n / 10) as nat).push(digit_char((n % 10) as nat)));
        }
    }
}

/// The decimal numeral of `n`.
pub fn usize_to_string(n: usize) -> (s: String)
    ensures
        s@ == decimal(n as nat),
{
    let mut s = String::new();
    push_decimal(&mut s, n);
    s
}

/// `parts` joined with `sep`.
pub fn join_strings(parts: &Vec<String>, sep: &str) -> (r: String)
    ensures
        r@ == join(parts@.map_values(|p: String| p@), sep@),
{
    let ghost pv = parts@.map_values(|p: String| p@);
    let mut r = String::new();
    let mut i: usize = 0;
    while i < parts.len()
        invariant
            i <= parts.len(),
            pv == parts@.map_values(|p: String| p@),
            r@ == join(pv.take(i as int), sep@),
        decreases parts.len() - i,
    {
        proof {
            assert(pv.take(i + 1).drop_last() =~= pv.take(i as int));
        }
        if i > 0 {
            r.append(sep);
        }
        r.append(parts[i].as_str());
        proof {
            if i == 0 {
                assert(pv.take(1) =~= seq![parts@[0]@]);
            }
        }
        i = i + 1;
    }
    proof {
        assert(pv.take(parts.len() as int) =~= pv);
    }
    r
}

/// The characters of `s`.
pub fn str_chars(s: &str) -> (v: Vec<char>)
    ensures
        v@ == s@,
{
    broadcast use vstd::string::group_string_axioms;
    let mut v: Vec<char> = Vec::new();
    for c in it: s.chars()
        invariant
            v@ == it.seq().take(it.index() as int),
    {
        v.push(c);
    }
    v
}

/// Appends `c` to `s` (`String::push`).
#[verifier::external_body]
pub(crate) fn push_char(s: &mut String, c: char)
    ensures
        final(s)@ == old(s)@.push(c),
{
    s.push(c);
}

/// The string made of the characters `v`.
pub fn string_from_chars(v: &Vec<char>) -> (s: String)
    ensures
        s@ == v@,
{
    let mut s = String::new();
    let mut i: usize = 0;
    while i < v.len()
        invariant
            i <= v.len(),
            s@ == v@.take(i as int),
        decreases v.len() - i,
    {
        push_char(&mut s, v[i]);
        proof {
            assert(v@.take(i + 1) =~= v@.take(i as int).push(v@[i as int]));
        }
        i = i + 1;
    }
    proof {
        assert(v@.take(v.len() as int) =~= v@);
    }
    s
}

/// `needle` occurs in `hay` at position `i`.
pub open spec fn occurs_at<T>(hay: Seq<T>, needle: Seq<T>, i: int) -> bool {
    0 <= i && i + needle.len() <= hay.len() && hay.subrange(i, i + needle.len()) == needle
}

/// `needle` occurs somewhere in `hay`.
pub open spec fn contains_seq<T>(hay: Seq<T>, needle: Seq<T>) -> bool {
    exists|i: int| occurs_at(hay, needle, i)
}

/// Whether `needle` occurs in `hay` at position `i`.
pub fn matches_at_chars(hay: &Vec<char>, needle: &Vec<char>, i: usize) -> (b: bool)
    ensures
        b == occurs_at(hay@, needle@, i as int),
{
    if i > hay.len() || needle.len() > hay.len() - i {
        return false;
    }
    let mut k: usize = 0;
    while k < needle.len()
        invariant
            k <= needle.len(),
            i + needle.len() <= hay.len(),
            forall|q: int| 0 <= q < k ==> hay@[i + q] == needle@[q],
        decreases needle.len() - k,
    {
        if hay[i + k] != needle[k] {
            proof {
                assert(hay@.subrange(i as int, i + needle.len())[k as int] != needle@[k as int]);
            }
            return false;
        }
        k = k + 1;
    }
    proof {
        assert(hay@.subrange(i as int, i + needle.len()) =~= needle@);
    }
    true
}

} // verus!

verus! {

/// `s` with every occurrence of `from` replaced by `to`, scanning left to right without
/// overlaps (`str::replace`); an empty `from` occurs before every character and at the end.
pub open spec fn replaced(s: Seq<char>, from: Seq<char>, to: Seq<char>) -> Seq<char>
    decreases s.len(),
{
    if from.len() == 0 {
        if s.len() == 0 {
            to
        } else {
            to + seq![s[0]] + replaced(s.skip(1), from, to)
        }
    } else if s.len() < from.len() {
        s
    } else if s.take(from.len() as int) == from {
        to + replaced(s.skip(from.len() as int), from, to)
    } else {
        seq![s[0]] + replaced(s.skip(1), from, to)
    }
}

fn interleave(sc: &Vec<char>, to: &str) -> (r: String)
    ensures
        r@ == replaced(sc@, Seq::empty(), to@),
{
    let mut out = String::new();
    let mut i: usize = 0;
    proof {
        assert(sc@.skip(0) =~= sc@);
    }
    while i < sc.len()
        invariant
            i <= sc.len(),
            out@ + replaced(sc@.skip(i as int), Seq::empty(), to@) == replaced(sc@, Seq::empty(), to@),
        decreases sc.len() - i,
    {
        let ghost rest = sc@.skip(i as int);
        proof {
            assert(rest[0] == sc@[i as int]);
            assert(rest.skip(1) =~= sc@.skip(i + 1));
        }
        let ghost before = out@;
        out.append(to);
        push_char(&mut out, sc[i]);
        proof {
            assert(out@ + replaced(sc@.skip(i + 1), Seq::empty(), to@) =~= before + (to@ + seq![
                rest[0],
            ] + replaced(rest.skip(1), Seq::empty(), to@)));
        }
        i = i + 1;
    }
    proof {
        assert(sc@.skip(sc@.len() as int) =~= Seq::<char>::empty());
    }
    out.append(to);
    out
}

/// Replaces every occurrence of `from` in `s` by `to` (`str::replace`).
pub fn replace_all(s: &str, from: &str, to: &str) -> (r: String)
    ensures
        r@ == replaced(s@, from@, to@),
{
    let sc = str_chars(s);
    let fc = str_chars(from);
    if fc.len() == 0 {
        proof {
            assert(from@ =~= Seq::<char>::empty());
        }
        return interleave(&sc, to);
    }
    let tc = str_chars(to);
    let mut out: Vec<char> = Vec::new();
    let mut i: usize = 0;
    proof {
        assert(sc@.skip(0) =~= sc@);
        assert(out@ + sc@.skip(0) =~= sc@);
    }
    while i < sc.len()
        invariant
            i <= sc.len(),
            sc@ == s@,
            fc@ == from@,
            tc@ == to@,
            fc@.len() > 0,
            out@ + replaced(sc@.skip(i as int), fc@, tc@) == replaced(sc@, fc@, tc@),
        decreases sc.len() - i,
    {
        let ghost rest = sc@.skip(i as int);
        if fc.len() <= sc.len() - i && matches_at_chars(&sc, &fc, i) {
            proof {
                assert(rest.take(fc@.len() as int) =~= sc@.subrange(i as int, i + fc@.len()));
                assert(rest.skip(fc@.len() as int) =~= sc@.skip(i + fc@.len()));
            }
            let mut k: usize = 0;
            let ghost before = out@;
            while k < tc.len()
                invariant
                    k <= tc.len(),
                    out@ == before + tc@.take(k as int),
                decreases tc.len() - k,
            {
                out.push(tc[k]);
                proof {
                    assert(tc@.take(k + 1) =~= tc@.take(k as int).push(tc@[k as int]));
                }
                k = k + 1;
            }
            proof {
                assert(tc@.take(tc@.len() as int) =~= tc@);
                assert(out@ + replaced(sc@.skip(i + fc@.len()), fc@, tc@) =~= before + (tc@
                    + replaced(sc@.skip(i + fc@.len()), fc@, tc@)));
            }
            i = i + fc.len();
        } else {
            proof {
                if fc@.len() <= rest.len() {
                    assert(rest.take(fc@.len() as int) =~= sc@.subrange(i as int, i + fc@.len()));
                }
                assert(rest.skip(1) =~= sc@.skip(i + 1));
                assert(rest[0] == sc@[i as int]);
            }
            let ghost before = out@;
            out.push(sc[i]);
            proof {
                if fc@.len() <= rest.len() {
                    assert(out@ + replaced(sc@.skip(i + 1), fc@, tc@) =~= before + (seq![rest[0]]
                        + replaced(rest.skip(1), fc@, tc@)));
                } else {
                    assert(replaced(rest, fc@, tc@) == rest);
                    assert(replaced(sc@.skip(i + 1), fc@, tc@) == sc@.skip(i + 1));
                    assert(out@ + sc@.skip(i + 1) =~= before + rest);
                }
            }
            i = i + 1;
        }
    }
    proof {
        assert(sc@.skip(sc@.len() as int) =~= Seq::<char>::empty());
        assert(out@ + Seq::<char>::empty() =~= out@);
    }
    string_from_chars(&out)
}

/// The characters that Unicode counts as white space.
pub open spec fn is_white_space(c: char) -> bool {
    ('\u{9}' <= c && c <= '\u{d}') || c == ' ' || c == '\u{85}' || c == '\u{a0}' || c
        == '\u{1680}' || ('\u{2000}' <= c && c <= '\u{200a}') || c == '\u{2028}' || c
        == '\u{2029}' || c == '\u{202f}' || c == '\u{205f}' || c == '\u{3000}'
}

/// `s` without its leading white space.
pub open spec fn trim_start(s: Seq<char>) -> Seq<char>
    decreases s.len(),
{
    if s.len() > 0 && is_white_space(s[0]) {
        trim_start(s.skip(1))
    } else {
        s
    }
}

/// `s` without its trailing white space.
pub open spec fn trim_end(s: Seq<char>) -> Seq<char>
    decreases s.len(),
{
    if s.len() > 0 && is_white_space(s.last()) {
        trim_end(s.drop_last())
    } else {
        s
    }
}

/// `s` without white space at either end.
pub open spec fn trimmed(s: Seq<char>) -> Seq<char> {
    trim_end(trim_start(s))
}

pub fn white_space(c: char) -> (b: bool)
    ensures
        b == is_white_space(c),
{
    ('\u{9}' <= c && c <= '\u{d}') || c == ' ' || c == '\u{85}' || c == '\u{a0}' || c
        == '\u{1680}' || ('\u{2000}' <= c && c <= '\u{200a}') || c == '\u{2028}' || c
        == '\u{2029}' || c == '\u{202f}' || c == '\u{205f}' || c == '\u{3000}'
}

proof fn lemma_trim_start_skip(s: Seq<char>, i: int)
    requires
        0 <= i <= s.len(),
        forall|k: int| 0 <= k < i ==> is_white_space(#[trigger] s[k]),
    ensures
        trim_start(s) == trim_start(s.skip(i)),
    decreases i,
{
    if i == 0 {
        assert(s.skip(0) =~= s);
    } else {
        assert(is_white_space(s[0]));
        assert(s.skip(1).skip(i - 1) =~= s.skip(i));
        assert forall|k: int| 0 <= k < i - 1 implies is_white_space(#[trigger] s.skip(1)[k]) by {
            assert(s.skip(1)[k] == s[k + 1]);
        }
        lemma_trim_start_skip(s.skip(1), i - 1);
    }
}

proof fn lemma_trim_end_take(s: Seq<char>, j: int)
    requires
        0 <= j <= s.len(),
        forall|k: int| j <= k < s.len() ==> is_white_space(#[trigger] s[k]),
    ensures
        trim_end(s) == trim_end(s.take(j)),
    decreases s.len() - j,
{
    if j < s.len() {
        assert(s.drop_last().take(j) =~= s.take(j));
        lemma_trim_end_take(s.drop_last(), j);
    } else {
        assert(s.take(j) =~= s);
    }
}

/// `s` without white space at either end (`str::trim`).
pub fn trim(s: &str) -> (r: String)
    ensures
        r@ == trimmed(s@),
{
    let cs = str_chars(s);
    let mut i: usize = 0;
    while i < cs.len() && white_space(cs[i])
        invariant
            i <= cs.len(),
            forall|k: int| 0 <= k < i ==> is_white_space(#[trigger] cs@[k]),
        decreases cs.len() - i,
    {
        i = i + 1;
    }
    proof {
        lemma_trim_start_skip(cs@, i as int);
    }
    let ghost rest = cs@.skip(i as int);
    proof {
        if i < cs.len() {
            assert(rest[0] == cs@[i as int]);
        }
        assert(trim_start(rest) == rest);
    }
    let mut j: usize = cs.len();
    while j > i && white_space(cs[j - 1])
        invariant
            i <= j <= cs.len(),
            rest == cs@.skip(i as int),
            forall|k: int| j - i <= k < rest.len() ==> is_white_space(#[trigger] rest[k]),
        decreases j,
    {
        proof {
            assert(rest[j - 1 - i] == cs@[j - 1]);
        }
        j = j - 1;
    }
    proof {
        lemma_trim_end_take(rest, j - i);
        let t = rest.take(j - i);
        if j > i {
            assert(t.last() == cs@[j - 1]);
        }
        assert(trim_end(t) == t);
    }
    let mut out: Vec<char> = Vec::new();
    let mut k: usize = i;
    while k < j
        invariant
            i <= k <= j <= cs.len(),
            out@ == cs@.subrange(i as int, k as int),
        decreases j - k,
    {
        out.push(cs[k]);
        proof {
            assert(cs@.subrange(i as int, k + 1) =~= cs@.subrange(i as int, k as int).push(cs@[k as int]));
        }
        k = k + 1;
    }
    proof {
        assert(out@ =~= rest.take(j - i));
    }
    string_from_chars(&out)
}

/// Replacing a non-empty text that does not occur leaves the text as it is.
pub proof fn lemma_replaced_absent(s: Seq<char>, from: Seq<char>, to: Seq<char>)
    requires
        from.len() > 0,
        !contains_seq(s, from),
    ensures
        replaced(s, from, to) == s,
    decreases s.len(),
{
    if s.len() >= from.len() {
        assert(s.take(from.len() as int) != from) by {
            if s.take(from.len() as int) == from {
                assert(s.subrange(0, from.len() as int) =~= s.take(from.len() as int));
                assert(occurs_at(s, from, 0));
            }
        }
        let t = s.skip(1);
        assert(!contains_seq(t, from)) by {
            if contains_seq(t, from) {
                let i = choose|i: int| occurs_at(t, from, i);
                assert(s.subrange(i + 1, i + 1 + from.len()) =~= t.subrange(i, i + from.len()));
                assert(occurs_at(s, from, i + 1));
            }
        }
        lemma_replaced_absent(t, from, to);
        assert(seq![s[0]] + t =~= s);
    }
}

} // verus!

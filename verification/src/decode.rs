//! Turning raw bytes (a file's contents, a command's output) into text: UTF-8 first, then
//! the common Windows code pages in a fixed order, and lossy UTF-8 as the last resort.
use vstd::prelude::*;
use vstd::utf8::{decode_utf8, valid_utf8};

verus! {

/// What `encoding_rs` decodes `bytes` to, in the encoding with the WHATWG label `label`,
/// without BOM handling and without replacement: `None` where the bytes are malformed in
/// that encoding (or where the label names no encoding).
pub uninterp spec fn legacy_decoded_of(label: Seq<char>, bytes: Seq<u8>) -> Option<Seq<char>>;

/// What `String::from_utf8_lossy` makes of `bytes`.
pub uninterp spec fn utf8_lossy_of(bytes: Seq<u8>) -> Seq<char>;

/// Reads `bytes` as UTF-8 with `std::str::from_utf8`, which by its documentation succeeds
/// exactly on valid UTF-8 and then gives the characters the bytes encode.
#[verifier::external_body]
fn utf8_text(bytes: &[u8]) -> (r: Option<String>)
    ensures
        r is Some <==> valid_utf8(bytes@),
        r matches Some(s) ==> s@ == decode_utf8(bytes@),
{
    std::str::from_utf8(bytes).ok().map(|s| s.to_owned())
}

/// Decodes `bytes` with `encoding_rs`: the label is looked up with `Encoding::for_label`
/// and the bytes decoded with `decode_without_bom_handling_and_without_replacement`. The
/// contract names the result. The decoder sizes its buffer at about three bytes of output
/// per byte of input and panics where that size overflows, so the input is bounded.
#[verifier::external_body]
fn legacy_decode(label: &str, bytes: &[u8]) -> (r: Option<String>)
    requires
        4 * bytes@.len() <= isize::MAX,
    ensures
        match r {
            Some(s) => legacy_decoded_of(label@, bytes@) == Some(s@),
            None => legacy_decoded_of(label@, bytes@) is None,
        },
{
    let encoding = match encoding_rs::Encoding::for_label(label.as_bytes()) {
        Some(e) => e,
        None => return None,
    };
    encoding.decode_without_bom_handling_and_without_replacement(bytes).map(|text| text.into_owned())
}

/// Decodes `bytes` with `String::from_utf8_lossy`, which replaces each invalid sequence
/// with U+FFFD. The contract names the result and states, as the documentation does, that
/// valid UTF-8 is decoded as it stands.
#[verifier::external_body]
fn utf8_lossy(bytes: &[u8]) -> (r: String)
    ensures
        r@ == utf8_lossy_of(bytes@),
        valid_utf8(bytes@) ==> r@ == decode_utf8(bytes@),
{
    String::from_utf8_lossy(bytes).into_owned()
}

/// The code pages tried after UTF-8, in order: GBK (CP936), Shift_JIS (CP932),
/// EUC-KR (CP949) and Windows-1252 (CP1252), by their WHATWG labels.
pub open spec fn code_page_labels() -> Seq<Seq<char>> {
    seq![
        seq!['g', 'b', 'k'],
        seq!['s', 'h', 'i', 'f', 't', '_', 'j', 'i', 's'],
        seq!['e', 'u', 'c', '-', 'k', 'r'],
        seq!['w', 'i', 'n', 'd', 'o', 'w', 's', '-', '1', '2', '5', '2'],
    ]
}

/// The decoding in the first of `labels` under which `bytes` are well formed.
pub open spec fn first_legacy(labels: Seq<Seq<char>>, bytes: Seq<u8>) -> Option<Seq<char>>
    decreases labels.len(),
{
    if labels.len() == 0 {
        None
    } else {
        match legacy_decoded_of(labels[0], bytes) {
            Some(text) => Some(text),
            None => first_legacy(labels.drop_first(), bytes),
        }
    }
}

/// The text that `bytes` are read as: their UTF-8 decoding where they are valid UTF-8,
/// else the decoding in the first code page under which they are well formed, else the
/// lossy UTF-8 decoding.
pub open spec fn decoded_text(bytes: Seq<u8>) -> Seq<char> {
    if valid_utf8(bytes) {
        decode_utf8(bytes)
    } else {
        match first_legacy(code_page_labels(), bytes) {
            Some(text) => text,
            None => utf8_lossy_of(bytes),
        }
    }
}

/// Reads `bytes` as text (see `decoded_text`).
pub fn decode_text(bytes: &[u8]) -> (text: String)
    requires
        4 * bytes@.len() <= isize::MAX,
    ensures
        text@ == decoded_text(bytes@),
{
    if let Some(s) = utf8_text(bytes) {
        return s;
    }
    let labels: [&str; 4] = ["gbk", "shift_jis", "euc-kr", "windows-1252"];
    proof {
        reveal_strlit("gbk");
        reveal_strlit("shift_jis");
        reveal_strlit("euc-kr");
        reveal_strlit("windows-1252");
        assert(labels[0]@ == code_page_labels()[0]);
        assert(labels[1]@ == code_page_labels()[1]);
        assert(labels[2]@ == code_page_labels()[2]);
        assert(labels[3]@ == code_page_labels()[3]);
        assert(code_page_labels().skip(0) =~= code_page_labels());
    }
    let mut i: usize = 0;
    while i < 4
        invariant
            i <= 4,
            !valid_utf8(bytes@),
            4 * bytes@.len() <= isize::MAX,
            forall|k: int| 0 <= k < 4 ==> #[trigger] labels[k]@ == code_page_labels()[k],
            first_legacy(code_page_labels(), bytes@) == first_legacy(
                code_page_labels().skip(i as int),
                bytes@,
            ),
        decreases 4 - i,
    {
        let label = labels[i];
        let ghost rest = code_page_labels().skip(i as int);
        assert(rest[0] == label@);
        assert(rest.drop_first() =~= code_page_labels().skip(i + 1));
        if let Some(text) = legacy_decode(label, bytes) {
            return text;
        }
        i = i + 1;
    }
    assert(code_page_labels().skip(4) =~= Seq::<Seq<char>>::empty());
    utf8_lossy(bytes)
}

} // verus!

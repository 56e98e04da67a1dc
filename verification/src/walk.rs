//! Which directories and files the directory-wide tools (`grep`, `replace`) visit.
use vstd::prelude::*;

use crate::message::string_is;
use crate::text::{str_chars, string_from_chars};

verus! {

/// What `str::to_lowercase` makes of `s` (Unicode lower case).
pub uninterp spec fn lowercase_of(s: Seq<char>) -> Seq<char>;

/// Lower-cases `s` with `str::to_lowercase`; the contract names the result.
#[verifier::external_body]
fn to_lower(s: &str) -> (r: String)
    ensures
        r@ == lowercase_of(s@),
{
    s.to_lowercase()
}

/// A directory that is never searched: hidden ones, and `node_modules`, `target` and
/// `tokenizer`.
pub open spec fn skipped_dir(name: Seq<char>) -> bool {
    (name.len() > 0 && name[0] == '.') || name == "node_modules"@ || name == "target"@ || name
        == "tokenizer"@
}

/// Whether the tools descend into the directory `name`.
pub fn descends_into(name: &str) -> (b: bool)
    ensures
        b == !skipped_dir(name@),
{
    let cs = str_chars(name);
    let n = name.to_owned();
    !((cs.len() > 0 && cs[0] == '.') || string_is(&n, "node_modules") || string_is(&n, "target")
        || string_is(&n, "tokenizer"))
}

/// The position of the last `.` in `s`.
pub open spec fn last_dot(s: Seq<char>) -> Option<int>
    decreases s.len(),
{
    if s.len() == 0 {
        None
    } else if s.last() == '.' {
        Some(s.len() - 1)
    } else {
        last_dot(s.drop_last())
    }
}

/// The extension of a file name as `Path::extension` gives it: what follows the last dot,
/// unless there is no dot, the only dot starts the name, or the name is "..".
pub open spec fn extension_of(name: Seq<char>) -> Option<Seq<char>> {
    if name == ".."@ {
        None
    } else {
        match last_dot(name) {
            Some(p) => if p == 0 {
                None
            } else {
                Some(name.skip(p + 1))
            },
            None => None,
        }
    }
}

proof fn lemma_last_dot(s: Seq<char>, p: int)
    requires
        0 <= p < s.len(),
        s[p] == '.',
        forall|k: int| p < k < s.len() ==> s[k] != '.',
    ensures
        last_dot(s) == Some(p),
    decreases s.len(),
{
    if p < s.len() - 1 {
        lemma_last_dot(s.drop_last(), p);
    }
}

proof fn lemma_no_dot(s: Seq<char>)
    requires
        forall|k: int| 0 <= k < s.len() ==> s[k] != '.',
    ensures
        last_dot(s) is None,
    decreases s.len(),
{
    if s.len() > 0 {
        lemma_no_dot(s.drop_last());
    }
}

/// The extension of the file name `name` (see `extension_of`).
pub fn file_extension(name: &str) -> (r: Option<String>)
    ensures
        match r {
            Some(e) => extension_of(name@) == Some(e@),
            None => extension_of(name@) is None,
        },
{
    let n = name.to_owned();
    if string_is(&n, "..") {
        return None;
    }
    let cs = str_chars(name);
    let mut i: usize = cs.len();
    while i > 0 && cs[i - 1] != '.'
        invariant
            i <= cs.len(),
            cs@ == name@,
            forall|k: int| i <= k < cs.len() ==> cs@[k] != '.',
        decreases i,
    {
        i = i - 1;
    }
    if i == 0 {
        proof {
            lemma_no_dot(cs@);
        }
        return None;
    }
    proof {
        lemma_last_dot(cs@, i - 1);
    }
    if i == 1 {
        return None;
    }
    let mut tail: Vec<char> = Vec::new();
    let mut k: usize = i;
    while k < cs.len()
        invariant
            i <= k <= cs.len(),
            tail@ == cs@.subrange(i as int, k as int),
        decreases cs.len() - k,
    {
        tail.push(cs[k]);
        proof {
            assert(cs@.subrange(i as int, k + 1) =~= cs@.subrange(i as int, k as int).push(cs@[k as int]));
        }
        k = k + 1;
    }
    proof {
        assert(tail@ =~= cs@.skip(i as int));
    }
    Some(string_from_chars(&tail))
}

/// The extensions a search is limited to, lower-cased.
pub fn wanted_extensions(list: &Vec<String>) -> (r: Vec<String>)
    ensures
        r@.len() == list@.len(),
        forall|k: int| 0 <= k < list@.len() ==> (#[trigger] r@[k])@ == lowercase_of(list@[k]@),
{
    let mut r: Vec<String> = Vec::new();
    let mut i: usize = 0;
    while i < list.len()
        invariant
            i <= list@.len(),
            r@.len() == i,
            forall|k: int| 0 <= k < i ==> (#[trigger] r@[k])@ == lowercase_of(list@[k]@),
        decreases list@.len() - i,
    {
        r.push(to_lower(list[i].as_str()));
        i = i + 1;
    }
    r
}

/// Whether a file is searched: it is not the debug log `api_debug.json`, and its extension,
/// lower-cased, is one of `exts`.
pub open spec fn searched_file(name: Seq<char>, exts: Seq<Seq<char>>) -> bool {
    name != "api_debug.json"@ && match extension_of(name) {
        Some(e) => exts.contains(lowercase_of(e)),
        None => false,
    }
}

/// Whether the tools search the file `name` (see `searched_file`).
pub fn searches_file(name: &str, exts: &Vec<String>) -> (b: bool)
    ensures
        b == searched_file(name@, exts@.map_values(|e: String| e@)),
{
    let n = name.to_owned();
    if string_is(&n, "api_debug.json") {
        return false;
    }
    let ghost ev = exts@.map_values(|e: String| e@);
    match file_extension(name) {
        Some(e) => {
            let low = to_lower(e.as_str());
            let mut i: usize = 0;
            while i < exts.len()
                invariant
                    i <= exts@.len(),
                    ev == exts@.map_values(|e: String| e@),
                    forall|k: int| 0 <= k < i ==> ev[k] != low@,
                    name@ != "api_debug.json"@,
                    extension_of(name@) == Some(e@),
                    low@ == lowercase_of(e@),
                decreases exts@.len() - i,
            {
                proof {
                    assert(ev[i as int] == exts@[i as int]@);
                }
                if exts[i] == low {
                    proof {
                        assert(exts@[i as int]@ == low@);
                        assert(ev[i as int] == low@);
                        assert(ev.contains(low@));
                    }
                    return true;
                }
                i = i + 1;
            }
            false
        },
        None => false,
    }
}

} // verus!

//! The settings the server shows and stores.
use vstd::prelude::*;
use vstd::string::StringSliceAdditionalSpecFns;
use vstd::utf8::{decode_utf8, encode_utf8, is_char_boundary};

use crate::session::SettingsUpdate;
use crate::text::decimal;

verus! {

/// A stored key with its first and last four bytes kept: "abcd...wxyz" for a key longer
/// than eight bytes, "****" otherwise.
pub open spec fn masked(k: Seq<char>) -> Seq<char> {
    let b = encode_utf8(k);
    if b.len() > 8 {
        decode_utf8(b.subrange(0, 4)) + "..."@ + decode_utf8(b.subrange(b.len() - 4, b.len() as int))
    } else {
        "****"@
    }
}

/// Whether a key can be cut after its fourth byte and before its last four bytes.
pub open spec fn maskable(k: Seq<char>) -> bool {
    let b = encode_utf8(k);
    b.len() > 8 ==> is_char_boundary(b, 4) && is_char_boundary(b, b.len() - 4)
}

/// Hides an API key but for its first and last four bytes.
pub fn mask_api_key(key: &Option<String>) -> (r: Option<String>)
    requires
        match key {
            Some(k) => maskable(k@),
            None => true,
        },
    ensures
        match key {
            Some(k) => r matches Some(m) && m@ == masked(k@),
            None => r is None,
        },
{
    match key {
        None => None,
        Some(k) => {
            let s = k.as_str();
            let n = s.as_bytes().len();
            proof {
                vstd::utf8::encode_utf8_valid_utf8(k@);
                reveal_strlit("****");
            }
            if n > 8 {
                let (head, _rest) = s.split_at(4);
                let (_front, tail) = s.split_at(n - 4);
                proof {
                    vstd::utf8::encode_utf8_decode_utf8(head@);
                    vstd::utf8::encode_utf8_decode_utf8(tail@);
                }
                let mut m = head.to_owned();
                m.append("...");
                m.append(tail);
                Some(m)
            } else {
                Some(String::from_str("****"))
            }
        },
    }
}

/// A change to the stored settings.
pub enum SettingChange {
    /// Store `value` under `key`.
    Store { key: String, value: String },
    /// Remove the setting `key`.
    Remove { key: String },
}

/// The value of a setting change: (key, Some(value)) to store, (key, None) to remove.
pub open spec fn change_view(c: SettingChange) -> (Seq<char>, Option<Seq<char>>) {
    match c {
        SettingChange::Store { key, value } => (key@, Some(value@)),
        SettingChange::Remove { key } => (key@, None),
    }
}

/// "1" for on, "0" for off.
pub open spec fn flag_text(b: bool) -> Seq<char> {
    if b {
        "1"@
    } else {
        "0"@
    }
}

/// The stored changes an update asks for, in this order: a non-empty API key; the system
/// prompt (removed when empty); the tool delay in decimal; the warm-up and auto-collapse
/// switches as "1" or "0".
pub open spec fn update_changes(u: SettingsUpdate) -> Seq<(Seq<char>, Option<Seq<char>>)> {
    let a = match u.api_key {
        Some(k) => if k@.len() > 0 {
            seq![("api_key"@, Some(k@))]
        } else {
            seq![]
        },
        None => seq![],
    };
    let b = match u.system_prompt {
        Some(p) => if p@.len() > 0 {
            seq![("system_prompt"@, Some(p@))]
        } else {
            seq![("system_prompt"@, None)]
        },
        None => seq![],
    };
    let c = match u.tool_delay_ms {
        Some(d) => seq![("tool_delay_ms"@, Some(decimal(d as nat)))],
        None => seq![],
    };
    let d = match u.warmup_enabled {
        Some(e) => seq![("warmup_enabled"@, Some(flag_text(e)))],
        None => seq![],
    };
    let e = match u.auto_collapse_prev {
        Some(x) => seq![("auto_collapse_prev"@, Some(flag_text(x)))],
        None => seq![],
    };
    a + b + c + d + e
}

fn flag_string(b: bool) -> (s: String)
    ensures
        s@ == flag_text(b),
{
    if b {
        String::from_str("1")
    } else {
        String::from_str("0")
    }
}

/// The changes to store for a settings update (see `update_changes`).
pub fn settings_changes(u: &SettingsUpdate) -> (r: Vec<SettingChange>)
    ensures
        r@.map_values(|c: SettingChange| change_view(c)) == update_changes(*u),
{
    let mut r: Vec<SettingChange> = Vec::new();
    let ghost mut expect: Seq<(Seq<char>, Option<Seq<char>>)> = Seq::empty();
    match &u.api_key {
        Some(k) => {
            if !k.as_str().is_empty() {
                r.push(SettingChange::Store { key: String::from_str("api_key"), value: k.clone() });
            }
        },
        None => {},
    }
    proof {
        assert(r@.map_values(|c: SettingChange| change_view(c)) =~= match u.api_key {
            Some(k) => if k@.len() > 0 {
                seq![("api_key"@, Some(k@))]
            } else {
                seq![]
            },
            None => seq![],
        });
    }
    let ghost after_a = r@.map_values(|c: SettingChange| change_view(c));
    match &u.system_prompt {
        Some(p) => {
            if !p.as_str().is_empty() {
                r.push(
                    SettingChange::Store { key: String::from_str("system_prompt"), value: p.clone() },
                );
            } else {
                r.push(SettingChange::Remove { key: String::from_str("system_prompt") });
            }
        },
        None => {},
    }
    let ghost after_b = r@.map_values(|c: SettingChange| change_view(c));
    match u.tool_delay_ms {
        Some(d) => {
            r.push(
                SettingChange::Store { key: String::from_str("tool_delay_ms"), value: u64_to_string(d) },
            );
        },
        None => {},
    }
    let ghost after_c = r@.map_values(|c: SettingChange| change_view(c));
    match u.warmup_enabled {
        Some(e) => {
            r.push(SettingChange::Store { key: String::from_str("warmup_enabled"), value: flag_string(e) });
        },
        None => {},
    }
    let ghost after_d = r@.map_values(|c: SettingChange| change_view(c));
    match u.auto_collapse_prev {
        Some(x) => {
            r.push(
                SettingChange::Store { key: String::from_str("auto_collapse_prev"), value: flag_string(x) },
            );
        },
        None => {},
    }
    proof {
        assert(r@.map_values(|c: SettingChange| change_view(c)) =~= update_changes(*u));
    }
    r
}

/// The decimal numeral of a `u64`.
pub fn u64_to_string(n: u64) -> (s: String)
    ensures
        s@ == decimal(n as nat),
    decreases n,
{
    if n < 10 {
        crate::text::usize_to_string(n as usize)
    } else {
        let mut s = u64_to_string(n / 10);
        let d = crate::text::usize_to_string((n % 10) as usize);
        proof {
            assert(decimal(n as nat) == decimal((n / 10) as nat).push(crate::text::digit_char((n % 10) as nat)));
        }
        s.append(d.as_str());
        s
    }
}

/// The value of decimal digits.
pub open spec fn digits_value(ds: Seq<char>) -> nat
    decreases ds.len(),
{
    if ds.len() == 0 {
        0
    } else {
        digits_value(ds.drop_last()) * 10 + (ds.last() as nat - '0' as nat) as nat
    }
}

pub open spec fn all_digits(ds: Seq<char>) -> bool {
    forall|k: int| 0 <= k < ds.len() ==> '0' <= #[trigger] ds[k] <= '9'
}

/// What `str::parse` makes of `s` for an unsigned integer type whose largest value is
/// `max`: an optional `+`, then at least one decimal digit and nothing else, with a value of
/// at most `max`.
pub open spec fn parsed_unsigned(s: Seq<char>, max: nat) -> Option<nat> {
    let ds = if s.len() > 0 && s[0] == '+' {
        s.skip(1)
    } else {
        s
    };
    if ds.len() == 0 || !all_digits(ds) || digits_value(ds) > max {
        None
    } else {
        Some(digits_value(ds))
    }
}

proof fn lemma_digits_grow(ds: Seq<char>, i: int)
    requires
        0 <= i <= ds.len(),
        all_digits(ds),
    ensures
        digits_value(ds.take(i)) <= digits_value(ds),
    decreases ds.len() - i,
{
    if i < ds.len() {
        lemma_digits_grow(ds, i + 1);
        assert(ds.take(i + 1).drop_last() =~= ds.take(i));
    } else {
        assert(ds.take(i) =~= ds);
    }
}

/// Parses an unsigned decimal number of at most `max` (see `parsed_unsigned`).
pub fn parse_unsigned(s: &str, max: u64) -> (r: Option<u64>)
    ensures
        match r {
            Some(v) => parsed_unsigned(s@, max as nat) == Some(v as nat),
            None => parsed_unsigned(s@, max as nat) is None,
        },
{
    let cs = crate::text::str_chars(s);
    let start: usize = if cs.len() > 0 && cs[0] == '+' {
        1
    } else {
        0
    };
    let ghost ds = if cs@.len() > 0 && cs@[0] == '+' {
        cs@.skip(1)
    } else {
        cs@
    };
    proof {
        assert(ds =~= cs@.skip(start as int));
    }
    if start >= cs.len() {
        return None;
    }
    let mut v: u64 = 0;
    let mut i: usize = start;
    while i < cs.len()
        invariant
            start <= i <= cs.len(),
            cs@ == s@,
            ds == (if s@.len() > 0 && s@[0] == '+' {
                s@.skip(1)
            } else {
                s@
            }),
            ds == cs@.skip(start as int),
            forall|k: int| 0 <= k < i - start ==> '0' <= #[trigger] ds[k] <= '9',
            v == digits_value(ds.take(i - start)),
            v <= max,
        decreases cs.len() - i,
    {
        let c = cs[i];
        proof {
            assert(ds[i - start] == c);
            assert(ds.take(i - start + 1).drop_last() =~= ds.take(i - start));
        }
        if !('0' <= c && c <= '9') {
            proof {
                assert(!all_digits(ds)) by {
                    assert(ds[i - start] == c);
                }
            }
            return None;
        }
        let d = (c as u32 - '0' as u32) as u64;
        let ghost pre = ds.take(i - start + 1);
        proof {
            assert(pre.drop_last() =~= ds.take(i - start));
            assert(pre.last() == c);
            assert(digits_value(pre) == v * 10 + d);
        }
        if d > max || v > (max - d) / 10 {
            proof {
                assert(digits_value(pre) > max) by (nonlinear_arith)
                    requires
                        digits_value(pre) == v * 10 + d,
                        d > max || v > (max - d) / 10,
                        d <= 9,
                ;
                if all_digits(ds) {
                    lemma_digits_grow(ds, i - start + 1);
                }
            }
            return None;
        }
        v = v * 10 + d;
        i = i + 1;
    }
    proof {
        assert(ds.take(cs.len() - start) =~= ds);
    }
    Some(v)
}

/// The settings the server starts with.
pub struct StartupSettings {
    pub tool_delay_ms: u64,
    pub warmup_enabled: bool,
    pub auto_collapse_prev: bool,
}

/// A stored switch: on unless it holds a number from 0 to 255 that is 0.
pub open spec fn stored_switch(v: Option<Seq<char>>) -> bool {
    match v {
        Some(t) => match parsed_unsigned(t, 255) {
            Some(n) => n != 0,
            None => true,
        },
        None => true,
    }
}

fn switch_value(v: Option<&str>) -> (b: bool)
    ensures
        b == stored_switch(match v {
            Some(t) => Some(t@),
            None => None,
        }),
{
    match v {
        Some(t) => match parse_unsigned(t, 255) {
            Some(n) => n != 0,
            None => true,
        },
        None => true,
    }
}

/// The settings the server starts with, from what is stored: the tool delay when it reads
/// as a `u64` (else 0), and the two switches (see `stored_switch`).
pub fn startup_settings(delay: Option<&str>, warmup: Option<&str>, collapse: Option<&str>) -> (r:
    StartupSettings)
    ensures
        r.tool_delay_ms == match delay {
            Some(t) => match parsed_unsigned(t@, u64::MAX as nat) {
                Some(n) => n,
                None => 0,
            },
            None => 0,
        },
        r.warmup_enabled == stored_switch(
            match warmup {
                Some(t) => Some(t@),
                None => None,
            },
        ),
        r.auto_collapse_prev == stored_switch(
            match collapse {
                Some(t) => Some(t@),
                None => None,
            },
        ),
{
    let tool_delay_ms = match delay {
        Some(t) => match parse_unsigned(t, u64::MAX) {
            Some(n) => n,
            None => 0,
        },
        None => 0,
    };
    StartupSettings {
        tool_delay_ms,
        warmup_enabled: switch_value(warmup),
        auto_collapse_prev: switch_value(collapse),
    }
}

} // verus!

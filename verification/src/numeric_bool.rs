//! Lenient parsing of boolean-ish config values: legacy files write
//! booleans as numbers, sometimes with trailing junk, and sometimes as
//! words starting with `t` or `f`.

use crate::text::{ascii_lower, dec_val, is_digit, parse_u64_digits};
use vstd::prelude::*;

verus! {

/// A boolean read leniently from a numeric-ish string.
#[derive(Debug, Clone, Copy, PartialEq, Eq, Structural, Default)]
pub struct LooseNumericBool(pub bool);

/// The whitespace characters stripped before parsing.
pub open spec fn is_uni_space(c: char) -> bool {
    ||| c == ' '
    ||| c == '\t'
    ||| c == '\n'
    ||| c == '\u{b}'
    ||| c == '\u{c}'
    ||| c == '\r'
    ||| c == '\u{85}'
    ||| c == '\u{a0}'
    ||| c == '\u{1680}'
    ||| ('\u{2000}' <= c && c <= '\u{200a}')
    ||| c == '\u{2028}'
    ||| c == '\u{2029}'
    ||| c == '\u{202f}'
    ||| c == '\u{205f}'
    ||| c == '\u{3000}'
}

/// The input with its whitespace removed.
pub open spec fn strip_ws(s: Seq<char>) -> Seq<char>
    decreases s.len(),
{
    if s.len() == 0 {
        Seq::empty()
    } else if is_uni_space(s.last()) {
        strip_ws(s.drop_last())
    } else {
        strip_ws(s.drop_last()).push(s.last())
    }
}

/// Whether a token parses as a signed 64-bit integer the way the
/// standard parser reads one: an optional sign, then digits, in range.
pub open spec fn full_i64_ok(t: Seq<char>) -> bool {
    if t.len() == 0 {
        false
    } else if t[0] == '-' {
        t.len() >= 2 && (forall|k: int| 1 <= k < t.len() ==> is_digit(t[k])) && dec_val(
            t.skip(1),
        ) <= 0x8000000000000000
    } else if t[0] == '+' {
        t.len() >= 2 && (forall|k: int| 1 <= k < t.len() ==> is_digit(t[k])) && dec_val(
            t.skip(1),
        ) <= i64::MAX
    } else {
        (forall|k: int| 0 <= k < t.len() ==> is_digit(t[k])) && dec_val(t) <= i64::MAX
    }
}

pub open spec fn full_i64_val(t: Seq<char>) -> int {
    if t.len() > 0 && t[0] == '-' {
        -(dec_val(t.skip(1)) as int)
    } else if t.len() > 0 && t[0] == '+' {
        dec_val(t.skip(1)) as int
    } else {
        dec_val(t) as int
    }
}

/// Ever-shorter prefixes of the stripped input are tried until one
/// parses as an integer; its truth is whether it is nonzero.
pub open spec fn loose_tail(t: Seq<char>) -> Option<bool>
    decreases t.len(),
{
    if t.len() == 0 {
        None
    } else if full_i64_ok(t) {
        Some(full_i64_val(t) != 0)
    } else {
        loose_tail(t.drop_last())
    }
}

/// What lenient boolean parsing yields: after stripping whitespace, a
/// token starting with `t` or `f` (in either case) decides directly;
/// otherwise the longest prefix that parses as an integer decides by
/// being nonzero; and nothing parseable yields nothing.
pub open spec fn loose_bool_of(s: Seq<char>) -> Option<bool> {
    let t = strip_ws(s);
    if t.len() > 0 && ascii_lower(t[0]) == 't' {
        Some(true)
    } else if t.len() > 0 && ascii_lower(t[0]) == 'f' {
        Some(false)
    } else {
        loose_tail(t)
    }
}

fn uni_space_char(c: char) -> (r: bool)
    ensures
        r == is_uni_space(c),
{
    c == ' ' || c == '\t' || c == '\n' || c == '\u{b}' || c == '\u{c}' || c == '\r' || c
        == '\u{85}' || c == '\u{a0}' || c == '\u{1680}' || ('\u{2000}' <= c && c <= '\u{200a}')
        || c == '\u{2028}' || c == '\u{2029}' || c == '\u{202f}' || c == '\u{205f}' || c
        == '\u{3000}'
}

/// Parses a whole token as a signed 64-bit integer.
#[verifier::loop_isolation(false)]
fn parse_full_i64(t: &Vec<char>) -> (r: Option<i64>)
    ensures
        match r {
            Some(v) => full_i64_ok(t@) && v as int == full_i64_val(t@),
            None => !full_i64_ok(t@),
        },
{
    if t.len() == 0 {
        return None;
    }
    let signed: bool = t[0] == '-' || t[0] == '+';
    let a: usize = if signed {
        1
    } else {
        0
    };
    if t.len() - a == 0 {
        return None;
    }
    let mut k = a;
    while k < t.len()
        invariant
            a <= k <= t@.len(),
            forall|j: int| a <= j < k ==> is_digit(t@[j]),
        decreases t@.len() - k,
    {
        if !('0' <= t[k] && t[k] <= '9') {
            return None;
        }
        k = k + 1;
    }
    proof {
        if a == 1 {
            assert(t@.skip(1) =~= t@.subrange(1, t@.len() as int));
        } else {
            assert(t@ =~= t@.subrange(0, t@.len() as int));
        }
    }
    match parse_u64_digits(t, a, t.len()) {
        None => None,
        Some(v) => {
            if t[0] == '-' {
                if v > 0x8000000000000000 {
                    None
                } else if v == 0x8000000000000000 {
                    Some(i64::MIN)
                } else {
                    Some(-(v as i64))
                }
            } else {
                if v <= 9223372036854775807u64 {
                    Some(v as i64)
                } else {
                    None
                }
            }
        },
    }
}

/// Reads a boolean leniently: whitespace is ignored, a leading `t` or
/// `f` decides directly, and otherwise ever-shorter prefixes are tried
/// until one parses as an integer, whose truth is being nonzero.
#[verifier::loop_isolation(false)]
pub fn parse_loose_numeric_bool(input: &str) -> (r: Option<LooseNumericBool>)
    ensures
        r == match loose_bool_of(input@) {
            Some(b) => Some(LooseNumericBool(b)),
            None => Option::<LooseNumericBool>::None,
        },
{
    let chars = crate::text::chars_vec(input);
    let mut filtered: Vec<char> = Vec::new();
    let mut i: usize = 0;
    while i < chars.len()
        invariant
            i <= chars@.len(),
            filtered@ == strip_ws(chars@.take(i as int)),
        decreases chars@.len() - i,
    {
        let c = chars[i];
        proof {
            assert(chars@.take(i as int + 1).drop_last() =~= chars@.take(i as int));
            assert(chars@.take(i as int + 1).last() == chars@[i as int]);
        }
        if !uni_space_char(c) {
            filtered.push(c);
        }
        i = i + 1;
    }
    proof {
        assert(chars@.take(chars@.len() as int) =~= chars@);
    }
    if filtered.len() > 0 {
        let first = crate::text::lower_char(filtered[0]);
        if first == 't' {
            return Some(LooseNumericBool(true));
        }
        if first == 'f' {
            return Some(LooseNumericBool(false));
        }
    }
    loop
        invariant
            loose_tail(filtered@) == loose_tail(strip_ws(chars@)),
            filtered@.len() <= strip_ws(chars@).len(),
        decreases filtered@.len(),
    {
        if filtered.len() == 0 {
            return None;
        }
        match parse_full_i64(&filtered) {
            Some(v) => {
                return Some(LooseNumericBool(v != 0));
            },
            None => {
                filtered.pop();
            },
        }
    }
}

} // verus!

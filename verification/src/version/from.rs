use vstd::prelude::*;

use crate::version::grammar::{
    all_alpha, all_digits, digit_val, digits_value, is_alpha_char, is_digit_char,
    lemma_digits_value_prefix_le, lemma_digits_value_snoc, spec_from_version, spec_major,
    spec_operator, spec_slot,
};
use crate::version::{Op, Part};

verus! {

/// Whether every character of `t` is an ASCII digit.
fn all_digits_exec(t: &str) -> (r: bool)
    ensures
        r == all_digits(t@),
{
    let n = t.unicode_len();
    let mut i: usize = 0;
    while i < n
        invariant
            0 <= i <= n,
            n == t@.len(),
            forall|k: int| 0 <= k < i ==> is_digit_char(#[trigger] t@[k]),
        decreases n - i,
    {
        let c = t.get_char(i);
        if !('0' <= c && c <= '9') {
            assert(!is_digit_char(t@[i as int]));
            return false;
        }
        i += 1;
    }
    true
}

/// Whether every character of `t` is an ASCII letter.
fn all_alpha_exec(t: &str) -> (r: bool)
    ensures
        r == all_alpha(t@),
{
    let n = t.unicode_len();
    let mut i: usize = 0;
    while i < n
        invariant
            0 <= i <= n,
            n == t@.len(),
            forall|k: int| 0 <= k < i ==> is_alpha_char(#[trigger] t@[k]),
        decreases n - i,
    {
        let c = t.get_char(i);
        if !(('a' <= c && c <= 'z') || ('A' <= c && c <= 'Z')) {
            assert(!is_alpha_char(t@[i as int]));
            return false;
        }
        i += 1;
    }
    true
}

/// The numeric value of a digit string, where it fits in a `u64`.
fn digits_to_u64(t: &str) -> (r: Option<u64>)
    requires
        all_digits(t@),
    ensures
        match r {
            Some(v) => digits_value(t@) <= u64::MAX && v == digits_value(t@),
            None => digits_value(t@) > u64::MAX,
        },
{
    let n = t.unicode_len();
    let mut i: usize = 0;
    let mut acc: u64 = 0;
    while i < n
        invariant
            0 <= i <= n,
            n == t@.len(),
            all_digits(t@),
            acc == digits_value(t@.subrange(0, i as int)),
        decreases n - i,
    {
        let c = t.get_char(i);
        proof {
            assert(is_digit_char(t@[i as int]));
        }
        let d: u64 = (c as u32 as u64) - 48;
        proof {
            assert(d == digit_val(t@[i as int]));
            lemma_digits_value_snoc(t@, i as int);
        }
        let step = match acc.checked_mul(10) {
            Some(m) => m.checked_add(d),
            None => None,
        };
        match step {
            Some(v) => {
                acc = v;
            },
            None => {
                proof {
                    assert(digits_value(t@.subrange(0, i as int + 1)) > u64::MAX);
                    lemma_digits_value_prefix_le(t@, i as int + 1);
                }
                return None;
            },
        }
        i += 1;
    }
    proof {
        assert(t@.subrange(0, n as int) =~= t@);
    }
    Some(acc)
}

/// Map an operator token to its [`Op`]: the empty token means `Exact`, and
/// only the seven listed operator spellings are accepted.
pub fn from_operator(input: &str) -> (r: Option<Op>)
    ensures
        r == spec_operator(input@),
{
    let n = input.unicode_len();
    if n == 0 {
        Some(Op::Exact)
    } else if n == 1 {
        let c = input.get_char(0);
        if c == '<' {
            Some(Op::Less)
        } else if c == '>' {
            Some(Op::Greater)
        } else if c == '=' {
            Some(Op::Exact)
        } else if c == '~' {
            Some(Op::Tilde)
        } else if c == '^' {
            Some(Op::Caret)
        } else {
            None
        }
    } else if n == 2 {
        let c0 = input.get_char(0);
        let c1 = input.get_char(1);
        if c0 == '<' && c1 == '=' {
            Some(Op::LessEq)
        } else if c0 == '>' && c1 == '=' {
            Some(Op::GreaterEq)
        } else {
            None
        }
    } else {
        None
    }
}

/// The value of a minor or patch token, as [`spec_slot`] describes it.
fn slot_value(t: &str) -> (r: Option<Option<Part>>)
    ensures
        r == spec_slot(t@),
{
    let n = t.unicode_len();
    if n == 0 {
        return Some(None);
    }
    if n == 1 && t.get_char(0) == '*' {
        return Some(Some(Part::Wildcard));
    }
    if all_alpha_exec(t) {
        return Some(Some(Part::Wildcard));
    }
    if all_digits_exec(t) {
        match digits_to_u64(t) {
            Some(v) => {
                if v <= 9223372036854775807u64 {
                    Some(Some(Part::Numeric(v)))
                } else {
                    None
                }
            },
            None => None,
        }
    } else {
        None
    }
}

/// Interpret the three raw tokens of a version-number portion: the major
/// token must be a digit string that fits in a `u64`; the minor and patch
/// tokens may each be empty (absent), a wildcard marker, or a digit string
/// that fits in the non-negative half of an `i64`.
pub fn from_version(version: (&str, &str, &str)) -> (r: Option<(u64, Option<Part>, Option<Part>)>)
    ensures
        r == spec_from_version(version.0@, version.1@, version.2@),
{
    let (a, b, c) = version;
    let major = if a.unicode_len() > 0 && all_digits_exec(a) {
        digits_to_u64(a)
    } else {
        None
    };
    match major {
        None => None,
        Some(major) => match slot_value(b) {
            None => None,
            Some(minor) => match slot_value(c) {
                None => None,
                Some(patch) => Some((major, minor, patch)),
            },
        },
    }
}

} // verus!

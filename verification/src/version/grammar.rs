use vstd::prelude::*;

use crate::errors::ParseContext;
use crate::version::{Op, Part, SpecComparator, SpecRequirement};

verus! {

// ---------------------------------------------------------------------------
// Character classes
// ---------------------------------------------------------------------------

/// The Unicode `White_Space` characters.
pub open spec fn is_whitespace_char(c: char) -> bool {
    ||| c == ' '
    ||| ('\u{9}' <= c && c <= '\u{D}')
    ||| c == '\u{85}'
    ||| c == '\u{A0}'
    ||| c == '\u{1680}'
    ||| ('\u{2000}' <= c && c <= '\u{200A}')
    ||| c == '\u{2028}'
    ||| c == '\u{2029}'
    ||| c == '\u{202F}'
    ||| c == '\u{205F}'
    ||| c == '\u{3000}'
}

/// The characters an operator token is drawn from.
pub open spec fn is_op_char(c: char) -> bool {
    c == '<' || c == '>' || c == '=' || c == '~' || c == '^'
}

pub open spec fn is_digit_char(c: char) -> bool {
    '0' <= c && c <= '9'
}

pub open spec fn is_alpha_char(c: char) -> bool {
    ('a' <= c && c <= 'z') || ('A' <= c && c <= 'Z')
}

pub open spec fn is_alnum_char(c: char) -> bool {
    is_digit_char(c) || is_alpha_char(c)
}

/// The characters a prerelease identifier segment is drawn from.
pub open spec fn is_ident_char(c: char) -> bool {
    is_alnum_char(c) || c == '-'
}

pub open spec fn digit_val(c: char) -> nat {
    (c as int - '0' as int) as nat
}

// ---------------------------------------------------------------------------
// Character runs
// ---------------------------------------------------------------------------

/// The first position at or after `i` that does not hold whitespace.
pub open spec fn skip_ws(s: Seq<char>, i: int) -> int
    decreases s.len() - i when 0 <= i <= s.len()
{
    if i < s.len() && is_whitespace_char(s[i]) {
        skip_ws(s, i + 1)
    } else {
        i
    }
}

/// The end of the run of ASCII alphanumeric characters starting at `i`.
pub open spec fn alnum_end(s: Seq<char>, i: int) -> int
    decreases s.len() - i when 0 <= i <= s.len()
{
    if i < s.len() && is_alnum_char(s[i]) {
        alnum_end(s, i + 1)
    } else {
        i
    }
}

/// The end of the run of ASCII digits starting at `i`.
pub open spec fn digit_end(s: Seq<char>, i: int) -> int
    decreases s.len() - i when 0 <= i <= s.len()
{
    if i < s.len() && is_digit_char(s[i]) {
        digit_end(s, i + 1)
    } else {
        i
    }
}

/// The end of the run of non-whitespace characters starting at `i`.
pub open spec fn non_ws_end(s: Seq<char>, i: int) -> int
    decreases s.len() - i when 0 <= i <= s.len()
{
    if i < s.len() && !is_whitespace_char(s[i]) {
        non_ws_end(s, i + 1)
    } else {
        i
    }
}

/// The end of the run of `-` characters starting at `i`.
pub open spec fn dash_end(s: Seq<char>, i: int) -> int
    decreases s.len() - i when 0 <= i <= s.len()
{
    if i < s.len() && s[i] == '-' {
        dash_end(s, i + 1)
    } else {
        i
    }
}

/// The end of the run of prerelease identifier characters starting at `i`.
pub open spec fn ident_end(s: Seq<char>, i: int) -> int
    decreases s.len() - i when 0 <= i <= s.len()
{
    if i < s.len() && is_ident_char(s[i]) {
        ident_end(s, i + 1)
    } else {
        i
    }
}

pub proof fn lemma_skip_ws_bounds(s: Seq<char>, i: int)
    requires
        0 <= i <= s.len(),
    ensures
        i <= skip_ws(s, i) <= s.len(),
    decreases s.len() - i,
{
    if i < s.len() && is_whitespace_char(s[i]) {
        lemma_skip_ws_bounds(s, i + 1);
    }
}

pub proof fn lemma_alnum_end_bounds(s: Seq<char>, i: int)
    requires
        0 <= i <= s.len(),
    ensures
        i <= alnum_end(s, i) <= s.len(),
    decreases s.len() - i,
{
    if i < s.len() && is_alnum_char(s[i]) {
        lemma_alnum_end_bounds(s, i + 1);
    }
}

pub proof fn lemma_digit_end_bounds(s: Seq<char>, i: int)
    requires
        0 <= i <= s.len(),
    ensures
        i <= digit_end(s, i) <= s.len(),
    decreases s.len() - i,
{
    if i < s.len() && is_digit_char(s[i]) {
        lemma_digit_end_bounds(s, i + 1);
    }
}

pub proof fn lemma_non_ws_end_bounds(s: Seq<char>, i: int)
    requires
        0 <= i <= s.len(),
    ensures
        i <= non_ws_end(s, i) <= s.len(),
    decreases s.len() - i,
{
    if i < s.len() && !is_whitespace_char(s[i]) {
        lemma_non_ws_end_bounds(s, i + 1);
    }
}

pub proof fn lemma_dash_end_bounds(s: Seq<char>, i: int)
    requires
        0 <= i <= s.len(),
    ensures
        i <= dash_end(s, i) <= s.len(),
    decreases s.len() - i,
{
    if i < s.len() && s[i] == '-' {
        lemma_dash_end_bounds(s, i + 1);
    }
}

pub proof fn lemma_ident_end_bounds(s: Seq<char>, i: int)
    requires
        0 <= i <= s.len(),
    ensures
        i <= ident_end(s, i) <= s.len(),
    decreases s.len() - i,
{
    if i < s.len() && is_ident_char(s[i]) {
        lemma_ident_end_bounds(s, i + 1);
    }
}

// ---------------------------------------------------------------------------
// Tokens
// ---------------------------------------------------------------------------

pub open spec fn all_digits(t: Seq<char>) -> bool {
    forall|k: int| 0 <= k < t.len() ==> is_digit_char(#[trigger] t[k])
}

pub open spec fn all_alpha(t: Seq<char>) -> bool {
    forall|k: int| 0 <= k < t.len() ==> is_alpha_char(#[trigger] t[k])
}

/// The numeric value of a digit string, most significant digit first.
pub open spec fn digits_value(t: Seq<char>) -> nat
    decreases t.len(),
{
    if t.len() == 0 {
        0
    } else {
        digits_value(t.drop_last()) * 10 + digit_val(t.last())
    }
}

pub proof fn lemma_digits_value_snoc(t: Seq<char>, k: int)
    requires
        0 <= k < t.len(),
    ensures
        digits_value(t.subrange(0, k + 1)) == digits_value(t.subrange(0, k)) * 10 + digit_val(
            t[k],
        ),
{
    assert(t.subrange(0, k + 1).drop_last() =~= t.subrange(0, k));
    assert(t.subrange(0, k + 1).last() == t[k]);
}

pub proof fn lemma_digits_value_prefix_le(t: Seq<char>, k: int)
    requires
        0 <= k <= t.len(),
    ensures
        digits_value(t.subrange(0, k)) <= digits_value(t),
    decreases t.len() - k,
{
    if k == t.len() {
        assert(t.subrange(0, k) =~= t);
    } else {
        lemma_digits_value_snoc(t, k);
        lemma_digits_value_prefix_le(t, k + 1);
        let v = digits_value(t.subrange(0, k));
        assert(v <= v * 10 + digit_val(t[k]));
    }
}

/// The operator a whole operator token denotes, if any: the empty token
/// means `Exact`, and only `<`, `<=`, `>`, `>=`, `=`, `~`, `^` are accepted.
pub open spec fn spec_operator(t: Seq<char>) -> Option<Op> {
    if t.len() == 0 {
        Some(Op::Exact)
    } else if t.len() == 1 {
        if t[0] == '<' {
            Some(Op::Less)
        } else if t[0] == '>' {
            Some(Op::Greater)
        } else if t[0] == '=' {
            Some(Op::Exact)
        } else if t[0] == '~' {
            Some(Op::Tilde)
        } else if t[0] == '^' {
            Some(Op::Caret)
        } else {
            None
        }
    } else if t.len() == 2 {
        if t[0] == '<' && t[1] == '=' {
            Some(Op::LessEq)
        } else if t[0] == '>' && t[1] == '=' {
            Some(Op::GreaterEq)
        } else {
            None
        }
    } else {
        None
    }
}

/// The value of a major token: a non-empty digit string whose value fits in
/// a `u64`.
pub open spec fn spec_major(t: Seq<char>) -> Option<u64> {
    if t.len() > 0 && all_digits(t) && digits_value(t) <= u64::MAX {
        Some(digits_value(t) as u64)
    } else {
        None
    }
}

/// The value of a minor or patch token: absent when the token is empty, a
/// wildcard when the token is `*` or purely alphabetic, else a digit string
/// whose value fits in the non-negative half of an `i64`.
pub open spec fn spec_slot(t: Seq<char>) -> Option<Option<Part>> {
    if t.len() == 0 {
        Some(None)
    } else if (t.len() == 1 && t[0] == '*') || all_alpha(t) {
        Some(Some(Part::Wildcard))
    } else if all_digits(t) && digits_value(t) <= i64::MAX as u64 {
        Some(Some(Part::Numeric(digits_value(t) as u64)))
    } else {
        None
    }
}

/// The value of a whole `(major, minor, patch)` token triple.
pub open spec fn spec_from_version(a: Seq<char>, b: Seq<char>, c: Seq<char>) -> Option<
    (u64, Option<Part>, Option<Part>),
> {
    match spec_major(a) {
        None => None,
        Some(major) => match spec_slot(b) {
            None => None,
            Some(minor) => match spec_slot(c) {
                None => None,
                Some(patch) => Some((major, minor, patch)),
            },
        },
    }
}

// ---------------------------------------------------------------------------
// Prerelease validity
// ---------------------------------------------------------------------------

/// Validity of the prerelease text from position `i` on: dot-separated,
/// non-empty segments of ASCII alphanumerics and hyphens, where a purely
/// numeric segment of more than one digit must not start with `0`.
pub open spec fn pre_segments_ok(t: Seq<char>, i: int) -> bool
    decreases t.len() - i when 0 <= i <= t.len() via pre_segments_ok_decreases
{
    let e = ident_end(t, i);
    &&& e > i
    &&& !(e - i > 1 && all_digits(t.subrange(i, e)) && t[i] == '0')
    &&& (e == t.len() || (t[e] == '.' && pre_segments_ok(t, e + 1)))
}

#[via_fn]
proof fn pre_segments_ok_decreases(t: Seq<char>, i: int) {
    lemma_ident_end_bounds(t, i);
}

/// A valid prerelease string is non-empty and made of valid segments.
pub open spec fn valid_pre(t: Seq<char>) -> bool {
    t.len() > 0 && pre_segments_ok(t, 0)
}

/// An absent prerelease is the empty string; a present one must be valid.
pub open spec fn pre_ok(t: Seq<char>) -> bool {
    t.len() == 0 || valid_pre(t)
}

// ---------------------------------------------------------------------------
// Comparator grammar
// ---------------------------------------------------------------------------

/// The end of the operator token at `i`: up to two operator characters,
/// taken greedily.
pub open spec fn op_end(s: Seq<char>, i: int) -> int {
    if i < s.len() && is_op_char(s[i]) {
        if i + 1 < s.len() && is_op_char(s[i + 1]) {
            i + 2
        } else {
            i + 1
        }
    } else {
        i
    }
}

/// The end of a version-number token at `i`: a lone `*`, or a non-empty run
/// of ASCII alphanumerics.
pub open spec fn token_end(s: Seq<char>, i: int) -> Option<int> {
    if i < s.len() && s[i] == '*' {
        Some(i + 1)
    } else {
        let e = alnum_end(s, i);
        if e > i {
            Some(e)
        } else {
            None
        }
    }
}

/// Token boundaries of the `major.minor.patch` shape at `i`, if present.
pub open spec fn shape3(s: Seq<char>, i: int) -> Option<(int, int, int)> {
    match token_end(s, i) {
        None => None,
        Some(j1) => if j1 < s.len() && s[j1] == '.' {
            match token_end(s, j1 + 1) {
                None => None,
                Some(j2) => if j2 < s.len() && s[j2] == '.' {
                    match token_end(s, j2 + 1) {
                        None => None,
                        Some(j3) => Some((j1, j2, j3)),
                    }
                } else {
                    None
                },
            }
        } else {
            None
        },
    }
}

/// Token boundaries of the `major.minor` shape at `i`, if present.
pub open spec fn shape2(s: Seq<char>, i: int) -> Option<(int, int)> {
    match token_end(s, i) {
        None => None,
        Some(j1) => if j1 < s.len() && s[j1] == '.' {
            match token_end(s, j1 + 1) {
                None => None,
                Some(j2) => Some((j1, j2)),
            }
        } else {
            None
        },
    }
}

/// The version-number portion at `i`: the first of the three token shapes
/// whose tokens are present decides, and its token values must then be
/// acceptable — a shape that is present with unacceptable values is a
/// failure, not a fallthrough.
pub open spec fn spec_parse_version(s: Seq<char>, i: int) -> Option<
    ((u64, Option<Part>, Option<Part>), int),
> {
    match shape3(s, i) {
        Some((j1, j2, j3)) => match spec_from_version(
            s.subrange(i, j1),
            s.subrange(j1 + 1, j2),
            s.subrange(j2 + 1, j3),
        ) {
            Some(v) => Some((v, j3)),
            None => None,
        },
        None => match shape2(s, i) {
            Some((j1, j2)) => match spec_from_version(
                s.subrange(i, j1),
                s.subrange(j1 + 1, j2),
                Seq::empty(),
            ) {
                Some(v) => Some((v, j2)),
                None => None,
            },
            None => {
                let d = digit_end(s, i);
                if d > i {
                    match spec_from_version(s.subrange(i, d), Seq::empty(), Seq::empty()) {
                        Some(v) => Some((v, d)),
                        None => None,
                    }
                } else {
                    None
                }
            },
        },
    }
}

/// The prerelease portion at `i`: introduced by `-` (all leading dashes are
/// stripped), running to the next whitespace, stored verbatim; an empty
/// remainder is an absent prerelease, and an invalid one is an error.
pub open spec fn spec_parse_pre(s: Seq<char>, i: int) -> Result<(Seq<char>, int), ()> {
    if i < s.len() && s[i] == '-' {
        let k = dash_end(s, i);
        let e = non_ws_end(s, k);
        let pre = s.subrange(k, e);
        if pre.len() == 0 {
            Ok((pre, e))
        } else if valid_pre(pre) {
            Ok((pre, e))
        } else {
            Err(())
        }
    } else {
        Ok((Seq::empty(), i))
    }
}

/// Assemble a comparator from its parsed pieces: a wildcard in the minor or
/// patch slot forces the operator to `Wildcard` and leaves that slot absent.
pub open spec fn combine_comparator(
    op0: Op,
    v: (u64, Option<Part>, Option<Part>),
    pre: Seq<char>,
) -> SpecComparator {
    let wild = v.1 == Some(Part::Wildcard) || v.2 == Some(Part::Wildcard);
    SpecComparator {
        op: if wild {
            Op::Wildcard
        } else {
            op0
        },
        major: v.0,
        minor: match v.1 {
            Some(Part::Numeric(n)) => Some(n),
            _ => None,
        },
        patch: match v.2 {
            Some(Part::Numeric(n)) => Some(n),
            _ => None,
        },
        pre,
    }
}

/// One comparator at `i`: operator token, whitespace, version portion,
/// whitespace, prerelease portion. On failure, says which sub-grammar
/// stopped it.
pub open spec fn spec_parse_comparator(s: Seq<char>, i: int) -> Result<
    (SpecComparator, int),
    ParseContext,
> {
    let j = op_end(s, i);
    match spec_operator(s.subrange(i, j)) {
        None => Err(ParseContext::RangeOperator),
        Some(op0) => {
            let k = skip_ws(s, j);
            match spec_parse_version(s, k) {
                None => Err(ParseContext::VersionNumber),
                Some((v, m)) => {
                    let p = skip_ws(s, m);
                    match spec_parse_pre(s, p) {
                        Err(_) => Err(ParseContext::Prerelease),
                        Ok((pre, q)) => Ok((combine_comparator(op0, v, pre), q)),
                    }
                },
            }
        },
    }
}

// ---------------------------------------------------------------------------
// Requirement grammar
// ---------------------------------------------------------------------------

pub proof fn lemma_token_end_advances(s: Seq<char>, i: int)
    requires
        0 <= i <= s.len(),
    ensures
        match token_end(s, i) {
            Some(j) => i < j <= s.len(),
            None => true,
        },
{
    lemma_alnum_end_bounds(s, i);
    if i < s.len() && s[i] == '*' {
    } else if alnum_end(s, i) > i {
    }
}

pub proof fn lemma_parse_version_advances(s: Seq<char>, i: int)
    requires
        0 <= i <= s.len(),
    ensures
        match spec_parse_version(s, i) {
            Some((v, j)) => i < j <= s.len(),
            None => true,
        },
{
    lemma_token_end_advances(s, i);
    lemma_digit_end_bounds(s, i);
    match token_end(s, i) {
        Some(j1) => {
            if j1 < s.len() {
                lemma_token_end_advances(s, j1 + 1);
                match token_end(s, j1 + 1) {
                    Some(j2) => {
                        if j2 < s.len() {
                            lemma_token_end_advances(s, j2 + 1);
                        }
                    },
                    None => {},
                }
            }
        },
        None => {},
    }
}

pub proof fn lemma_parse_pre_advances(s: Seq<char>, i: int)
    requires
        0 <= i <= s.len(),
    ensures
        match spec_parse_pre(s, i) {
            Ok((pre, j)) => i <= j <= s.len(),
            Err(_) => true,
        },
{
    if i < s.len() && s[i] == '-' {
        lemma_dash_end_bounds(s, i);
        lemma_non_ws_end_bounds(s, dash_end(s, i));
    }
}

pub proof fn lemma_op_end_bounds(s: Seq<char>, i: int)
    requires
        0 <= i <= s.len(),
    ensures
        i <= op_end(s, i) <= s.len(),
{
}

pub proof fn lemma_parse_comparator_advances(s: Seq<char>, i: int)
    requires
        0 <= i <= s.len(),
    ensures
        match spec_parse_comparator(s, i) {
            Ok((c, j)) => i < j <= s.len(),
            Err(_) => true,
        },
{
    lemma_op_end_bounds(s, i);
    let j = op_end(s, i);
    lemma_skip_ws_bounds(s, j);
    let k = skip_ws(s, j);
    lemma_parse_version_advances(s, k);
    match spec_parse_version(s, k) {
        Some((v, m)) => {
            lemma_skip_ws_bounds(s, m);
            let p = skip_ws(s, m);
            lemma_parse_pre_advances(s, p);
        },
        None => {},
    }
}

/// The token walk of a whole requirement: `||` tokens close the group under
/// construction (which must be non-empty), comparators extend it; the walk
/// stops where neither fits, which must be the end of the input, with a
/// non-empty final group unless nothing at all was read.
pub open spec fn spec_parse_items(
    s: Seq<char>,
    i: int,
    cur: Seq<SpecComparator>,
    groups: Seq<Seq<SpecComparator>>,
) -> Result<Seq<Seq<SpecComparator>>, (int, ParseContext)>
    decreases s.len() - i when 0 <= i <= s.len() via spec_parse_items_decreases
{
    if i + 2 <= s.len() && s[i] == '|' && s[i + 1] == '|' {
        if cur.len() == 0 {
            Err((i, ParseContext::EmptyGroup))
        } else {
            spec_parse_items(s, i + 2, Seq::empty(), groups.push(cur))
        }
    } else {
        match spec_parse_comparator(s, i) {
            Ok((c, j)) => spec_parse_items(s, j, cur.push(c), groups),
            Err(ctx) => {
                if i < s.len() {
                    Err((i, ctx))
                } else if cur.len() > 0 {
                    Ok(groups.push(cur))
                } else if groups.len() > 0 {
                    Err((i, ParseContext::EmptyGroup))
                } else {
                    Ok(groups)
                }
            },
        }
    }
}

#[via_fn]
proof fn spec_parse_items_decreases(
    s: Seq<char>,
    i: int,
    cur: Seq<SpecComparator>,
    groups: Seq<Seq<SpecComparator>>,
) {
    lemma_parse_comparator_advances(s, i);
}

/// The whole grammar. The exact input `*` is the universal requirement;
/// otherwise leading whitespace is skipped and the token walk runs. An
/// error carries the unconsumed remainder and the failing sub-grammar.
pub open spec fn spec_parse(s: Seq<char>) -> Result<SpecRequirement, (Seq<char>, ParseContext)> {
    if s.len() == 1 && s[0] == '*' {
        Ok(SpecRequirement::Universal)
    } else {
        match spec_parse_items(s, skip_ws(s, 0), Seq::empty(), Seq::empty()) {
            Ok(gs) => Ok(SpecRequirement::Groups(gs)),
            Err((i, ctx)) => Err((s.subrange(i, s.len() as int), ctx)),
        }
    }
}

} // verus!

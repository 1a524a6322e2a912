use vstd::prelude::*;

use crate::errors::ParseContext;
use crate::version::from::{from_operator, from_version};
use crate::version::grammar::{
    alnum_end, all_digits, combine_comparator, dash_end, digit_end, ident_end, is_alnum_char,
    is_digit_char, is_ident_char, is_op_char, is_whitespace_char, lemma_alnum_end_bounds,
    non_ws_end, op_end,
    pre_ok, pre_segments_ok, shape2, shape3, skip_ws, spec_parse_comparator, spec_parse_pre,
    spec_parse_version, token_end, valid_pre,
};
use crate::version::{Comparator, Op, Part, SpecComparator};

verus! {

/// Whether `c` is a Unicode whitespace character.
fn is_ws_exec(c: char) -> (r: bool)
    ensures
        r == is_whitespace_char(c),
{
    c == ' ' || ('\u{9}' <= c && c <= '\u{D}') || c == '\u{85}' || c == '\u{A0}' || c == '\u{1680}'
        || ('\u{2000}' <= c && c <= '\u{200A}') || c == '\u{2028}' || c == '\u{2029}'
        || c == '\u{202F}' || c == '\u{205F}' || c == '\u{3000}'
}

/// Skip whitespace from `i` on.
pub(crate) fn exec_skip_ws(s: &str, i: usize, n: usize) -> (r: usize)
    requires
        n == s@.len(),
        i <= n,
    ensures
        r == skip_ws(s@, i as int),
        i <= r <= n,
{
    let mut cur = i;
    while cur < n && is_ws_exec(s.get_char(cur))
        invariant
            i <= cur <= n,
            n == s@.len(),
            skip_ws(s@, i as int) == skip_ws(s@, cur as int),
        decreases n - cur,
    {
        cur += 1;
    }
    cur
}

/// End of the ASCII alphanumeric run from `i` on.
fn exec_alnum_end(s: &str, i: usize, n: usize) -> (r: usize)
    requires
        n == s@.len(),
        i <= n,
    ensures
        r == alnum_end(s@, i as int),
        i <= r <= n,
{
    let mut cur = i;
    while cur < n && is_alnum_exec(s.get_char(cur))
        invariant
            i <= cur <= n,
            n == s@.len(),
            alnum_end(s@, i as int) == alnum_end(s@, cur as int),
        decreases n - cur,
    {
        cur += 1;
    }
    cur
}

/// End of the ASCII digit run from `i` on.
fn exec_digit_end(s: &str, i: usize, n: usize) -> (r: usize)
    requires
        n == s@.len(),
        i <= n,
    ensures
        r == digit_end(s@, i as int),
        i <= r <= n,
{
    let mut cur = i;
    while cur < n && is_digit_exec(s.get_char(cur))
        invariant
            i <= cur <= n,
            n == s@.len(),
            digit_end(s@, i as int) == digit_end(s@, cur as int),
        decreases n - cur,
    {
        cur += 1;
    }
    cur
}

/// End of the non-whitespace run from `i` on.
fn exec_non_ws_end(s: &str, i: usize, n: usize) -> (r: usize)
    requires
        n == s@.len(),
        i <= n,
    ensures
        r == non_ws_end(s@, i as int),
        i <= r <= n,
{
    let mut cur = i;
    while cur < n && !is_ws_exec(s.get_char(cur))
        invariant
            i <= cur <= n,
            n == s@.len(),
            non_ws_end(s@, i as int) == non_ws_end(s@, cur as int),
        decreases n - cur,
    {
        cur += 1;
    }
    cur
}

/// End of the `-` run from `i` on.
fn exec_dash_end(s: &str, i: usize, n: usize) -> (r: usize)
    requires
        n == s@.len(),
        i <= n,
    ensures
        r == dash_end(s@, i as int),
        i <= r <= n,
{
    let mut cur = i;
    while cur < n && s.get_char(cur) == '-'
        invariant
            i <= cur <= n,
            n == s@.len(),
            dash_end(s@, i as int) == dash_end(s@, cur as int),
        decreases n - cur,
    {
        cur += 1;
    }
    cur
}

/// End of the prerelease identifier-character run from `i` on.
fn exec_ident_end(s: &str, i: usize, n: usize) -> (r: usize)
    requires
        n == s@.len(),
        i <= n,
    ensures
        r == ident_end(s@, i as int),
        i <= r <= n,
{
    let mut cur = i;
    while cur < n && is_ident_exec(s.get_char(cur))
        invariant
            i <= cur <= n,
            n == s@.len(),
            ident_end(s@, i as int) == ident_end(s@, cur as int),
        decreases n - cur,
    {
        cur += 1;
    }
    cur
}

/// A version-number token at `i`: a lone `*`, or a non-empty alphanumeric
/// run.
fn exec_token_end(s: &str, i: usize, n: usize) -> (r: Option<usize>)
    requires
        n == s@.len(),
        i <= n,
    ensures
        match r {
            Some(j) => token_end(s@, i as int) == Some(j as int) && i < j <= n,
            None => token_end(s@, i as int) is None,
        },
{
    if i < n && s.get_char(i) == '*' {
        Some(i + 1)
    } else {
        let e = exec_alnum_end(s, i, n);
        if e > i {
            Some(e)
        } else {
            None
        }
    }
}

/// Whether `t` is a valid prerelease string: non-empty, dot-separated,
/// non-empty segments of alphanumerics and hyphens, no purely numeric
/// segment with a leading zero.
pub(crate) fn exec_valid_pre(t: &str) -> (r: bool)
    ensures
        r == valid_pre(t@),
{
    let n = t.unicode_len();
    if n == 0 {
        return false;
    }
    let mut i: usize = 0;
    loop
        invariant
            0 <= i < n,
            n == t@.len(),
            pre_segments_ok(t@, 0) == pre_segments_ok(t@, i as int),
        decreases n - i,
    {
        let e = exec_ident_end(t, i, n);
        if e == i {
            return false;
        }
        if e - i > 1 && t.get_char(i) == '0' {
            let seg = t.substring_char(i, e);
            if all_digits_range(seg) {
                assert(seg@ =~= t@.subrange(i as int, e as int));
                return false;
            }
        }
        if e == n {
            return true;
        }
        if t.get_char(e) != '.' {
            return false;
        }
        if e + 1 == n {
            // A trailing dot: the next segment is empty.
            proof {
                assert(ident_end(t@, n as int) == n);
                assert(!pre_segments_ok(t@, n as int));
            }
            return false;
        }
        i = e + 1;
    }
}

/// Whether every character of `t` is an ASCII digit (over the whole slice).
fn all_digits_range(t: &str) -> (r: bool)
    ensures
        r == all_digits(t@),
{
    let n = t.unicode_len();
    let mut i: usize = 0;
    while i < n
        invariant
            0 <= i <= n,
            n == t@.len(),
            forall|k: int| 0 <= k < i ==> is_digit_char(#[trigger] t@[k]),
        decreases n - i,
    {
        let c = t.get_char(i);
        if !('0' <= c && c <= '9') {
            assert(!is_digit_char(t@[i as int]));
            return false;
        }
        i += 1;
    }
    true
}

/// The prerelease portion at `i`, stored verbatim, with the position after
/// it; fails when a present prerelease is not valid.
fn exec_parse_pre(s: &str, i: usize, n: usize) -> (r: Result<(String, usize), ()>)
    requires
        n == s@.len(),
        i <= n,
    ensures
        match r {
            Ok((pre, j)) => spec_parse_pre(s@, i as int) == Ok::<_, ()>((pre@, j as int)) && i <= j
                <= n,
            Err(_) => spec_parse_pre(s@, i as int) is Err,
        },
{
    if i < n && s.get_char(i) == '-' {
        let k = exec_dash_end(s, i, n);
        let e = exec_non_ws_end(s, k, n);
        let pre = s.substring_char(k, e);
        assert(pre@ =~= s@.subrange(k as int, e as int));
        if e == k {
            Ok((pre.to_owned(), e))
        } else if exec_valid_pre(pre) {
            Ok((pre.to_owned(), e))
        } else {
            Err(())
        }
    } else {
        let pre = s.substring_char(i, i);
        assert(pre@ =~= Seq::<char>::empty());
        Ok((pre.to_owned(), i))
    }
}

/// The version-number portion at `i`: the first present token shape decides,
/// and its token values must be acceptable.
fn exec_parse_version(s: &str, i: usize, n: usize) -> (r: Option<
    ((u64, Option<Part>, Option<Part>), usize),
>)
    requires
        n == s@.len(),
        i <= n,
    ensures
        match r {
            Some((v, j)) => spec_parse_version(s@, i as int) == Some((v, j as int)) && i < j <= n,
            None => spec_parse_version(s@, i as int) is None,
        },
{
    let empty = s.substring_char(i, i);
    assert(empty@ =~= Seq::<char>::empty());
    match exec_token_end(s, i, n) {
        Some(j1) => {
            if j1 < n && s.get_char(j1) == '.' {
                match exec_token_end(s, j1 + 1, n) {
                    Some(j2) => {
                        let t1 = s.substring_char(i, j1);
                        let t2 = s.substring_char(j1 + 1, j2);
                        if j2 < n && s.get_char(j2) == '.' {
                            match exec_token_end(s, j2 + 1, n) {
                                Some(j3) => {
                                    let t3 = s.substring_char(j2 + 1, j3);
                                    match from_version((t1, t2, t3)) {
                                        Some(v) => Some((v, j3)),
                                        None => None,
                                    }
                                },
                                None => match from_version((t1, t2, empty)) {
                                    Some(v) => Some((v, j2)),
                                    None => None,
                                },
                            }
                        } else {
                            match from_version((t1, t2, empty)) {
                                Some(v) => Some((v, j2)),
                                None => None,
                            }
                        }
                    },
                    None => exec_version_major(s, i, n, empty),
                }
            } else {
                exec_version_major(s, i, n, empty)
            }
        },
        None => {
            proof {
                lemma_alnum_end_bounds(s@, i as int);
                if i < s@.len() {
                    assert(s@[i as int] != '*');
                    assert(alnum_end(s@, i as int) == i);
                    if is_alnum_char(s@[i as int]) {
                        lemma_alnum_end_bounds(s@, i as int + 1);
                        assert(alnum_end(s@, i as int) == alnum_end(s@, i as int + 1));
                        assert(false);
                    }
                    assert(!is_digit_char(s@[i as int]));
                }
                assert(digit_end(s@, i as int) == i as int);
            }
            None
        },
    }
}

/// The lone-major shape: a non-empty digit run.
fn exec_version_major(s: &str, i: usize, n: usize, empty: &str) -> (r: Option<
    ((u64, Option<Part>, Option<Part>), usize),
>)
    requires
        n == s@.len(),
        i <= n,
        empty@ == Seq::<char>::empty(),
        shape3(s@, i as int) is None,
        shape2(s@, i as int) is None,
    ensures
        match r {
            Some((v, j)) => spec_parse_version(s@, i as int) == Some((v, j as int)) && i < j <= n,
            None => spec_parse_version(s@, i as int) is None,
        },
{
    let d = exec_digit_end(s, i, n);
    if d > i {
        let t = s.substring_char(i, d);
        match from_version((t, empty, empty)) {
            Some(v) => Some((v, d)),
            None => None,
        }
    } else {
        None
    }
}

/// One comparator at `i`: operator token, whitespace, version portion,
/// whitespace, prerelease portion.
pub(crate) fn exec_parse_comparator(s: &str, i: usize, n: usize) -> (r: Result<
    (Comparator, usize),
    ParseContext,
>)
    requires
        n == s@.len(),
        i <= n,
    ensures
        match r {
            Ok((c, j)) => spec_parse_comparator(s@, i as int) == Ok::<_, ParseContext>((
                c@,
                j as int,
            )) && i < j <= n && pre_ok(c@.pre),
            Err(ctx) => spec_parse_comparator(s@, i as int) == Err::<(SpecComparator, int), _>(ctx),
        },
{
    let j = if i < n && is_op_char_exec(s.get_char(i)) {
        if i + 1 < n && is_op_char_exec(s.get_char(i + 1)) {
            i + 2
        } else {
            i + 1
        }
    } else {
        i
    };
    proof {
        assert(j as int == op_end(s@, i as int));
    }
    let op_tok = s.substring_char(i, j);
    assert(op_tok@ =~= s@.subrange(i as int, j as int));
    match from_operator(op_tok) {
        None => Err(ParseContext::RangeOperator),
        Some(op0) => {
            let k = exec_skip_ws(s, j, n);
            match exec_parse_version(s, k, n) {
                None => Err(ParseContext::VersionNumber),
                Some((v, m)) => {
                    let p = exec_skip_ws(s, m, n);
                    match exec_parse_pre(s, p, n) {
                        Err(_) => Err(ParseContext::Prerelease),
                        Ok((pre, q)) => {
                            let wild = matches!(v.1, Some(Part::Wildcard)) || matches!(
                                v.2,
                                Some(Part::Wildcard),
                            );
                            let c = Comparator {
                                op: if wild {
                                    crate::version::Op::Wildcard
                                } else {
                                    op0
                                },
                                major: v.0,
                                minor: match v.1 {
                                    Some(Part::Numeric(x)) => Some(x),
                                    _ => None,
                                },
                                patch: match v.2 {
                                    Some(Part::Numeric(x)) => Some(x),
                                    _ => None,
                                },
                                pre,
                            };
                            proof {
                                assert(c@ == combine_comparator(op0, v, c.pre@));
                            }
                            Ok((c, q))
                        },
                    }
                },
            }
        },
    }
}

/// Whether `c` is an ASCII alphanumeric character.
fn is_alnum_exec(c: char) -> (r: bool)
    ensures
        r == is_alnum_char(c),
{
    ('0' <= c && c <= '9') || ('a' <= c && c <= 'z') || ('A' <= c && c <= 'Z')
}

/// Whether `c` is an ASCII digit.
fn is_digit_exec(c: char) -> (r: bool)
    ensures
        r == is_digit_char(c),
{
    '0' <= c && c <= '9'
}

/// Whether `c` is a prerelease identifier character.
fn is_ident_exec(c: char) -> (r: bool)
    ensures
        r == is_ident_char(c),
{
    ('0' <= c && c <= '9') || ('a' <= c && c <= 'z') || ('A' <= c && c <= 'Z') || c == '-'
}

/// Whether `c` is an operator character.
fn is_op_char_exec(c: char) -> (r: bool)
    ensures
        r == is_op_char(c),
{
    c == '<' || c == '>' || c == '=' || c == '~' || c == '^'
}

} // verus!

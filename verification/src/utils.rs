use vstd::prelude::*;

use crate::errors::CustomErrors;
use crate::matching::{parse_semver_version, semver_parse, semver_wf, spec_requirement_matches};
use crate::serde::{entries_view, SpecVersion, Version};
use crate::version::{parse, requirement_wf, Requirement, SpecRequirement};

verus! {

/// Whether two strings hold the same characters.
pub fn str_eq(a: &str, b: &str) -> (r: bool)
    ensures
        r == (a@ == b@),
{
    let na = a.unicode_len();
    let nb = b.unicode_len();
    if na != nb {
        return false;
    }
    let mut i: usize = 0;
    while i < na
        invariant
            0 <= i <= na,
            na == a@.len(),
            na == b@.len(),
            forall|k: int| 0 <= k < i ==> a@[k] == b@[k],
        decreases na - i,
    {
        if a.get_char(i) != b.get_char(i) {
            return false;
        }
        i += 1;
    }
    proof {
        assert(a@ =~= b@);
    }
    true
}

/// Whether a catalogue tag satisfies a requirement: it must parse as a
/// semantic version that matches.
pub open spec fn tag_matches(req: SpecRequirement, tag: Seq<char>) -> bool {
    match semver_parse(tag) {
        Some(v) => spec_requirement_matches(req, v),
        None => false,
    }
}

/// The newest-to-oldest scan of the catalogue, from index `i` down, with the
/// best match so far. A version that satisfies the requirement is recorded
/// (overwriting any prior record) and the scan continues; a version that
/// does not, while a match stands recorded, stops the scan at once. A tag
/// that does not parse stops the whole scan with its index as the error.
pub open spec fn spec_scan(
    cat: Seq<(Seq<char>, SpecVersion)>,
    req: SpecRequirement,
    i: int,
    found: Option<int>,
) -> Result<Option<int>, int>
    decreases i + 1 when -1 <= i < cat.len()
{
    if i < 0 {
        Ok(found)
    } else {
        match semver_parse(cat[i].0) {
            None => Err(i),
            Some(v) => {
                if spec_requirement_matches(req, v) {
                    spec_scan(cat, req, i - 1, Some(i))
                } else if found is Some {
                    Ok(found)
                } else {
                    spec_scan(cat, req, i - 1, None)
                }
            },
        }
    }
}

/// What requirement-mode selection yields on a whole catalogue: the index of
/// the selected entry, `None` when nothing matches, or the index of an
/// unparseable tag.
pub open spec fn spec_select(cat: Seq<(Seq<char>, SpecVersion)>, req: SpecRequirement) -> Result<
    Option<int>,
    int,
> {
    spec_scan(cat, req, cat.len() - 1, None)
}

/// The first index at or after `i` whose tag is exactly `tag`.
pub open spec fn lookup_index(
    cat: Seq<(Seq<char>, SpecVersion)>,
    tag: Seq<char>,
    i: int,
) -> Option<int>
    decreases cat.len() - i when 0 <= i <= cat.len()
{
    if i >= cat.len() {
        None
    } else if cat[i].0 == tag {
        Some(i)
    } else {
        lookup_index(cat, tag, i + 1)
    }
}

/// The view of a found-slot.
pub open spec fn opt_index(o: Option<usize>) -> Option<int> {
    match o {
        Some(u) => Some(u as int),
        None => None,
    }
}

/// Select one version out of a catalogue, returning its index.
///
/// With a requirement (`pre` present), the catalogue is scanned from newest
/// to oldest under the contiguous-run rule of [`spec_scan`]; an unparseable
/// tag aborts the scan with a catalogue-parse error, and `None` means no
/// version matched. Without a requirement, the version the `lts` tag names
/// is looked up, and `None` means a missing tag or a dangling target.
#[verifier::loop_isolation(false)]
pub fn find_version(src: &Vec<(String, Version)>, pre: Option<&Requirement>, lts: Option<&String>)
    -> (r: Result<Option<usize>, CustomErrors>)
    requires
        pre matches Some(q) ==> requirement_wf(q@),
    ensures
        (match pre {
            Some(q) => (match r {
                Ok(o) => spec_select(entries_view(src@), q@) == Ok::<Option<int>, int>(
                    opt_index(o),
                ) && (o matches Some(u) ==> u < src@.len()),
                Err(e) => spec_select(entries_view(src@), q@) is Err && e matches
                    CustomErrors::CatalogueParse(_),
            }),
            None => (match lts {
                Some(t) => (match r {
                    Ok(o) => lookup_index(entries_view(src@), t@, 0) == opt_index(o) && (
                    o matches Some(u) ==> u < src@.len()),
                    Err(_) => false,
                }),
                None => r == Ok::<Option<usize>, CustomErrors>(None),
            }),
        }),
{
    let ghost catv = entries_view(src@);
    let n = src.len();
    proof {
        assert(catv.len() == src@.len());
    }
    match pre {
        Some(q) => {
            let mut i: usize = n;
            let mut found: Option<usize> = None;
            while i > 0
                invariant
                    i <= n,
                    n == src@.len(),
                    catv == entries_view(src@),
                    requirement_wf(q@),
                    spec_scan(catv, q@, n as int - 1, None) == spec_scan(
                        catv,
                        q@,
                        i as int - 1,
                        opt_index(found),
                    ),
                    found matches Some(u) ==> u < n,
                decreases i,
            {
                let k = i - 1;
                proof {
                    assert(catv[k as int] == (src@[k as int].0@, src@[k as int].1@));
                }
                match parse_semver_version(src[k].0.as_str()) {
                    Err(m) => {
                        proof {
                            assert(semver_parse(catv[k as int].0) is None);
                            assert(spec_scan(catv, q@, k as int, opt_index(found))
                                == Err::<Option<int>, int>(k as int));
                            assert(spec_select(catv, q@) == spec_scan(
                                catv,
                                q@,
                                n as int - 1,
                                None,
                            ));
                        }
                        return Err(CustomErrors::CatalogueParse(m));
                    },
                    Ok(sv) => {
                        proof {
                            assert(semver_wf(sv@));
                            assert(semver_parse(catv[k as int].0) == Some(sv@));
                        }
                        if crate::matching::requirement_matches(q, &sv) {
                            found = Some(k);
                            i = k;
                        } else if found.is_some() {
                            proof {
                                assert(spec_scan(catv, q@, k as int, opt_index(found))
                                    == Ok::<Option<int>, int>(opt_index(found)));
                            }
                            return Ok(found);
                        } else {
                            i = k;
                        }
                    },
                }
            }
            proof {
                assert(spec_scan(catv, q@, -1, opt_index(found))
                    == Ok::<Option<int>, int>(opt_index(found)));
            }
            Ok(found)
        },
        None => {
            match lts {
                Some(t) => {
                    let mut j: usize = 0;
                    while j < n
                        invariant
                            0 <= j <= n,
                            n == src@.len(),
                            catv == entries_view(src@),
                            lookup_index(catv, t@, 0) == lookup_index(catv, t@, j as int),
                        decreases n - j,
                    {
                        proof {
                            assert(catv[j as int] == (src@[j as int].0@, src@[j as int].1@));
                        }
                        if str_eq(src[j].0.as_str(), t.as_str()) {
                            proof {
                                assert(lookup_index(catv, t@, j as int) == Some(j as int));
                            }
                            return Ok(Some(j));
                        }
                        j += 1;
                    }
                    Ok(None)
                },
                None => Ok(None),
            }
        },
    }
}

/// The scan passes over versions newer than the topmost match without
/// recording anything.
proof fn lemma_scan_skips_nonmatches(
    cat: Seq<(Seq<char>, SpecVersion)>,
    req: SpecRequirement,
    i: int,
    t: int,
)
    requires
        -1 <= t <= i < cat.len(),
        forall|m: int| t < m <= i ==> (#[trigger] semver_parse(cat[m].0)) is Some,
        forall|m: int| t < m <= i ==> !#[trigger] tag_matches(req, cat[m].0),
    ensures
        spec_scan(cat, req, i, None) == spec_scan(cat, req, t, None),
    decreases i - t,
{
    if i > t {
        assert(semver_parse(cat[i].0) is Some);
        assert(!tag_matches(req, cat[i].0));
        lemma_scan_skips_nonmatches(cat, req, i - 1, t);
    }
}

/// Once the scan is inside an unbroken run of matches that reaches down to
/// `j`, whose lower neighbour (if any) does not match, it ends on `j`.
proof fn lemma_scan_run(
    cat: Seq<(Seq<char>, SpecVersion)>,
    req: SpecRequirement,
    i: int,
    j: int,
    f: Option<int>,
)
    requires
        0 <= j <= i < cat.len(),
        forall|m: int| j - 1 <= m <= i && 0 <= m ==> (#[trigger] semver_parse(cat[m].0)) is Some,
        forall|m: int| j <= m <= i ==> #[trigger] tag_matches(req, cat[m].0),
        j == 0 || !tag_matches(req, cat[j - 1].0),
    ensures
        spec_scan(cat, req, i, f) == Ok::<Option<int>, int>(Some(j)),
    decreases i - j,
{
    assert(tag_matches(req, cat[i].0));
    if i == j {
        if j > 0 {
            assert(semver_parse(cat[j - 1].0) is Some);
        }
    } else {
        lemma_scan_run(cat, req, i - 1, j, Some(i));
    }
}

/// Law: selection follows the contiguous-run rule. Where every scanned tag
/// parses, `t` is the newest matching index, and the unbroken run of matches
/// containing `t` reaches down exactly to `j`, selection picks index `j` —
/// even when older versions below a gap would also match.
pub proof fn lemma_selector_contiguous_run(
    cat: Seq<(Seq<char>, SpecVersion)>,
    req: SpecRequirement,
    t: int,
    j: int,
)
    requires
        0 <= j <= t < cat.len(),
        forall|m: int| 0 <= m < cat.len() ==> (#[trigger] semver_parse(cat[m].0)) is Some,
        forall|m: int| t < m < cat.len() ==> !#[trigger] tag_matches(req, cat[m].0),
        forall|m: int| j <= m <= t ==> #[trigger] tag_matches(req, cat[m].0),
        j == 0 || !tag_matches(req, cat[j - 1].0),
    ensures
        spec_select(cat, req) == Ok::<Option<int>, int>(Some(j)),
{
    lemma_scan_skips_nonmatches(cat, req, cat.len() - 1, t);
    lemma_scan_run(cat, req, t, j, None);
}

/// Split a package specifier into its name and an optional requirement.
///
/// The specifier is split on `@`: one part is a bare name (no constraint);
/// two parts are a name and a range, where the range `latest` means no
/// constraint; three parts drop the first and read the rest the same way;
/// more than three parts are an error carrying the specifier.
pub fn split_package_string(package: String) -> (r: Result<
    (String, Option<Requirement>),
    CustomErrors,
>)
    ensures
        split_parts(package@).len() > 3 ==> (r matches Err(e) && (e matches
            CustomErrors::PackageSplit(s) && s@ == package@)),
        split_parts(package@).len() <= 3 ==> {
            let eff = effective_parts(split_parts(package@));
            match r {
                Ok((name, req)) => {
                    &&& name@ == eff[0]
                    &&& (eff.len() == 1 ==> req is None)
                    &&& (eff.len() == 2 ==> (if eff[1] == "latest"@ {
                        req is None
                    } else {
                        &&& crate::version::grammar::spec_parse(eff[1]) matches Ok(v)
                        &&& req matches Some(q) && q@ == v && requirement_wf(q@)
                    }))
                },
                Err(e) => {
                    &&& eff.len() == 2
                    &&& !(eff[1] == "latest"@)
                    &&& crate::version::grammar::spec_parse(eff[1]) is Err
                    &&& e matches CustomErrors::VersionParse { .. }
                },
            }
        },
{
    let n = package.as_str().unicode_len();
    let mut parts: Vec<String> = Vec::new();
    let mut start: usize = 0;
    loop
        invariant_except_break
            0 <= start <= n,
            n == package@.len(),
            parts_view(parts@).add(split_from(package@, start as int)) =~= split_from(
                package@,
                0,
            ),
        ensures
            parts_view(parts@) =~= split_parts(package@),
        decreases n - start,
    {
        let e = exec_at_end(package.as_str(), start, n);
        let piece = package.as_str().substring_char(start, e).to_owned();
        let ghost old_parts = parts@;
        let ghost px = package@.subrange(start as int, e as int);
        parts.push(piece);
        proof {
            assert(parts_view(parts@) =~= parts_view(old_parts).push(px));
        }
        if e == n {
            proof {
                assert(split_from(package@, start as int) =~= seq![px]);
                assert(parts_view(old_parts).push(px) =~= parts_view(old_parts).add(seq![px]));
                assert(parts_view(parts@) =~= split_from(package@, 0));
            }
            break;
        }
        proof {
            assert(split_from(package@, start as int) =~= seq![px].add(
                split_from(package@, e as int + 1),
            ));
            assert(parts_view(parts@).add(split_from(package@, e as int + 1)) =~= split_from(
                package@,
                0,
            ));
        }
        start = e + 1;
    }
    let ghost whole = split_parts(package@);
    let ghost eff = effective_parts(whole);
    proof {
        assert(parts@.len() == whole.len());
    }
    if parts.len() > 3 {
        return Err(CustomErrors::PackageSplit(package));
    }
    if parts.len() == 3 {
        let ghost before = parts@;
        let _ = parts.remove(0);
        proof {
            assert(parts_view(parts@) =~= parts_view(before).drop_first());
            assert(parts_view(parts@) =~= eff);
        }
    } else {
        proof {
            assert(parts_view(parts@) =~= eff);
        }
    }
    proof {
        assert(parts@.len() == eff.len());
        assert(forall|k: int| 0 <= k < parts@.len() ==> #[trigger] parts@[k]@ == eff[k]);
    }
    if parts.len() == 1 {
        let name = parts[0].clone();
        return Ok((name, None));
    }
    let name = parts[0].clone();
    let version_raw = parts[1].clone();
    proof {
        assert(name@ == eff[0]);
        assert(version_raw@ == eff[1]);
    }
    if str_eq(version_raw.as_str(), "latest") {
        return Ok((name, None));
    }
    match parse(version_raw.as_str()) {
        Ok(req) => Ok((name, Some(req))),
        Err(e) => Err(e),
    }
}

/// The views of a sequence of strings.
pub open spec fn parts_view(s: Seq<String>) -> Seq<Seq<char>> {
    s.map_values(|p: String| p@)
}

/// The first position at or after `i` that holds `@`, or the end.
pub open spec fn at_end(s: Seq<char>, i: int) -> int
    decreases s.len() - i when 0 <= i <= s.len()
{
    if i < s.len() && s[i] != '@' {
        at_end(s, i + 1)
    } else {
        i
    }
}

proof fn lemma_at_end_bounds(s: Seq<char>, i: int)
    requires
        0 <= i <= s.len(),
    ensures
        i <= at_end(s, i) <= s.len(),
    decreases s.len() - i,
{
    if i < s.len() && s[i] != '@' {
        lemma_at_end_bounds(s, i + 1);
    }
}

/// The `@`-separated pieces of `s` from position `i` on.
pub open spec fn split_from(s: Seq<char>, i: int) -> Seq<Seq<char>>
    decreases s.len() - i when 0 <= i <= s.len() via split_from_decreases
{
    let e = at_end(s, i);
    if e == s.len() {
        seq![s.subrange(i, e)]
    } else {
        seq![s.subrange(i, e)].add(split_from(s, e + 1))
    }
}

#[via_fn]
proof fn split_from_decreases(s: Seq<char>, i: int) {
    lemma_at_end_bounds(s, i);
}

/// The `@`-separated pieces of the whole of `s`.
pub open spec fn split_parts(s: Seq<char>) -> Seq<Seq<char>> {
    split_from(s, 0)
}

/// Three pieces drop the first (a specifier of the shape `@scope/name@rng`
/// splits so); fewer stand as they are.
pub open spec fn effective_parts(parts: Seq<Seq<char>>) -> Seq<Seq<char>> {
    if parts.len() == 3 {
        parts.drop_first()
    } else {
        parts
    }
}

/// The first position at or after `i` that holds `@`, or the end.
fn exec_at_end(s: &str, i: usize, n: usize) -> (r: usize)
    requires
        n == s@.len(),
        i <= n,
    ensures
        r == at_end(s@, i as int),
        i <= r <= n,
{
    let mut cur = i;
    while cur < n && s.get_char(cur) != '@'
        invariant
            i <= cur <= n,
            n == s@.len(),
            at_end(s@, i as int) == at_end(s@, cur as int),
        decreases n - cur,
    {
        cur += 1;
    }
    cur
}

} // verus!

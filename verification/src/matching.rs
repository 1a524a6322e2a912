use vstd::prelude::*;

use crate::version::grammar::pre_ok;
use crate::version::{
    comparator_wf, group_wf, groups_view, requirement_wf, AndGroup, Comparator, Op, Requirement,
    SpecComparator, SpecRequirement,
};

verus! {

/// The mathematical value of a [`SemVer`].
pub struct SpecSemVer {
    pub major: u64,
    pub minor: u64,
    pub patch: u64,
    pub pre: Seq<char>,
}

/// A parsed semantic version out of a package's catalogue: the three numeric
/// components and the prerelease, which is empty when absent. Build metadata
/// takes no part in matching and is not kept.
#[derive(Debug, Clone, PartialEq, Eq)]
pub struct SemVer {
    pub major: u64,
    pub minor: u64,
    pub patch: u64,
    pub pre: String,
}

impl View for SemVer {
    type V = SpecSemVer;

    open spec fn view(&self) -> SpecSemVer {
        SpecSemVer { major: self.major, minor: self.minor, patch: self.patch, pre: self.pre@ }
    }
}

/// A version is well formed when its prerelease is empty or valid.
pub open spec fn semver_wf(v: SpecSemVer) -> bool {
    pre_ok(v.pre)
}

/// What `semver::VersionReq::matches` returns for a group of comparators and
/// a version: every comparator must hold of the version, and a version with
/// a prerelease additionally needs some comparator with the same numeric
/// components and a non-empty prerelease.
pub uninterp spec fn group_match(g: Seq<SpecComparator>, v: SpecSemVer) -> bool;

/// What `semver::Version::parse` returns: `Some` exactly on well-formed
/// `major.minor.patch[-pre][+build]` text.
pub uninterp spec fn semver_parse(s: Seq<char>) -> Option<SpecSemVer>;

#[verifier::external_type_specification]
#[verifier::external_body]
pub struct ExVersionReq(semver::VersionReq);

/// What a `semver::VersionReq` under construction holds: the values of the
/// comparators pushed into it so far.
pub uninterp spec fn req_comparators(r: semver::VersionReq) -> Seq<SpecComparator>;

/// Relies on `semver::VersionReq`: a requirement with no comparators yet.
#[verifier::external_body]
fn new_version_req() -> (r: semver::VersionReq)
    ensures
        req_comparators(r) == Seq::<SpecComparator>::empty(),
{
    semver::VersionReq { comparators: Vec::new() }
}

/// Relies on `semver::Comparator` and `semver::Prerelease::new`: appends the
/// comparator, carried over field for field (the operator vocabulary is the
/// same). The well-formedness required of the comparator keeps its
/// prerelease empty or valid, so the conversion cannot fail.
#[verifier::external_body]
fn push_comparator(req: &mut semver::VersionReq, c: &Comparator)
    requires
        pre_ok(c@.pre),
    ensures
        req_comparators(*final(req)) == req_comparators(*old(req)).push(c@),
{
    let op = match c.op {
        Op::Exact => semver::Op::Exact,
        Op::Less => semver::Op::Less,
        Op::LessEq => semver::Op::LessEq,
        Op::Greater => semver::Op::Greater,
        Op::GreaterEq => semver::Op::GreaterEq,
        Op::Tilde => semver::Op::Tilde,
        Op::Caret => semver::Op::Caret,
        Op::Wildcard => semver::Op::Wildcard,
    };
    let pre = semver::Prerelease::new(&c.pre).unwrap();
    req.comparators.push(semver::Comparator { op, major: c.major, minor: c.minor, patch: c.patch, pre });
}

/// Relies on `semver::VersionReq::matches`, with the version carried over
/// field for field and empty build metadata: the result is [`group_match`]
/// of the requirement's contents and the version's value. The
/// well-formedness required of the version keeps its prerelease empty or
/// valid, so the conversion cannot fail.
#[verifier::external_body]
fn req_matches(req: &semver::VersionReq, v: &SemVer) -> (r: bool)
    requires
        semver_wf(v@),
    ensures
        r == group_match(req_comparators(*req), v@),
{
    let pre = semver::Prerelease::new(&v.pre).unwrap();
    let ver = semver::Version {
        major: v.major,
        minor: v.minor,
        patch: v.patch,
        pre,
        build: semver::BuildMetadata::EMPTY,
    };
    req.matches(&ver)
}

/// Whether a version satisfies every comparator of the group, under the
/// registry grammar's prerelease rule, as `semver::VersionReq::matches`
/// decides it for the group's comparators.
fn semver_group_matches(g: &AndGroup, v: &SemVer) -> (r: bool)
    requires
        group_wf(g@),
        semver_wf(v@),
    ensures
        r == group_match(g@, v@),
{
    let mut req = new_version_req();
    let n = g.comparators.len();
    let mut i: usize = 0;
    while i < n
        invariant
            0 <= i <= n,
            n == g.comparators@.len(),
            group_wf(g@),
            req_comparators(req) =~= g@.take(i as int),
        decreases n - i,
    {
        proof {
            assert(g@[i as int] == g.comparators@[i as int]@);
            assert(comparator_wf(g@[i as int]));
        }
        push_comparator(&mut req, &g.comparators[i]);
        proof {
            assert(g@.take(i as int + 1) =~= g@.take(i as int).push(g@[i as int]));
        }
        i += 1;
    }
    proof {
        assert(g@.take(n as int) =~= g@);
    }
    req_matches(&req, v)
}

/// Relies on `semver::Version::parse`: the result is a function of the input
/// text alone; a parsed version's prerelease is empty or valid. The error
/// carries the reported message.
#[verifier::external_body]
pub(crate) fn parse_semver_version(s: &str) -> (r: Result<SemVer, String>)
    ensures
        r matches Ok(v) ==> semver_parse(s@) == Some(v@) && pre_ok(v@.pre),
        r matches Err(_) ==> semver_parse(s@) is None,
{
    match semver::Version::parse(s) {
        Ok(v) => Ok(
            SemVer {
                major: v.major,
                minor: v.minor,
                patch: v.patch,
                pre: v.pre.as_str().to_string(),
            },
        ),
        Err(e) => Err(e.to_string()),
    }
}

/// Whether some AND-group of `gs` matches `v`.
pub open spec fn spec_groups_match(gs: Seq<Seq<SpecComparator>>, v: SpecSemVer) -> bool {
    exists|i: int| 0 <= i < gs.len() && group_match(#[trigger] gs[i], v)
}

/// Whether a version satisfies a requirement: the universal requirement is
/// satisfied by every version, and otherwise at least one AND-group must
/// match.
pub open spec fn spec_requirement_matches(r: SpecRequirement, v: SpecSemVer) -> bool {
    match r {
        SpecRequirement::Universal => true,
        SpecRequirement::Groups(gs) => spec_groups_match(gs, v),
    }
}

/// Whether `v` satisfies `r`: true for the universal requirement, else true
/// exactly when some AND-group of `r` matches `v`.
pub fn requirement_matches(r: &Requirement, v: &SemVer) -> (res: bool)
    requires
        requirement_wf(r@),
        semver_wf(v@),
    ensures
        res == spec_requirement_matches(r@, v@),
{
    match r {
        Requirement::Universal => true,
        Requirement::Groups(gs) => {
            let ghost gv = groups_view(gs@);
            let mut i: usize = 0;
            while i < gs.len()
                invariant
                    0 <= i <= gs.len(),
                    gv == groups_view(gs@),
                    r@ == SpecRequirement::Groups(gv),
                    requirement_wf(r@),
                    semver_wf(v@),
                    forall|k: int| 0 <= k < i ==> !group_match(#[trigger] gv[k], v@),
                decreases gs.len() - i,
            {
                proof {
                    assert(gv[i as int] == gs@[i as int]@);
                    assert(requirement_wf(SpecRequirement::Groups(gv)));
                    assert(group_wf(gv[i as int]));
                }
                if semver_group_matches(&gs[i], v) {
                    proof {
                        assert(group_match(gv[i as int], v@));
                        assert(spec_groups_match(gv, v@));
                    }
                    return true;
                }
                i += 1;
            }
            false
        },
    }
}

/// Law: the universal requirement matches every version.
pub proof fn lemma_universal_matches_every_version(v: SpecSemVer)
    ensures
        spec_requirement_matches(SpecRequirement::Universal, v),
{
}

/// Law: a version matches a requirement of two AND-groups exactly when it
/// matches either group.
pub proof fn lemma_two_groups_match_either(
    g1: Seq<SpecComparator>,
    g2: Seq<SpecComparator>,
    v: SpecSemVer,
)
    ensures
        spec_requirement_matches(SpecRequirement::Groups(seq![g1, g2]), v) == (group_match(g1, v)
            || group_match(g2, v)),
{
    let gs = seq![g1, g2];
    assert(gs.len() == 2);
    assert(gs[0] == g1);
    assert(gs[1] == g2);
    if group_match(g1, v) {
        assert(group_match(gs[0], v));
        assert(spec_groups_match(gs, v));
    }
    if group_match(g2, v) {
        assert(group_match(gs[1], v));
        assert(spec_groups_match(gs, v));
    }
    if spec_requirement_matches(SpecRequirement::Groups(gs), v) {
        assert(spec_groups_match(gs, v));
        let i = choose|i: int| 0 <= i < gs.len() && group_match(#[trigger] gs[i], v);
        if i == 0 {
            assert(group_match(g1, v));
        } else {
            assert(gs[i] == g2);
            assert(group_match(g2, v));
        }
        assert(group_match(g1, v) || group_match(g2, v));
    }
}

} // verus!

use vstd::prelude::*;

use crate::errors::{CustomErrors, ParseContext};

pub mod from;
pub mod grammar;
pub mod parse;

verus! {

/// A range operator, the prefix of a comparator.
///
/// A comparator without an operator token means `Exact`; a wildcard token in
/// the minor or patch slot forces `Wildcard` whatever the prefix said.
#[derive(Debug, Clone, Copy, PartialEq, Eq, Structural)]
pub enum Op {
    Exact,
    Less,
    LessEq,
    Greater,
    GreaterEq,
    Tilde,
    Caret,
    Wildcard,
}

/// What a minor or patch slot of a comparator's version portion holds:
/// either a number, or a wildcard marker (`*` or a purely alphabetic
/// placeholder such as `x`).
#[derive(Debug, Clone, Copy, PartialEq, Eq, Structural)]
pub enum Part {
    Numeric(u64),
    Wildcard,
}

/// The mathematical value of a [`Comparator`].
pub struct SpecComparator {
    pub op: Op,
    pub major: u64,
    pub minor: Option<u64>,
    pub patch: Option<u64>,
    pub pre: Seq<char>,
}

/// One operator, a partial version number, and an optional prerelease: the
/// atomic unit of a version constraint.
///
/// `minor` and `patch` are `None` when elided from the input or when the
/// input token for that slot was a wildcard marker (in which case `op` is
/// [`Op::Wildcard`]). An absent prerelease is the empty string.
#[derive(Debug, Clone, PartialEq, Eq)]
pub struct Comparator {
    pub op: Op,
    pub major: u64,
    pub minor: Option<u64>,
    pub patch: Option<u64>,
    pub pre: String,
}

impl View for Comparator {
    type V = SpecComparator;

    open spec fn view(&self) -> SpecComparator {
        SpecComparator {
            op: self.op,
            major: self.major,
            minor: self.minor,
            patch: self.patch,
            pre: self.pre@,
        }
    }
}

/// An ordered, non-empty sequence of comparators, all of which must hold for
/// a version to satisfy the group.
#[derive(Debug, Clone, PartialEq, Eq)]
pub struct AndGroup {
    pub comparators: Vec<Comparator>,
}

impl View for AndGroup {
    type V = Seq<SpecComparator>;

    open spec fn view(&self) -> Seq<SpecComparator> {
        self.comparators@.map_values(|c: Comparator| c@)
    }
}

/// The mathematical value of a [`Requirement`].
pub enum SpecRequirement {
    Universal,
    Groups(Seq<Seq<SpecComparator>>),
}

/// An OR of AND-groups. A version satisfies a requirement if it satisfies at
/// least one group. The literal input `*` is the distinguished universal
/// requirement, which every version satisfies.
#[derive(Debug, Clone, PartialEq, Eq)]
pub enum Requirement {
    Universal,
    Groups(Vec<AndGroup>),
}

impl View for Requirement {
    type V = SpecRequirement;

    open spec fn view(&self) -> SpecRequirement {
        match self {
            Requirement::Universal => SpecRequirement::Universal,
            Requirement::Groups(gs) => SpecRequirement::Groups(
                gs@.map_values(|g: AndGroup| g@),
            ),
        }
    }
}

/// A comparator is well formed when its prerelease is empty or a valid
/// prerelease string.
pub open spec fn comparator_wf(c: SpecComparator) -> bool {
    grammar::pre_ok(c.pre)
}

/// An AND-group is well formed when it is non-empty and all its comparators
/// are well formed.
pub open spec fn group_wf(g: Seq<SpecComparator>) -> bool {
    &&& g.len() > 0
    &&& forall|j: int| 0 <= j < g.len() ==> comparator_wf(#[trigger] g[j])
}

/// A requirement is well formed when all its groups are.
pub open spec fn requirement_wf(r: SpecRequirement) -> bool {
    match r {
        SpecRequirement::Universal => true,
        SpecRequirement::Groups(gs) => forall|i: int|
            0 <= i < gs.len() ==> group_wf(#[trigger] gs[i]),
    }
}

/// The views of a sequence of comparators.
pub open spec fn comps_view(cs: Seq<Comparator>) -> Seq<SpecComparator> {
    cs.map_values(|c: Comparator| c@)
}

/// The views of a sequence of AND-groups.
pub open spec fn groups_view(gs: Seq<AndGroup>) -> Seq<Seq<SpecComparator>> {
    gs.map_values(|g: AndGroup| g@)
}

/// Parse a raw version-range string into a [`Requirement`].
///
/// The grammar is [`grammar::spec_parse`]: the exact input `*` is the
/// universal requirement; otherwise the input is a sequence of comparators
/// and `||` separators, where `||` closes the AND-group under construction
/// and consecutive comparators are ANDed. The whole input must be consumed.
/// On failure the error carries the unconsumed remainder and the sub-grammar
/// that failed; a `||` next to an empty group is reported as an empty-group
/// error.
pub fn parse(input: &str) -> (r: Result<Requirement, CustomErrors>)
    ensures
        (r is Ok) == (grammar::spec_parse(input@) is Ok),
        r matches Ok(req) ==> {
            &&& grammar::spec_parse(input@) matches Ok(v) && req@ == v
            &&& requirement_wf(req@)
        },
        r matches Err(e) ==> {
            &&& grammar::spec_parse(input@) matches Err((rem, ctx))
                && (e matches CustomErrors::VersionParse { remainder, context } && remainder@
                == rem && context == ctx)
        },
{
    let n = input.unicode_len();
    if n == 1 && input.get_char(0) == '*' {
        return Ok(Requirement::Universal);
    }
    let mut i = parse::exec_skip_ws(input, 0, n);
    let ghost i0 = i as int;
    let mut cur: Vec<Comparator> = Vec::new();
    let mut groups: Vec<AndGroup> = Vec::new();
    proof {
        assert(comps_view(cur@) =~= Seq::<SpecComparator>::empty());
        assert(groups_view(groups@) =~= Seq::<Seq<SpecComparator>>::empty());
    }
    loop
        invariant
            i <= n,
            n == input@.len(),
            !(input@.len() == 1 && input@[0] == '*'),
            grammar::spec_parse_items(input@, i0, Seq::empty(), Seq::empty())
                == grammar::spec_parse_items(
                input@,
                i as int,
                comps_view(cur@),
                groups_view(groups@),
            ),
            i0 == grammar::skip_ws(input@, 0),
            forall|k: int| 0 <= k < cur@.len() ==> comparator_wf(#[trigger] comps_view(cur@)[k]),
            forall|k: int|
                0 <= k < groups@.len() ==> group_wf(#[trigger] groups_view(groups@)[k]),
        decreases n - i,
    {
        if i < n && i + 1 < n && input.get_char(i) == '|' && input.get_char(i + 1) == '|' {
            if cur.len() == 0 {
                let remainder = input.substring_char(i, n).to_owned();
                return Err(
                    CustomErrors::VersionParse { remainder, context: ParseContext::EmptyGroup },
                );
            }
            let ghost old_groups = groups@;
            let ghost old_cur = cur@;
            groups.push(AndGroup { comparators: cur });
            cur = Vec::new();
            i = i + 2;
            proof {
                assert(groups_view(groups@) =~= groups_view(old_groups).push(
                    comps_view(old_cur),
                ));
                assert(comps_view(cur@) =~= Seq::<SpecComparator>::empty());
            }
        } else {
            match parse::exec_parse_comparator(input, i, n) {
                Ok((c, j)) => {
                    let ghost old_cur = cur@;
                    let ghost cv = c@;
                    cur.push(c);
                    i = j;
                    proof {
                        assert(comps_view(cur@) =~= comps_view(old_cur).push(cv));
                    }
                },
                Err(ctx) => {
                    if i < n {
                        let remainder = input.substring_char(i, n).to_owned();
                        return Err(CustomErrors::VersionParse { remainder, context: ctx });
                    } else if cur.len() > 0 {
                        let ghost old_groups = groups@;
                        let ghost old_cur = cur@;
                        groups.push(AndGroup { comparators: cur });
                        proof {
                            assert(groups_view(groups@) =~= groups_view(old_groups).push(
                                comps_view(old_cur),
                            ));
                        }
                        return Ok(Requirement::Groups(groups));
                    } else if groups.len() > 0 {
                        let remainder = input.substring_char(n, n).to_owned();
                        return Err(
                            CustomErrors::VersionParse {
                                remainder,
                                context: ParseContext::EmptyGroup,
                            },
                        );
                    } else {
                        return Ok(Requirement::Groups(groups));
                    }
                },
            }
        }
    }
}

} // verus!

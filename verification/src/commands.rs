use vstd::prelude::*;

use crate::errors::CustomErrors;
use crate::registry::{task_wf, Task};
use crate::serde::{pairs_view, PackageJson, SpecPackageJson};
use crate::utils::str_eq;
use crate::version::grammar::spec_parse;

verus! {

/// The dependency pairs of a manifest that the inclusion flags select, in
/// declaration order: regular dependencies always, the other kinds only
/// when their flag is set.
pub open spec fn included_pairs(p: SpecPackageJson, dev: bool, peer: bool, optional: bool) -> Seq<
    (Seq<char>, Seq<char>),
> {
    p.dependencies.add(
        (if dev {
            p.dev_dependencies
        } else {
            Seq::empty()
        }).add(
            (if peer {
                p.peer_dependencies
            } else {
                Seq::empty()
            }).add(
                (if optional {
                    p.optional_dependencies
                } else {
                    Seq::empty()
                }),
            ),
        ),
    )
}

/// What the root task for one manifest pair must hold: the pair's name, the
/// caller's flags, and the pair's requirement — where the raw string
/// `latest` means no constraint.
pub open spec fn target_for_pair(
    t: crate::registry::SpecTask,
    pair: (Seq<char>, Seq<char>),
    dev: bool,
    peer: bool,
    optional: bool,
    dispatch: bool,
) -> bool {
    &&& t.name == pair.0
    &&& t.dev == dev
    &&& t.peer == peer
    &&& t.optional == optional
    &&& t.dispatch == dispatch
    &&& (if pair.1 == "latest"@ {
        t.req is None
    } else {
        spec_parse(pair.1) matches Ok(v) && t.req == Some(v)
    })
}

/// Whether some selected pair's raw requirement is neither `latest` nor a
/// parseable range.
pub open spec fn some_pair_fails(pairs: Seq<(Seq<char>, Seq<char>)>) -> bool {
    exists|k: int|
        0 <= k < pairs.len() && (#[trigger] pairs[k]).1 != "latest"@ && spec_parse(pairs[k].1)
            is Err
}

/// Append clones of every pair of `m`.
fn append_pairs(out: &mut Vec<(String, String)>, m: &Vec<(String, String)>)
    ensures
        pairs_view(final(out)@) =~= pairs_view(old(out)@).add(pairs_view(m@)),
{
    let ghost o0 = pairs_view(old(out)@);
    let ghost mv = pairs_view(m@);
    let len = m.len();
    let mut j: usize = 0;
    while j < len
        invariant
            0 <= j <= len,
            len == m@.len(),
            mv == pairs_view(m@),
            pairs_view(out@) =~= o0.add(mv.take(j as int)),
        decreases len - j,
    {
        let ghost before = pairs_view(out@);
        proof {
            assert(mv[j as int] == (m@[j as int].0@, m@[j as int].1@));
        }
        out.push((m[j].0.clone(), m[j].1.clone()));
        proof {
            assert(pairs_view(out@) =~= before.push(mv[j as int]));
            assert(mv.take(j as int + 1) =~= mv.take(j as int).push(mv[j as int]));
            assert(pairs_view(out@) =~= o0.add(mv.take(j as int + 1)));
        }
        j += 1;
    }
    proof {
        assert(mv.take(len as int) =~= mv);
    }
}

/// The root tasks a local manifest asks for: one per dependency pair the
/// flags select, each carrying the flags themselves. A raw requirement
/// `latest` means no constraint; any other raw requirement must parse, and
/// the first that does not fail the whole call with its range-syntax error.
#[verifier::loop_isolation(false)]
pub fn targets_from_manifest(
    pkg: &PackageJson,
    dev: bool,
    peer: bool,
    optional: bool,
    dispatch: bool,
) -> (r: Result<Vec<Task>, CustomErrors>)
    ensures
        ({
            let pairs = included_pairs(pkg@, dev, peer, optional);
            match r {
                Ok(ts) => {
                    &&& ts@.len() == pairs.len()
                    &&& forall|k: int|
                        0 <= k < ts@.len() ==> target_for_pair(
                            (#[trigger] ts@[k])@,
                            pairs[k],
                            dev,
                            peer,
                            optional,
                            dispatch,
                        )
                    &&& crate::registry::tasks_wf(ts@)
                },
                Err(e) => {
                    &&& e matches CustomErrors::VersionParse { .. }
                    &&& some_pair_fails(pairs)
                },
            }
        }),
{
    let ghost pairs = included_pairs(pkg@, dev, peer, optional);
    let mut all: Vec<(String, String)> = Vec::new();
    proof {
        assert(pairs_view(all@) =~= Seq::<(Seq<char>, Seq<char>)>::empty());
    }
    append_pairs(&mut all, &pkg.dependencies);
    if dev {
        append_pairs(&mut all, &pkg.dev_dependencies);
    }
    if peer {
        append_pairs(&mut all, &pkg.peer_dependencies);
    }
    if optional {
        append_pairs(&mut all, &pkg.optional_dependencies);
    }
    proof {
        assert(pairs_view(all@) =~= pairs);
    }
    let len = all.len();
    let mut out: Vec<Task> = Vec::new();
    let mut j: usize = 0;
    while j < len
        invariant
            0 <= j <= len,
            len == all@.len(),
            pairs_view(all@) =~= pairs,
            out@.len() == j,
            forall|k: int|
                0 <= k < j ==> target_for_pair(
                    (#[trigger] out@[k])@,
                    pairs[k],
                    dev,
                    peer,
                    optional,
                    dispatch,
                ),
            forall|k: int| 0 <= k < j ==> task_wf((#[trigger] out@[k])@),
        decreases len - j,
    {
        proof {
            assert(pairs[j as int] == (all@[j as int].0@, all@[j as int].1@));
        }
        let name = all[j].0.clone();
        let raw = all[j].1.clone();
        if str_eq(raw.as_str(), "latest") {
            out.push(Task { name, req: None, dev, peer, optional, dispatch });
        } else {
            match crate::version::parse(raw.as_str()) {
                Ok(q) => {
                    out.push(Task { name, req: Some(q), dev, peer, optional, dispatch });
                },
                Err(e) => {
                    proof {
                        assert(pairs[j as int].1 != "latest"@ && spec_parse(pairs[j as int].1)
                            is Err);
                        assert(some_pair_fails(pairs));
                    }
                    return Err(e);
                },
            }
        }
        j += 1;
    }
    Ok(out)
}

/// Publishing archives to a registry is not offered: every call reports a
/// failure of the general kind.
pub fn publish(_pkgs: Vec<String>, _registry: Option<String>) -> (r: Result<(), CustomErrors>)
    ensures
        r matches Err(e) && e matches CustomErrors::Global(_),
{
    Err(CustomErrors::Global("publishing is not supported".to_owned()))
}

} // verus!

use vstd::prelude::*;

use crate::errors::CustomErrors;
use crate::serde::{entries_view, pairs_view, PackageRsp, SpecVersion, Version};
use crate::utils::{find_version, lookup_index, opt_index, spec_select, str_eq};
use crate::version::{requirement_wf, Requirement, SpecRequirement};

verus! {

/// The view of one resolved item: package name, resolved version string,
/// and the catalogue entry selected for it.
pub type SpecResolved = Seq<(Seq<char>, Seq<char>, SpecVersion)>;

/// The views of a sequence of resolved items.
pub open spec fn items_view(s: Seq<(String, String, Version)>) -> SpecResolved {
    s.map_values(|t: (String, String, Version)| (t.0@, t.1@, t.2@))
}

/// The first item at or after `i` holding the pair `(name, ver)`.
pub open spec fn find_pair(s: SpecResolved, name: Seq<char>, ver: Seq<char>, i: int) -> Option<int>
    decreases s.len() - i when 0 <= i <= s.len()
{
    if i >= s.len() {
        None
    } else if s[i].0 == name && s[i].1 == ver {
        Some(i)
    } else {
        find_pair(s, name, ver, i + 1)
    }
}

/// The entry recorded for `(name, ver)`, if any.
pub open spec fn entry_of(s: SpecResolved, name: Seq<char>, ver: Seq<char>) -> Option<SpecVersion> {
    match find_pair(s, name, ver, 0) {
        None => None,
        Some(i) => Some(s[i].2),
    }
}

/// No two items hold the same `(name, ver)` pair.
pub open spec fn resolved_wf(s: SpecResolved) -> bool {
    forall|i: int, j: int|
        0 <= i < j < s.len() ==> !((#[trigger] s[i]).0 == (#[trigger] s[j]).0 && s[i].1 == s[j].1)
}

/// The key-wise union of two resolved sets: an entry already present is
/// never overwritten, and versions never collapse — every `(name, ver)`
/// pair of either side is present in the union.
pub open spec fn union_entry(
    a: SpecResolved,
    b: SpecResolved,
    name: Seq<char>,
    ver: Seq<char>,
) -> Option<SpecVersion> {
    if entry_of(a, name, ver) is Some {
        entry_of(a, name, ver)
    } else {
        entry_of(b, name, ver)
    }
}

/// Every version of every package actually selected during resolution,
/// as a set of `(package name, resolved version, catalogue entry)` items
/// with no two items for the same `(name, version)` pair. Several versions
/// of one package name may coexist.
#[derive(Debug, Clone, PartialEq, Eq)]
pub struct ResolvedSet {
    pub items: Vec<(String, String, Version)>,
}

impl View for ResolvedSet {
    type V = SpecResolved;

    open spec fn view(&self) -> SpecResolved {
        items_view(self.items@)
    }
}

proof fn lemma_find_pair_push(
    s: SpecResolved,
    t: (Seq<char>, Seq<char>, SpecVersion),
    name: Seq<char>,
    ver: Seq<char>,
    i: int,
)
    requires
        0 <= i <= s.len(),
    ensures
        find_pair(s.push(t), name, ver, i) == (match find_pair(s, name, ver, i) {
            Some(k) => Some(k),
            None => if t.0 == name && t.1 == ver {
                Some(s.len() as int)
            } else {
                None
            },
        }),
    decreases s.len() - i,
{
    assert(s.push(t).len() == s.len() + 1);
    assert(s.push(t)[s.len() as int] == t);
    if i < s.len() {
        assert(s.push(t)[i] == s[i]);
        lemma_find_pair_push(s, t, name, ver, i + 1);
    } else {
        assert(find_pair(s, name, ver, i) is None);
    }
}

/// Pushing a new item extends the mapping at exactly its own pair.
pub proof fn lemma_entry_of_push(
    s: SpecResolved,
    t: (Seq<char>, Seq<char>, SpecVersion),
    name: Seq<char>,
    ver: Seq<char>,
)
    ensures
        entry_of(s.push(t), name, ver) == (if entry_of(s, name, ver) is Some {
            entry_of(s, name, ver)
        } else if t.0 == name && t.1 == ver {
            Some(t.2)
        } else {
            None
        }),
{
    lemma_find_pair_push(s, t, name, ver, 0);
    match find_pair(s, name, ver, 0) {
        Some(k) => {
            lemma_find_pair_in_range(s, name, ver, 0);
            assert(s.push(t)[k] == s[k]);
        },
        None => {},
    }
}

proof fn lemma_find_pair_in_range(s: SpecResolved, name: Seq<char>, ver: Seq<char>, i: int)
    requires
        0 <= i <= s.len(),
    ensures
        match find_pair(s, name, ver, i) {
            Some(k) => i <= k < s.len() && s[k].0 == name && s[k].1 == ver,
            None => true,
        },
    decreases s.len() - i,
{
    if i < s.len() && !(s[i].0 == name && s[i].1 == ver) {
        lemma_find_pair_in_range(s, name, ver, i + 1);
    }
}

/// A recorded pair is found.
proof fn lemma_find_pair_some(s: SpecResolved, k: int, i: int)
    requires
        0 <= i <= k < s.len(),
    ensures
        find_pair(s, s[k].0, s[k].1, i) is Some,
    decreases s.len() - i,
{
    if !(s[i].0 == s[k].0 && s[i].1 == s[k].1) {
        if i == k {
        } else {
            lemma_find_pair_some(s, k, i + 1);
        }
    }
}

impl ResolvedSet {
    /// The empty resolved set.
    pub fn new() -> (r: ResolvedSet)
        ensures
            r@.len() == 0,
            resolved_wf(r@),
            forall|n: Seq<char>, v: Seq<char>| entry_of(r@, n, v) is None,
    {
        let r = ResolvedSet { items: Vec::new() };
        proof {
            assert(r@ =~= Seq::<(Seq<char>, Seq<char>, SpecVersion)>::empty());
            assert forall|n: Seq<char>, v: Seq<char>| entry_of(r@, n, v) is None by {
                assert(find_pair(r@, n, v, 0) is None);
            }
        }
        r
    }

    /// Record `(name, version) -> entry`, unless that pair is already
    /// present — an existing entry is never overwritten.
    pub fn insert(&mut self, name: String, version: String, entry: Version)
        requires
            resolved_wf(old(self)@),
        ensures
            resolved_wf(final(self)@),
            forall|n: Seq<char>, v: Seq<char>|
                #[trigger] entry_of(final(self)@, n, v) == (if entry_of(old(self)@, n, v) is Some {
                    entry_of(old(self)@, n, v)
                } else if n == name@ && v == version@ {
                    Some(entry@)
                } else {
                    None
                }),
    {
        let ghost s0 = self@;
        let n = self.items.len();
        let mut i: usize = 0;
        while i < n
            invariant
                0 <= i <= n,
                n == self.items@.len(),
                self@ == s0,
                resolved_wf(s0),
                forall|k: int|
                    0 <= k < i ==> !((#[trigger] s0[k]).0 == name@ && s0[k].1 == version@),
            decreases n - i,
        {
            proof {
                assert(s0[i as int] == (self.items@[i as int].0@, self.items@[i as int].1@,
                self.items@[i as int].2@));
            }
            if str_eq(self.items[i].0.as_str(), name.as_str()) && str_eq(
                self.items[i].1.as_str(),
                version.as_str(),
            ) {
                proof {
                    lemma_find_pair_some(s0, i as int, 0);
                    assert(entry_of(s0, name@, version@) is Some);
                    assert forall|nn: Seq<char>, vv: Seq<char>| #[trigger]
                        entry_of(self@, nn, vv) == (if entry_of(s0, nn, vv) is Some {
                        entry_of(s0, nn, vv)
                    } else if nn == name@ && vv == version@ {
                        Some(entry@)
                    } else {
                        None
                    }) by {
                        if entry_of(s0, nn, vv) is None {
                            assert(!(nn == name@ && vv == version@));
                        }
                    }
                }
                return ;
            }
            i += 1;
        }
        proof {
            lemma_find_pair_in_range(s0, name@, version@, 0);
            match find_pair(s0, name@, version@, 0) {
                Some(k) => {
                    assert(false);
                },
                None => {},
            }
            assert(entry_of(s0, name@, version@) is None);
        }
        let ghost t = (name@, version@, entry@);
        self.items.push((name, version, entry));
        proof {
            assert(self@ =~= s0.push(t));
            assert forall|nn: Seq<char>, vv: Seq<char>| #[trigger]
                entry_of(self@, nn, vv) == (if entry_of(s0, nn, vv) is Some {
                entry_of(s0, nn, vv)
            } else if nn == name@ && vv == version@ {
                Some(t.2)
            } else {
                None
            }) by {
                lemma_entry_of_push(s0, t, nn, vv);
            }
            assert forall|i1: int, j1: int| 0 <= i1 < j1 < self@.len() implies !((
            #[trigger] self@[i1]).0 == (#[trigger] self@[j1]).0 && self@[i1].1 == self@[j1].1) by {
                if j1 == s0.len() {
                    if self@[i1].0 == t.0 && self@[i1].1 == t.1 {
                        lemma_find_pair_some(s0, i1, 0);
                    }
                }
            }
        }
    }
}

/// Merge `src` into `dst` as a key-wise union at `(name, version)`
/// granularity: a pair already present in `dst` keeps its entry, every pair
/// of `src` not in `dst` is added, and no version of any package is lost or
/// collapsed.
pub fn manuel_extend(src: ResolvedSet, dst: &mut ResolvedSet)
    requires
        resolved_wf(old(dst)@),
    ensures
        resolved_wf(final(dst)@),
        forall|n: Seq<char>, v: Seq<char>|
            #[trigger] entry_of(final(dst)@, n, v) == union_entry(old(dst)@, src@, n, v),
{
    let ghost d0 = old(dst)@;
    let ghost s0 = src@;
    let mut items = src.items;
    let total = items.len();
    let ghost all = items@;
    let mut k: usize = 0;
    while k < total
        invariant
            0 <= k <= total,
            total == all.len(),
            items@ =~= all.skip(k as int),
            resolved_wf(dst@),
            forall|n: Seq<char>, v: Seq<char>|
                #[trigger] entry_of(dst@, n, v) == (if entry_of(d0, n, v) is Some {
                    entry_of(d0, n, v)
                } else {
                    entry_of(items_view(all.take(k as int)), n, v)
                }),
        decreases total - k,
    {
        let (name, version, entry) = items.remove(0);
        let ghost tv = (name@, version@, entry@);
        proof {
            assert(all.skip(k as int)[0] == all[k as int]);
            assert(tv == items_view(all)[k as int]);
        }
        dst.insert(name, version, entry);
        proof {
            assert(items@ =~= all.skip(k as int + 1));
            assert(items_view(all.take(k as int + 1)) =~= items_view(all.take(k as int)).push(
                tv,
            ));
            assert forall|n: Seq<char>, v: Seq<char>| #[trigger]
                entry_of(dst@, n, v) == (if entry_of(d0, n, v) is Some {
                entry_of(d0, n, v)
            } else {
                entry_of(items_view(all.take(k as int + 1)), n, v)
            }) by {
                lemma_entry_of_push(items_view(all.take(k as int)), tv, n, v);
            }
        }
        k += 1;
    }
    proof {
        assert(items_view(all.take(total as int)) =~= items_view(all));
        assert(items_view(all) =~= s0);
        assert forall|n: Seq<char>, v: Seq<char>| #[trigger]
            entry_of(dst@, n, v) == union_entry(d0, s0, n, v) by {}
    }
}

// ---------------------------------------------------------------------------
// Dependency edges
// ---------------------------------------------------------------------------

/// The raw requirement the first pair at or after `i` records for `n`.
pub open spec fn lookup_raw(m: Seq<(Seq<char>, Seq<char>)>, n: Seq<char>, i: int) -> Option<
    Seq<char>,
>
    decreases m.len() - i when 0 <= i <= m.len()
{
    if i >= m.len() {
        None
    } else if m[i].0 == n {
        Some(m[i].1)
    } else {
        lookup_raw(m, n, i + 1)
    }
}

/// No two pairs share a name.
pub open spec fn unique_names(m: Seq<(Seq<char>, Seq<char>)>) -> bool {
    forall|i: int, j: int| 0 <= i < j < m.len() ==> (#[trigger] m[i]).0 != (#[trigger] m[j]).0
}

proof fn lemma_lookup_raw_push(
    m: Seq<(Seq<char>, Seq<char>)>,
    t: (Seq<char>, Seq<char>),
    n: Seq<char>,
    i: int,
)
    requires
        0 <= i <= m.len(),
    ensures
        lookup_raw(m.push(t), n, i) == (match lookup_raw(m, n, i) {
            Some(v) => Some(v),
            None => if t.0 == n {
                Some(t.1)
            } else {
                None
            },
        }),
    decreases m.len() - i,
{
    assert(m.push(t)[m.len() as int] == t);
    if i < m.len() {
        assert(m.push(t)[i] == m[i]);
        lemma_lookup_raw_push(m, t, n, i + 1);
    }
}

proof fn lemma_lookup_raw_in_range(m: Seq<(Seq<char>, Seq<char>)>, n: Seq<char>, i: int)
    requires
        0 <= i <= m.len(),
    ensures
        match lookup_raw(m, n, i) {
            Some(v) => exists|k: int| i <= k < m.len() && (#[trigger] m[k]).0 == n && m[k].1 == v,
            None => forall|k: int| i <= k < m.len() ==> (#[trigger] m[k]).0 != n,
        },
    decreases m.len() - i,
{
    if i < m.len() {
        lemma_lookup_raw_in_range(m, n, i + 1);
        if m[i].0 == n {
        }
    }
}

proof fn lemma_lookup_raw_some(m: Seq<(Seq<char>, Seq<char>)>, k: int, i: int)
    requires
        0 <= i <= k < m.len(),
    ensures
        lookup_raw(m, m[k].0, i) is Some,
    decreases m.len() - i,
{
    if m[i].0 != m[k].0 {
        lemma_lookup_raw_some(m, k, i + 1);
    }
}

/// With unique names, the recorded value for a present name is that pair's.
proof fn lemma_lookup_raw_unique(m: Seq<(Seq<char>, Seq<char>)>, k: int)
    requires
        unique_names(m),
        0 <= k < m.len(),
    ensures
        lookup_raw(m, m[k].0, 0) == Some(m[k].1),
{
    lemma_lookup_raw_some(m, k, 0);
    lemma_lookup_raw_in_range(m, m[k].0, 0);
    let j = choose|j: int|
        0 <= j < m.len() && (#[trigger] m[j]).0 == m[k].0 && m[j].1 == lookup_raw(
            m,
            m[k].0,
            0,
        )->Some_0;
    assert(j == k);
}

/// Whether `out` already records a pair for `n`.
fn contains_name(out: &Vec<(String, String)>, n: &str) -> (r: bool)
    ensures
        r == (lookup_raw(pairs_view(out@), n@, 0) is Some),
{
    let ghost mv = pairs_view(out@);
    let len = out.len();
    let mut i: usize = 0;
    while i < len
        invariant
            0 <= i <= len,
            len == out@.len(),
            mv == pairs_view(out@),
            forall|k: int| 0 <= k < i ==> (#[trigger] mv[k]).0 != n@,
        decreases len - i,
    {
        proof {
            assert(mv[i as int] == (out@[i as int].0@, out@[i as int].1@));
        }
        if str_eq(out[i].0.as_str(), n) {
            proof {
                lemma_lookup_raw_some(mv, i as int, 0);
            }
            return true;
        }
        i += 1;
    }
    proof {
        lemma_lookup_raw_in_range(mv, n@, 0);
        match lookup_raw(mv, n@, 0) {
            Some(v) => {
                let k = choose|k: int|
                    0 <= k < mv.len() && (#[trigger] mv[k]).0 == n@ && mv[k].1 == v;
                assert(false);
            },
            None => {},
        }
    }
    false
}

/// Add every pair of `m` whose name `out` does not hold yet: the first
/// record for a name wins.
fn add_edges(out: &mut Vec<(String, String)>, m: &Vec<(String, String)>)
    requires
        unique_names(pairs_view(old(out)@)),
    ensures
        unique_names(pairs_view(final(out)@)),
        forall|n: Seq<char>|
            #[trigger] lookup_raw(pairs_view(final(out)@), n, 0) == (match lookup_raw(
                pairs_view(old(out)@),
                n,
                0,
            ) {
                Some(v) => Some(v),
                None => lookup_raw(pairs_view(m@), n, 0),
            }),
{
    let ghost o0 = pairs_view(old(out)@);
    let ghost mv = pairs_view(m@);
    let len = m.len();
    let mut j: usize = 0;
    while j < len
        invariant
            0 <= j <= len,
            len == m@.len(),
            mv == pairs_view(m@),
            unique_names(pairs_view(out@)),
            forall|n: Seq<char>|
                #[trigger] lookup_raw(pairs_view(out@), n, 0) == (match lookup_raw(o0, n, 0) {
                    Some(v) => Some(v),
                    None => lookup_raw(mv.take(j as int), n, 0),
                }),
        decreases len - j,
    {
        let ghost before = pairs_view(out@);
        proof {
            assert(mv[j as int] == (m@[j as int].0@, m@[j as int].1@));
            assert(mv.take(j as int + 1) =~= mv.take(j as int).push(mv[j as int]));
        }
        if !contains_name(out, m[j].0.as_str()) {
            let pair = (m[j].0.clone(), m[j].1.clone());
            out.push(pair);
            proof {
                assert(pairs_view(out@) =~= before.push(mv[j as int]));
                assert forall|n: Seq<char>| #[trigger]
                    lookup_raw(pairs_view(out@), n, 0) == (match lookup_raw(o0, n, 0) {
                    Some(v) => Some(v),
                    None => lookup_raw(mv.take(j as int + 1), n, 0),
                }) by {
                    lemma_lookup_raw_push(before, mv[j as int], n, 0);
                    lemma_lookup_raw_push(mv.take(j as int), mv[j as int], n, 0);
                }
                assert forall|i1: int, j1: int|
                    0 <= i1 < j1 < pairs_view(out@).len() implies (#[trigger] pairs_view(
                    out@,
                )[i1]).0 != (#[trigger] pairs_view(out@)[j1]).0 by {
                    if j1 == before.len() {
                        if before[i1].0 == mv[j as int].0 {
                            lemma_lookup_raw_some(before, i1, 0);
                        }
                    }
                }
            }
        } else {
            proof {
                assert forall|n: Seq<char>| #[trigger]
                    lookup_raw(pairs_view(out@), n, 0) == (match lookup_raw(o0, n, 0) {
                    Some(v) => Some(v),
                    None => lookup_raw(mv.take(j as int + 1), n, 0),
                }) by {
                    lemma_lookup_raw_push(mv.take(j as int), mv[j as int], n, 0);
                    if lookup_raw(o0, n, 0) is None && n == mv[j as int].0 {
                        assert(lookup_raw(pairs_view(out@), n, 0) is Some);
                    }
                }
            }
        }
        j += 1;
    }
    proof {
        assert(mv.take(len as int) =~= mv);
    }
}

/// The raw requirement string of the dependency edge toward `n` that a
/// selected entry declares under the given inclusion flags: optional
/// declarations take precedence over peer ones, those over dev ones, and
/// those over regular ones; a kind is consulted only when its flag is set,
/// regular dependencies always.
pub open spec fn spec_edge(
    e: SpecVersion,
    dev: bool,
    peer: bool,
    optional: bool,
    n: Seq<char>,
) -> Option<Seq<char>> {
    if optional && lookup_raw(e.optional_dependencies, n, 0) is Some {
        lookup_raw(e.optional_dependencies, n, 0)
    } else if peer && lookup_raw(e.peer_dependencies, n, 0) is Some {
        lookup_raw(e.peer_dependencies, n, 0)
    } else if dev && lookup_raw(e.dev_dependencies, n, 0) is Some {
        lookup_raw(e.dev_dependencies, n, 0)
    } else {
        lookup_raw(e.dependencies, n, 0)
    }
}

/// Collect the dependency edges of a selected entry under the given
/// inclusion flags, one edge per dependency name, valued as [`spec_edge`]
/// says.
fn merge_edges(entry: &Version, dev: bool, peer: bool, optional: bool) -> (out: Vec<
    (String, String),
>)
    ensures
        unique_names(pairs_view(out@)),
        forall|n: Seq<char>|
            #[trigger] lookup_raw(pairs_view(out@), n, 0) == spec_edge(
                entry@,
                dev,
                peer,
                optional,
                n,
            ),
{
    let mut out: Vec<(String, String)> = Vec::new();
    proof {
        assert(pairs_view(out@) =~= Seq::<(Seq<char>, Seq<char>)>::empty());
        assert forall|n: Seq<char>| #[trigger]
            lookup_raw(pairs_view(out@), n, 0) is None by {}
    }
    if optional {
        add_edges(&mut out, &entry.optional_dependencies);
    }
    if peer {
        add_edges(&mut out, &entry.peer_dependencies);
    }
    if dev {
        add_edges(&mut out, &entry.dev_dependencies);
    }
    add_edges(&mut out, &entry.dependencies);
    out
}

// ---------------------------------------------------------------------------
// The dependency-graph walker
// ---------------------------------------------------------------------------

/// The mathematical value of a [`Task`].
pub struct SpecTask {
    pub name: Seq<char>,
    pub req: Option<SpecRequirement>,
    pub dev: bool,
    pub peer: bool,
    pub optional: bool,
    pub dispatch: bool,
}

/// One pending resolution: a package name, the requirement to satisfy
/// (`None` means the `latest` dist-tag), and which dependency kinds to
/// follow from the version selected for it. `dispatch` says whether the
/// dev/peer/optional flags carry over to the tasks it spawns.
#[derive(Debug, Clone, PartialEq, Eq)]
pub struct Task {
    pub name: String,
    pub req: Option<Requirement>,
    pub dev: bool,
    pub peer: bool,
    pub optional: bool,
    pub dispatch: bool,
}

impl View for Task {
    type V = SpecTask;

    open spec fn view(&self) -> SpecTask {
        SpecTask {
            name: self.name@,
            req: match &self.req {
                Some(q) => Some(q@),
                None => None,
            },
            dev: self.dev,
            peer: self.peer,
            optional: self.optional,
            dispatch: self.dispatch,
        }
    }
}

/// A task is well formed when its requirement, if any, is.
pub open spec fn task_wf(t: SpecTask) -> bool {
    match t.req {
        Some(q) => requirement_wf(q),
        None => true,
    }
}

pub open spec fn tasks_wf(ts: Seq<Task>) -> bool {
    forall|k: int| 0 <= k < ts.len() ==> task_wf((#[trigger] ts[k])@)
}

/// The task a step spawns for a dependency edge: each inclusion flag is
/// ANDed with the parent's dispatch flag, so once dispatch is off no
/// grandchild sees dev, peer or optional inclusion; regular dependencies
/// are always followed.
pub open spec fn child_task(t: SpecTask, name: Seq<char>, req: SpecRequirement) -> SpecTask {
    SpecTask {
        name,
        req: Some(req),
        dev: t.dev && t.dispatch,
        peer: t.peer && t.dispatch,
        optional: t.optional && t.dispatch,
        dispatch: t.dispatch,
    }
}

/// A dependency edge whose raw requirement string did not parse: the edge
/// is skipped and reported, never fatal to its siblings.
#[derive(Debug, Clone, PartialEq, Eq)]
pub struct EdgeIssue {
    pub name: String,
    pub raw: String,
    pub error: CustomErrors,
}

/// The version string the `latest` dist-tag names, if any.
pub open spec fn latest_of(rsp: crate::serde::SpecPackageRsp) -> Option<Seq<char>> {
    lookup_raw(rsp.dist_tags, "latest"@, 0)
}

/// The outcome of version selection for one task: requirement mode scans
/// the catalogue under the contiguous-run rule; latest mode follows the
/// `latest` dist-tag, and a missing tag or dangling target selects nothing.
pub open spec fn spec_selected(
    rsp: crate::serde::SpecPackageRsp,
    req: Option<SpecRequirement>,
) -> Result<Option<int>, int> {
    match req {
        Some(q) => spec_select(rsp.versions, q),
        None => match latest_of(rsp) {
            Some(t) => Ok(lookup_index(rsp.versions, t, 0)),
            None => Ok(None),
        },
    }
}

/// The version string the `latest` dist-tag of `tags` names, if any.
fn find_latest_tag(tags: &Vec<(String, String)>) -> (r: Option<String>)
    ensures
        match r {
            Some(s) => lookup_raw(pairs_view(tags@), "latest"@, 0) == Some(s@),
            None => lookup_raw(pairs_view(tags@), "latest"@, 0) is None,
        },
{
    let ghost mv = pairs_view(tags@);
    let len = tags.len();
    let mut i: usize = 0;
    while i < len
        invariant
            0 <= i <= len,
            len == tags@.len(),
            mv == pairs_view(tags@),
            forall|k: int| 0 <= k < i ==> (#[trigger] mv[k]).0 != "latest"@,
        decreases len - i,
    {
        proof {
            assert(mv[i as int] == (tags@[i as int].0@, tags@[i as int].1@));
        }
        if str_eq(tags[i].0.as_str(), "latest") {
            proof {
                lemma_lookup_raw_first(mv, i as int);
            }
            return Some(tags[i].1.clone());
        }
        i += 1;
    }
    proof {
        lemma_lookup_raw_in_range(mv, "latest"@, 0);
        match lookup_raw(mv, "latest"@, 0) {
            Some(v) => {
                let k = choose|k: int|
                    0 <= k < mv.len() && (#[trigger] mv[k]).0 == "latest"@ && mv[k].1 == v;
                assert(false);
            },
            None => {},
        }
    }
    None
}

/// When everything before `k` misses, the lookup lands on `k`.
proof fn lemma_lookup_raw_first(m: Seq<(Seq<char>, Seq<char>)>, k: int)
    requires
        0 <= k < m.len(),
        forall|j: int| 0 <= j < k ==> (#[trigger] m[j]).0 != m[k].0,
    ensures
        lookup_raw(m, m[k].0, 0) == Some(m[k].1),
{
    lemma_lookup_raw_first_from(m, k, 0);
}

proof fn lemma_lookup_raw_first_from(m: Seq<(Seq<char>, Seq<char>)>, k: int, i: int)
    requires
        0 <= i <= k < m.len(),
        forall|j: int| i <= j < k ==> (#[trigger] m[j]).0 != m[k].0,
    ensures
        lookup_raw(m, m[k].0, i) == Some(m[k].1),
    decreases k - i,
{
    if i < k {
        lemma_lookup_raw_first_from(m, k, i + 1);
    }
}

/// The walker's state: the stack of tasks still to resolve and the set of
/// entries resolved so far. The surrounding program repeatedly fetches the
/// metadata of the next pending task's package and hands it to [`Resolver::step`];
/// resolution is complete when no task is pending.
#[derive(Debug, Clone, PartialEq, Eq)]
pub struct Resolver {
    pub pending: Vec<Task>,
    pub resolved: ResolvedSet,
}

impl Resolver {
    /// A walker about to resolve one root task.
    pub fn new(task: Task) -> (r: Resolver)
        ensures
            r.pending@ =~= seq![task],
            r.resolved@.len() == 0,
            forall|n: Seq<char>, v: Seq<char>| entry_of(r.resolved@, n, v) is None,
            resolved_wf(r.resolved@),
            task_wf(task@) ==> tasks_wf(r.pending@),
    {
        let mut pending = Vec::new();
        pending.push(task);
        Resolver { pending, resolved: ResolvedSet::new() }
    }

    /// Whether resolution is complete.
    pub fn done(&self) -> (r: bool)
        ensures
            r == (self.pending@.len() == 0),
    {
        self.pending.len() == 0
    }

    /// The package name of the task the next step will resolve.
    pub fn next_package(&self) -> (r: Option<String>)
        ensures
            match r {
                Some(s) => self.pending@.len() > 0 && s@ == self.pending@.last()@.name,
                None => self.pending@.len() == 0,
            },
    {
        if self.pending.len() == 0 {
            None
        } else {
            Some(self.pending[self.pending.len() - 1].name.clone())
        }
    }

    /// The resolved set, once resolution is complete.
    pub fn into_resolved(self) -> (r: ResolvedSet)
        ensures
            r == self.resolved,
    {
        self.resolved
    }

    /// Resolve the next pending task against its package's metadata.
    ///
    /// One version is selected as [`spec_selected`] says; a selection
    /// failure is fatal and leaves the walker unchanged. On success the
    /// entry is recorded under the task's package name and the entry's own
    /// version string (never overwriting), and one task per dependency
    /// edge with a parseable requirement is spawned with the flags
    /// [`child_task`] says; edges whose requirement does not parse are
    /// returned as issues and skipped.
    #[verifier::loop_isolation(false)]
    pub fn step(&mut self, metadata: PackageRsp) -> (r: Result<Vec<EdgeIssue>, CustomErrors>)
        requires
            old(self).pending@.len() > 0,
            tasks_wf(old(self).pending@),
            resolved_wf(old(self).resolved@),
        ensures
            tasks_wf(final(self).pending@),
            resolved_wf(final(self).resolved@),
            ({
                let task = old(self).pending@.last()@;
                let sel = spec_selected(metadata@, task.req);
                let base = old(self).pending@.len() - 1;
                let fp = final(self).pending@;
                let op = old(self).pending@;
                let rs = final(self).resolved@;
                let os = old(self).resolved@;
                match r {
                    Err(e) => *final(self) == *old(self) && (match e {
                        CustomErrors::CatalogueParse(_) => sel is Err,
                        CustomErrors::Version(p) => sel == Ok::<Option<int>, int>(None) && p@
                            == task.name,
                        _ => false,
                    }),
                    Ok(issues) => (sel matches Ok(Some(u)) && {
                        let entry = metadata@.versions[u].1;
                        &&& 0 <= u < metadata@.versions.len()
                        &&& forall|n2: Seq<char>, v2: Seq<char>|
                            #[trigger] entry_of(rs, n2, v2) == (if entry_of(os, n2, v2) is Some {
                                entry_of(os, n2, v2)
                            } else if n2 == task.name && v2 == entry.version {
                                Some(entry)
                            } else {
                                None
                            })
                        &&& fp.len() >= base
                        &&& forall|k: int| 0 <= k < base ==> fp[k] == op[k]
                        &&& forall|k: int|
                            base <= k < fp.len() ==> ((#[trigger] fp[k])@.req matches Some(rv)
                                && spec_edge(entry, task.dev, task.peer, task.optional, fp[k]@.name)
                                matches Some(raw) && crate::version::grammar::spec_parse(raw)
                                == Ok::<SpecRequirement, (Seq<char>, crate::errors::ParseContext)>(
                                rv,
                            ) && fp[k]@ == child_task(task, fp[k]@.name, rv))
                        &&& forall|k: int|
                            0 <= k < issues@.len() ==> (spec_edge(
                                entry,
                                task.dev,
                                task.peer,
                                task.optional,
                                (#[trigger] issues@[k]).name@,
                            ) == Some(issues@[k].raw@) && crate::version::grammar::spec_parse(
                                issues@[k].raw@,
                            ) is Err && issues@[k].error matches CustomErrors::VersionParse { .. })
                        &&& forall|n2: Seq<char>|
                            (#[trigger] spec_edge(
                                entry,
                                task.dev,
                                task.peer,
                                task.optional,
                                n2,
                            )) matches Some(raw) ==> ((crate::version::grammar::spec_parse(raw)
                                is Ok ==> exists|k: int|
                                base <= k < fp.len() && (#[trigger] fp[k])@.name == n2) && (
                            crate::version::grammar::spec_parse(raw) is Err ==> exists|k: int|
                                0 <= k < issues@.len() && (#[trigger] issues@[k]).name@ == n2))
                        &&& forall|k1: int, k2: int|
                            base <= k1 < k2 < fp.len() ==> (#[trigger] fp[k1])@.name != (
                            #[trigger] fp[k2])@.name
                        &&& forall|k1: int, k2: int|
                            0 <= k1 < k2 < issues@.len() ==> (#[trigger] issues@[k1]).name@ != (
                            #[trigger] issues@[k2]).name@
                    }),
                }
            }),
    {
        let ghost task_v = old(self).pending@.last()@;
        let ghost base = old(self).pending@.len() - 1;
        let PackageRsp { dist_tags, versions } = metadata;
        proof {
            assert(metadata@.versions == entries_view(versions@));
            assert(metadata@.dist_tags == pairs_view(dist_tags@));
        }
        let t_idx = self.pending.len() - 1;
        let lts = find_latest_tag(&dist_tags);
        let pre = self.pending[t_idx].req.as_ref();
        let sel = match find_version(&versions, pre, lts.as_ref()) {
            Ok(o) => o,
            Err(e) => {
                return Err(e);
            },
        };
        let u = match sel {
            None => {
                return Err(CustomErrors::Version(self.pending[t_idx].name.clone()));
            },
            Some(u) => u,
        };
        let task_dev = self.pending[t_idx].dev;
        let task_peer = self.pending[t_idx].peer;
        let task_optional = self.pending[t_idx].optional;
        let task_dispatch = self.pending[t_idx].dispatch;
        let name = self.pending[t_idx].name.clone();
        let edges = merge_edges(&versions[u].1, task_dev, task_peer, task_optional);
        let ghost edges_v = pairs_view(edges@);
        let mut versions = versions;
        let (_, entry) = versions.remove(u);
        let ghost entry_v = entry@;
        proof {
            assert(entry_v == metadata@.versions[u as int].1);
        }
        let version_str = entry.version.clone();
        let _ = self.pending.pop();
        self.resolved.insert(name, version_str, entry);
        let ghost resolved_after = self.resolved@;
        let mut issues: Vec<EdgeIssue> = Vec::new();
        let elen = edges.len();
        let mut j: usize = 0;
        while j < elen
            invariant
                0 <= j <= elen,
                elen == edges@.len(),
                edges_v == pairs_view(edges@),
                self.resolved@ == resolved_after,
                self.pending@.len() >= base,
                tasks_wf(self.pending@),
                forall|k: int| 0 <= k < base ==> self.pending@[k] == old(self).pending@[k],
                forall|k: int|
                    base <= k < self.pending@.len() ==> ((#[trigger] self.pending@[k])@.req
                        matches Some(rv) && spec_edge(
                        entry_v,
                        task_v.dev,
                        task_v.peer,
                        task_v.optional,
                        self.pending@[k]@.name,
                    ) matches Some(raw) && crate::version::grammar::spec_parse(raw) == Ok::<
                        SpecRequirement,
                        (Seq<char>, crate::errors::ParseContext),
                    >(rv) && self.pending@[k]@ == child_task(task_v, self.pending@[k]@.name, rv)),
                forall|k: int|
                    0 <= k < issues@.len() ==> (spec_edge(
                        entry_v,
                        task_v.dev,
                        task_v.peer,
                        task_v.optional,
                        (#[trigger] issues@[k]).name@,
                    ) == Some(issues@[k].raw@) && crate::version::grammar::spec_parse(
                        issues@[k].raw@,
                    ) is Err && issues@[k].error matches CustomErrors::VersionParse { .. }),
                forall|k: int|
                    0 <= k < j ==> ((crate::version::grammar::spec_parse(
                        (#[trigger] edges_v[k]).1,
                    ) is Ok ==> exists|k2: int|
                        base <= k2 < self.pending@.len() && (#[trigger] self.pending@[k2])@.name
                            == edges_v[k].0) && (crate::version::grammar::spec_parse(
                        edges_v[k].1,
                    ) is Err ==> exists|k2: int|
                        0 <= k2 < issues@.len() && (#[trigger] issues@[k2]).name@ == edges_v[k].0)),
                forall|k: int|
                    base <= k < self.pending@.len() ==> exists|e: int|
                        0 <= e < j && (#[trigger] self.pending@[k])@.name == (
                        #[trigger] edges_v[e]).0,
                forall|k: int|
                    0 <= k < issues@.len() ==> exists|e: int|
                        0 <= e < j && (#[trigger] issues@[k]).name@ == (#[trigger] edges_v[e]).0,
                unique_names(edges_v),
                forall|k1: int, k2: int|
                    base <= k1 < k2 < self.pending@.len() ==> (#[trigger] self.pending@[k1])@.name
                        != (#[trigger] self.pending@[k2])@.name,
                forall|k1: int, k2: int|
                    0 <= k1 < k2 < issues@.len() ==> (#[trigger] issues@[k1]).name@ != (
                    #[trigger] issues@[k2]).name@,
            decreases elen - j,
        {
            proof {
                assert(edges_v[j as int] == (edges@[j as int].0@, edges@[j as int].1@));
                lemma_lookup_raw_unique(edges_v, j as int);
            }
            let dep = edges[j].0.clone();
            let raw = edges[j].1.clone();
            match crate::version::parse(raw.as_str()) {
                Ok(rq) => {
                    let ghost pend_before = self.pending@;
                    let ghost issues_before = issues@;
                    self.pending.push(
                        Task {
                            name: dep,
                            req: Some(rq),
                            dev: task_dev && task_dispatch,
                            peer: task_peer && task_dispatch,
                            optional: task_optional && task_dispatch,
                            dispatch: task_dispatch,
                        },
                    );
                    proof {
                        assert(self.pending@.last()@ == child_task(
                            task_v,
                            edges_v[j as int].0,
                            self.pending@.last()@.req->Some_0,
                        ));
                        assert forall|k: int|
                            base <= k < self.pending@.len() implies exists|e: int|
                            0 <= e < j + 1 && (#[trigger] self.pending@[k])@.name == (
                            #[trigger] edges_v[e]).0 by {
                            if k < self.pending@.len() - 1 {
                                assert(self.pending@[k] == pend_before[k]);
                                let e = choose|e: int|
                                    0 <= e < j && (#[trigger] pend_before[k])@.name == (
                                    #[trigger] edges_v[e]).0;
                            } else {
                                assert(self.pending@[k]@.name == edges_v[j as int].0);
                            }
                        }
                        assert forall|k1: int, k2: int|
                            base <= k1 < k2 < self.pending@.len() implies (
                        #[trigger] self.pending@[k1])@.name != (
                        #[trigger] self.pending@[k2])@.name by {
                            if k2 == self.pending@.len() - 1 {
                                assert(self.pending@[k1] == pend_before[k1]);
                                let e = choose|e: int|
                                    0 <= e < j && (#[trigger] pend_before[k1])@.name == (
                                    #[trigger] edges_v[e]).0;
                                assert(edges_v[e].0 != edges_v[j as int].0);
                            }
                        }
                        assert forall|k: int| 0 <= k < j + 1 implies ((
                        crate::version::grammar::spec_parse((#[trigger] edges_v[k]).1) is Ok
                            ==> exists|k2: int|
                            base <= k2 < self.pending@.len() && (#[trigger] self.pending@[k2])@.name
                                == edges_v[k].0) && (crate::version::grammar::spec_parse(
                            edges_v[k].1,
                        ) is Err ==> exists|k2: int|
                            0 <= k2 < issues@.len() && (#[trigger] issues@[k2]).name@ == edges_v[k].0)) by {
                            if k < j {
                                if crate::version::grammar::spec_parse(edges_v[k].1) is Ok {
                                    let k2 = choose|k2: int|
                                        base <= k2 < pend_before.len() && (#[trigger] pend_before[k2])@.name
                                            == edges_v[k].0;
                                    assert(self.pending@[k2] == pend_before[k2]);
                                }
                            } else {
                                assert(self.pending@[self.pending@.len() - 1]@.name == edges_v[j as int].0);
                            }
                        }
                    }
                },
                Err(e) => {
                    let ghost issues_before = issues@;
                    issues.push(EdgeIssue { name: dep, raw, error: e });
                    proof {
                        assert(issues@.last().name@ == edges_v[j as int].0);
                        assert(issues@.last().raw@ == edges_v[j as int].1);
                        assert forall|k: int|
                            0 <= k < issues@.len() implies exists|e: int|
                            0 <= e < j + 1 && (#[trigger] issues@[k]).name@ == (
                            #[trigger] edges_v[e]).0 by {
                            if k < issues@.len() - 1 {
                                assert(issues@[k] == issues_before[k]);
                                let e = choose|e: int|
                                    0 <= e < j && (#[trigger] issues_before[k]).name@ == (
                                    #[trigger] edges_v[e]).0;
                            } else {
                                assert(issues@[k].name@ == edges_v[j as int].0);
                            }
                        }
                        assert forall|k1: int, k2: int|
                            0 <= k1 < k2 < issues@.len() implies (#[trigger] issues@[k1]).name@
                            != (#[trigger] issues@[k2]).name@ by {
                            if k2 == issues@.len() - 1 {
                                assert(issues@[k1] == issues_before[k1]);
                                let e = choose|e: int|
                                    0 <= e < j && (#[trigger] issues_before[k1]).name@ == (
                                    #[trigger] edges_v[e]).0;
                                assert(edges_v[e].0 != edges_v[j as int].0);
                            }
                        }
                        assert forall|k: int| 0 <= k < j + 1 implies ((
                        crate::version::grammar::spec_parse((#[trigger] edges_v[k]).1) is Ok
                            ==> exists|k2: int|
                            base <= k2 < self.pending@.len() && (#[trigger] self.pending@[k2])@.name
                                == edges_v[k].0) && (crate::version::grammar::spec_parse(
                            edges_v[k].1,
                        ) is Err ==> exists|k2: int|
                            0 <= k2 < issues@.len() && (#[trigger] issues@[k2]).name@ == edges_v[k].0)) by {
                            if k < j {
                                if crate::version::grammar::spec_parse(edges_v[k].1) is Err {
                                    let k2 = choose|k2: int|
                                        0 <= k2 < issues_before.len() && (#[trigger] issues_before[k2]).name@
                                            == edges_v[k].0;
                                    assert(issues@[k2] == issues_before[k2]);
                                }
                            } else {
                                assert(issues@[issues@.len() - 1].name@ == edges_v[j as int].0);
                            }
                        }
                    }
                },
            }
            j += 1;
        }
        proof {
            assert forall|n2: Seq<char>|
                (#[trigger] spec_edge(entry_v, task_v.dev, task_v.peer, task_v.optional, n2))
                is Some implies {
                let raw = spec_edge(entry_v, task_v.dev, task_v.peer, task_v.optional, n2)->Some_0;
                &&& (crate::version::grammar::spec_parse(raw) is Ok ==> exists|k: int|
                    base <= k < self.pending@.len() && (#[trigger] self.pending@[k])@.name == n2)
                &&& (crate::version::grammar::spec_parse(raw) is Err ==> exists|k: int|
                    0 <= k < issues@.len() && (#[trigger] issues@[k]).name@ == n2)
            } by {
                let raw = spec_edge(entry_v, task_v.dev, task_v.peer, task_v.optional, n2)->Some_0;
                assert(lookup_raw(edges_v, n2, 0) == Some(raw));
                lemma_lookup_raw_in_range(edges_v, n2, 0);
                let k = choose|k: int|
                    0 <= k < edges_v.len() && (#[trigger] edges_v[k]).0 == n2 && edges_v[k].1
                        == raw;
            }
        }
        Ok(issues)
    }
}

/// Law: a task that does not propagate inclusion spawns children that
/// follow neither dev nor peer nor optional edges — whatever the root
/// requested, no dependency-of-a-dependency sees those kinds.
pub proof fn lemma_no_dispatch_isolates_kinds(t: SpecTask, name: Seq<char>, req: SpecRequirement)
    requires
        !t.dispatch,
    ensures
        !child_task(t, name, req).dev,
        !child_task(t, name, req).peer,
        !child_task(t, name, req).optional,
{
}

/// Law: an edge declared only among peer dependencies is followed exactly
/// when peer inclusion is on.
pub proof fn lemma_peer_edges_need_peer_flag(
    e: SpecVersion,
    dev: bool,
    optional: bool,
    n: Seq<char>,
)
    requires
        lookup_raw(e.peer_dependencies, n, 0) is Some,
        lookup_raw(e.dependencies, n, 0) is None,
        lookup_raw(e.dev_dependencies, n, 0) is None,
        lookup_raw(e.optional_dependencies, n, 0) is None,
    ensures
        spec_edge(e, dev, true, optional, n) == lookup_raw(e.peer_dependencies, n, 0),
        spec_edge(e, dev, false, optional, n) is None,
{
}

/// Law: merging never collapses versions — where both sides hold entries
/// for the same package name at different versions, the union holds both.
pub proof fn lemma_merge_keeps_both_versions(
    a: SpecResolved,
    b: SpecResolved,
    name: Seq<char>,
    v1: Seq<char>,
    v2: Seq<char>,
)
    requires
        entry_of(a, name, v1) is Some,
        entry_of(b, name, v2) is Some,
        v1 != v2,
    ensures
        union_entry(a, b, name, v1) == entry_of(a, name, v1),
        union_entry(a, b, name, v2) is Some,
{
}

} // verus!

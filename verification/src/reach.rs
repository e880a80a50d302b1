//! Reachability in the dependents graph. The cache keeps, for each builder
//! id, the set of ids that resolved it during their most recent build.
//! Invalidating an id removes the artifacts of every id reachable from it
//! along those edges; the definitions here say exactly which set that is.

use vstd::prelude::*;

verus! {

/// A walk along dependents edges: each node's successor set contains the
/// next node.
pub open spec fn path_ok(g: Map<u64, Set<u64>>, p: Seq<u64>) -> bool {
    forall|i: int|
        0 <= i < p.len() - 1 ==> g.contains_key(#[trigger] p[i]) && g[p[i]].contains(p[i + 1])
}

/// `to` lies on some walk starting at `from`; a walk of one node makes
/// every node reach itself.
pub open spec fn reaches(g: Map<u64, Set<u64>>, from: u64, to: u64) -> bool {
    exists|p: Seq<u64>|
        #![trigger path_ok(g, p)]
        path_ok(g, p) && p.len() >= 1 && p.first() == from && p.last() == to
}

/// Everything reachable from some seed, the seeds themselves included.
pub open spec fn reach_set(g: Map<u64, Set<u64>>, seeds: Set<u64>) -> Set<u64> {
    Set::new(|q: u64| exists|u: u64| seeds.contains(u) && reaches(g, u, q))
}

/// The direct dependents of `p`, or nothing when none were recorded.
pub open spec fn dep_seeds(g: Map<u64, Set<u64>>, p: u64) -> Set<u64> {
    if g.contains_key(p) {
        g[p]
    } else {
        Set::empty()
    }
}

/// Recording that `user` resolved `used` adds one reverse edge.
pub open spec fn record_edge(g: Map<u64, Set<u64>>, user: u64, used: u64) -> Map<u64, Set<u64>> {
    g.insert(used, dep_seeds(g, used).insert(user))
}

pub proof fn lemma_reaches_refl(g: Map<u64, Set<u64>>, u: u64)
    ensures
        reaches(g, u, u),
{
    let p = seq![u];
    assert(path_ok(g, p));
}

/// A walk can be extended by one edge.
pub proof fn lemma_reaches_step(g: Map<u64, Set<u64>>, from: u64, v: u64, w: u64)
    requires
        reaches(g, from, v),
        g.contains_key(v),
        g[v].contains(w),
    ensures
        reaches(g, from, w),
{
    let p = choose|p: Seq<u64>|
        #![trigger path_ok(g, p)]
        path_ok(g, p) && p.len() >= 1 && p.first() == from && p.last() == v;
    let q = p.push(w);
    assert forall|i: int| 0 <= i < q.len() - 1 implies g.contains_key(#[trigger] q[i]) && g[q[i]].contains(
        q[i + 1],
    ) by {
        if i < p.len() - 1 {
            assert(q[i] == p[i] && q[i + 1] == p[i + 1]);
        } else {
            assert(q[i] == p.last() && q[i + 1] == w);
        }
    }
    assert(path_ok(g, q) && q.first() == from && q.last() == w);
}

/// Every node of a walk whose start lies in a successor-closed set lies in
/// that set too.
proof fn lemma_path_stays(g: Map<u64, Set<u64>>, d: Set<u64>, p: Seq<u64>)
    requires
        path_ok(g, p),
        p.len() >= 1,
        d.contains(p.first()),
        forall|x: u64| d.contains(x) && g.contains_key(x) ==> (#[trigger] g[x]).subset_of(d),
    ensures
        d.contains(p.last()),
    decreases p.len(),
{
    if p.len() > 1 {
        let q = p.drop_last();
        assert forall|i: int| 0 <= i < q.len() - 1 implies g.contains_key(#[trigger] q[i])
            && g[q[i]].contains(q[i + 1]) by {
            assert(q[i] == p[i] && q[i + 1] == p[i + 1]);
        }
        lemma_path_stays(g, d, q);
        let n = p.len() - 2;
        assert(g.contains_key(p[n]) && g[p[n]].contains(p[n + 1]));
        assert(d.contains(q.last()) && q.last() == p[n]);
    }
}

/// A successor-closed set holding the seeds holds everything they reach.
pub proof fn lemma_reach_in_closed(g: Map<u64, Set<u64>>, seeds: Set<u64>, d: Set<u64>)
    requires
        seeds.subset_of(d),
        forall|x: u64| d.contains(x) && g.contains_key(x) ==> (#[trigger] g[x]).subset_of(d),
    ensures
        reach_set(g, seeds).subset_of(d),
{
    assert forall|q: u64| reach_set(g, seeds).contains(q) implies d.contains(q) by {
        let u = choose|u: u64| seeds.contains(u) && reaches(g, u, q);
        let p = choose|p: Seq<u64>|
            #![trigger path_ok(g, p)]
            path_ok(g, p) && p.len() >= 1 && p.first() == u && p.last() == q;
        lemma_path_stays(g, d, p);
    }
}

/// Recording an edge that is already present changes nothing.
pub proof fn lemma_record_edge_present(g: Map<u64, Set<u64>>, user: u64, used: u64)
    requires
        g.contains_key(used),
        g[used].contains(user),
    ensures
        record_edge(g, user, used) == g,
{
    assert(dep_seeds(g, used).insert(user) =~= g[used]);
    assert(record_edge(g, user, used) =~= g);
}

/// Recording an edge twice is the same as recording it once.
pub proof fn lemma_record_edge_idempotent(g: Map<u64, Set<u64>>, user: u64, used: u64)
    ensures
        record_edge(record_edge(g, user, used), user, used) == record_edge(g, user, used),
{
    let g1 = record_edge(g, user, used);
    let g2 = record_edge(g1, user, used);
    assert(dep_seeds(g1, used) == dep_seeds(g, used).insert(user));
    assert(dep_seeds(g1, used).insert(user) =~= dep_seeds(g, used).insert(user));
    assert(g2 =~= g1);
}

} // verus!

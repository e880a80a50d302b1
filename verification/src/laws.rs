//! The laws the cache obeys, stated over the spec functions that the
//! cache's own contracts use and proved once for every cache state. Each law
//! names the contract clauses it builds on; `pre` and `post` always stand
//! for a cache before and after the operation in question, related exactly
//! as that operation's `ensures` states.

use vstd::prelude::*;

use crate::cache::RawCache;
use crate::handle::Blueprint;
use crate::reach::lemma_reaches_refl;
use crate::reach::lemma_record_edge_idempotent;
use crate::reach::reaches;
use crate::reach::record_edge;

verus! {

/// Identity equality: two handles that share one identity — clones of one
/// original — name one and the same artifact slot. Together with `get`'s
/// hit clause, which returns the stored slot's value and leaves the cache
/// unchanged, clones of a handle receive the same artifact instance until
/// an invalidation intervenes.
pub proof fn law_identity_equality<C, S, B1, B2>(
    c: RawCache<C, S>,
    h1: Blueprint<B1>,
    h2: Blueprint<B2>,
)
    requires
        h1.spec_id() == h2.spec_id(),
        c.arts().contains_key(h1.spec_id().key()),
    ensures
        c.arts()[h1.spec_id().key()] == c.arts()[h2.spec_id().key()],
        c.arts()[h1.spec_id().key()].stamp@ == c.arts()[h2.spec_id().key()].stamp@,
{
}

/// Identity distinctness: two distinct builder ids never hold one artifact
/// instance — their stamps differ. Independently constructed handles draw
/// distinct ids from the id source, so their artifacts are distinct.
pub proof fn law_identity_distinctness<C, S>(c: RawCache<C, S>, i: u64, j: u64)
    requires
        c.wf(),
        i != j,
        c.arts().contains_key(i),
        c.arts().contains_key(j),
    ensures
        c.arts()[i].stamp@ != c.arts()[j].stamp@,
{
}

/// Cascade completeness: after `invalidate(p)`, neither `p`'s artifact nor
/// the artifact of any transitive dependent of `p` remains. The first
/// premise is `invalidate`'s ensures clause on the artifact table.
pub proof fn law_cascade_completeness<C, S>(
    pre: RawCache<C, S>,
    post: RawCache<C, S>,
    p: u64,
    q: u64,
)
    requires
        post.arts() == pre.arts().remove_keys(pre.invalidation_removed(p)),
        reaches(pre.deps(), p, q),
    ensures
        !post.arts().contains_key(q),
{
    assert(Set::<u64>::empty().insert(p).contains(p));
    assert(pre.invalidation_removed(p).contains(q));
}

/// Cascade confinement: after `invalidate(p)`, the artifact of any builder
/// that never — directly or transitively — resolved `p` is exactly the slot
/// it was before, stamp included.
pub proof fn law_cascade_confinement<C, S>(
    pre: RawCache<C, S>,
    post: RawCache<C, S>,
    p: u64,
    q: u64,
)
    requires
        post.arts() == pre.arts().remove_keys(pre.invalidation_removed(p)),
        !reaches(pre.deps(), p, q),
        pre.arts().contains_key(q),
    ensures
        post.arts().contains_key(q),
        post.arts()[q] == pre.arts()[q],
{
    assert(!pre.invalidation_removed(p).contains(q)) by {
        if pre.invalidation_removed(p).contains(q) {
            let u = choose|u: u64|
                Set::<u64>::empty().insert(p).contains(u) && reaches(pre.deps(), u, q);
            assert(u == p);
        }
    }
}

/// Dependent kill: after `get_mut(p)` or `lookup_mut(p)`, every dependent
/// of `p` that existed is absent from the store. That `p` itself is not
/// rebuilt is `get_mut`'s own hit clause, which keeps `p`'s stamp.
pub proof fn law_get_mut_dependent_kill<C, S>(
    pre: RawCache<C, S>,
    post: RawCache<C, S>,
    p: u64,
    u: u64,
)
    requires
        post.arts().dom() == pre.arts().remove_keys(pre.dependents_removed(p)).dom(),
        pre.deps().contains_key(p),
        pre.deps()[p].contains(u),
    ensures
        !post.arts().contains_key(u),
{
    let g1 = pre.deps().remove(p);
    lemma_reaches_refl(g1, u);
    assert(crate::reach::dep_seeds(pre.deps(), p).contains(u));
    assert(pre.dependents_removed(p).contains(u));
}

/// Dynamic-state persistence: invalidating `p` removes `p`'s artifact but
/// alters no dynamic state. The premises are `invalidate`'s ensures clauses
/// on the two tables; `set_dyn_state` and `dyn_state_mut` relate their
/// tables the same way before touching the one state they replace.
pub proof fn law_dyn_state_persistence<C, S>(pre: RawCache<C, S>, post: RawCache<C, S>, p: u64)
    requires
        post.arts() == pre.arts().remove_keys(pre.invalidation_removed(p)),
        post.dyns() == pre.dyns(),
    ensures
        !post.arts().contains_key(p),
        forall|k: u64|
            #[trigger] pre.dyns().contains_key(k) ==> post.dyns().contains_key(k) && post.dyns()[k]
                == pre.dyns()[k],
{
    lemma_reaches_refl(pre.deps(), p);
    assert(Set::<u64>::empty().insert(p).contains(p));
    assert(pre.invalidation_removed(p).contains(p));
}

/// Idempotent resolve: resolving the same dependency twice within one
/// build records one edge. `Resolver::resolve` records its edge with
/// `record_edge`, and recording an edge twice is recording it once.
pub proof fn law_resolve_idempotent(g: Map<u64, Set<u64>>, user: u64, used: u64)
    ensures
        record_edge(record_edge(g, user, used), user, used) == record_edge(g, user, used),
{
    lemma_record_edge_idempotent(g, user, used);
}

/// Garbage-collection soundness: collection removes exactly the reclaimed
/// set from the known builders — the count drops by its size — and every id
/// outside it keeps its entry. The premises are `garbage_collection`'s
/// ensures clauses for its reclaimed set.
pub proof fn law_gc_soundness<C, S>(pre: RawCache<C, S>, post: RawCache<C, S>, dead: Set<u64>, k: u64)
    requires
        dead.subset_of(pre.known_ids()),
        post.known_map() == pre.known_map().remove_keys(dead),
        pre.known_ids().contains(k),
        !dead.contains(k),
    ensures
        post.known_ids().contains(k),
        post.known_map()[k] == pre.known_map()[k],
{
}

} // verus!

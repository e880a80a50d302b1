//! The raw cache: four tables keyed by builder id, an orchestration of
//! build, lookup, invalidation and garbage collection over them, and the
//! resolver handed to builders while they run.

use vstd::prelude::*;

use crate::builder::Builder;
use crate::doctor::CacheEvent;
use crate::canning::CanBase;
use crate::canning::CanRef;
use crate::canning::CanRefMut;
use crate::canning::CanSized;
use crate::canning::CanStrong;
use crate::handle::Blueprint;
use crate::handle::BuilderEntry;
use crate::idmap::IdMap;
use crate::ids::BuilderId;
use crate::reach::lemma_reach_in_closed;
use crate::reach::lemma_reaches_refl;
use crate::reach::lemma_reaches_step;
use crate::reach::reach_set;
use crate::reach::reaches;
use crate::reach::lemma_record_edge_present;
use crate::reach::record_edge;
use crate::shim::upgrade_token;
use crate::shim::weak_token_target;
use crate::shim::WeakToken;

verus! {

/// A stored artifact: its carrier and, as ghost bookkeeping, the stamp of
/// the build that produced it. Stamps are never reused, so two slots with
/// one stamp hold one and the same artifact instance.
pub struct Slot<C> {
    pub can: C,
    pub stamp: Ghost<nat>,
}

/// The raw cache. It maps builder ids to artifacts, to dynamic states, to
/// the ids of their dependents, and to weak references used by garbage
/// collection.
pub struct RawCache<C, S> {
    artifacts: IdMap<Slot<C>>,
    dyn_states: IdMap<S>,
    dependents: IdMap<Vec<u64>>,
    known_builders: IdMap<WeakToken>,
    stamp_next: Ghost<nat>,
    /// Events since the last drain, recorded only when a doctor listens.
    events: Vec<CacheEvent>,
    log_events: bool,
}

impl<C, S> RawCache<C, S> {
    /// The stored artifacts by builder id.
    pub closed spec fn arts(self) -> Map<u64, Slot<C>> {
        self.artifacts@
    }

    /// The stored dynamic states by builder id.
    pub closed spec fn dyns(self) -> Map<u64, S> {
        self.dyn_states@
    }

    /// The dependents graph: each id maps to the ids that resolved it.
    pub closed spec fn deps(self) -> Map<u64, Set<u64>> {
        self.dependents@.map_values(|v: Vec<u64>| v@.to_set())
    }

    /// The weak references kept for garbage collection, by builder id.
    pub closed spec fn known_map(self) -> Map<u64, WeakToken> {
        self.known_builders@
    }

    /// The ids of all known builders.
    pub open spec fn known_ids(self) -> Set<u64> {
        self.known_map().dom()
    }

    /// Stamps at or above this bound have not been used yet.
    pub closed spec fn stamp_bound(self) -> nat {
        self.stamp_next@
    }

    /// The tables themselves are well formed.
    pub closed spec fn tables_wf(self) -> bool {
        self.artifacts.wf() && self.dyn_states.wf() && self.dependents.wf()
            && self.known_builders.wf()
    }

    /// Every kept weak reference points at the token carrying its own id.
    pub closed spec fn tokens_wf(self) -> bool {
        forall|id: u64|
            self.known_map().contains_key(id) ==> weak_token_target(
                #[trigger] self.known_map()[id],
            ) == id
    }

    /// The invariants that hold between public calls: ids with an artifact
    /// or a dynamic state are known, and stamps are fresh and pairwise
    /// distinct.
    pub open spec fn wf(self) -> bool {
        &&& self.tables_wf()
        &&& self.tokens_wf()
        &&& self.arts().dom().subset_of(self.known_ids())
        &&& self.dyns().dom().subset_of(self.known_ids())
        &&& forall|i: u64|
            #[trigger] self.arts().contains_key(i) ==> self.arts()[i].stamp@ < self.stamp_bound()
        &&& forall|i: u64, j: u64|
            self.arts().contains_key(i) && self.arts().contains_key(j) && i != j
                ==> #[trigger] self.arts()[i].stamp@ != #[trigger] self.arts()[j].stamp@
    }

    /// Known builders without artifact and without dynamic state; their weak
    /// references serve nothing and are dropped by the cleanup pass.
    pub open spec fn unused_ids(self) -> Set<u64> {
        Set::new(
            |k: u64|
                self.known_ids().contains(k) && !self.arts().contains_key(k)
                    && !self.dyns().contains_key(k),
        )
    }

    /// What one invalidation of `p` removes: everything reachable from `p`
    /// along dependents edges, `p` itself included.
    pub open spec fn invalidation_removed(self, p: u64) -> Set<u64> {
        reach_set(self.deps(), Set::empty().insert(p))
    }

    /// The weak references that invalidating `p` leaves serving nothing.
    pub open spec fn invalidated_unused(self, p: u64) -> Set<u64> {
        Set::new(
            |k: u64|
                self.known_ids().contains(k) && !self.arts().remove_keys(
                    self.invalidation_removed(p),
                ).contains_key(k) && !self.dyns().contains_key(k),
        )
    }

    /// How the cache may change under a builder's hands: artifacts are only
    /// added, never removed or replaced; dynamic states and known builders
    /// are only added; dependents edges are only added; the stamp bound only
    /// rises.
    pub open spec fn grows(self, pre: Self) -> bool {
        &&& pre.arts().submap_of(self.arts())
        &&& pre.dyns().dom().subset_of(self.dyns().dom())
        &&& pre.known_ids().subset_of(self.known_ids())
        &&& forall|p: u64|
            #[trigger] pre.deps().contains_key(p) ==> self.deps().contains_key(p)
                && pre.deps()[p].subset_of(self.deps()[p])
        &&& pre.stamp_bound() <= self.stamp_bound()
    }

    pub proof fn lemma_grows_refl(self)
        ensures
            self.grows(self),
    {
    }

    pub proof fn lemma_grows_trans(self, mid: Self, pre: Self)
        requires
            self.grows(mid),
            mid.grows(pre),
        ensures
            self.grows(pre),
    {
        assert forall|k: u64| #[trigger] pre.arts().dom().contains(k) implies self.arts().dom().contains(
            k,
        ) && self.arts()[k] == pre.arts()[k] by {
            let m = mid.arts().dom().contains(k);
            let f = self.arts().dom().contains(k);
            assert(mid.arts().dom().contains(k) && mid.arts()[k] == pre.arts()[k]);
        }
        assert forall|k: u64| pre.dyns().dom().contains(k) implies self.dyns().dom().contains(
            k,
        ) by {
            assert(mid.dyns().dom().contains(k));
        }
        assert forall|k: u64| pre.known_ids().contains(k) implies self.known_ids().contains(k) by {
            assert(mid.known_ids().contains(k));
        }
        assert forall|p: u64| pre.deps().contains_key(p) implies self.deps().contains_key(p)
            && pre.deps()[p].subset_of(self.deps()[p]) by {
            assert(mid.deps().contains_key(p) && pre.deps()[p].subset_of(mid.deps()[p]));
            assert forall|x: u64| pre.deps()[p].contains(x) implies self.deps()[p].contains(x) by {
                assert(mid.deps()[p].contains(x));
            }
        }
    }

    /// Creates a new empty cache.
    pub fn new() -> (c: Self)
        ensures
            c.wf(),
            c.arts() == Map::<u64, Slot<C>>::empty(),
            c.dyns() == Map::<u64, S>::empty(),
            c.deps() == Map::<u64, Set<u64>>::empty(),
            c.known_ids() == Set::<u64>::empty(),
    {
        let c = RawCache {
            artifacts: IdMap::new(),
            dyn_states: IdMap::new(),
            dependents: IdMap::new(),
            known_builders: IdMap::new(),
            stamp_next: Ghost(0),
            events: Vec::new(),
            log_events: false,
        };
        proof {
            assert(c.deps() =~= Map::<u64, Set<u64>>::empty());
            assert(c.known_ids() =~= Set::<u64>::empty());
        }
        c
    }

    /// Creates a new empty cache that records events for a doctor.
    pub(crate) fn new_logging() -> (c: Self)
        ensures
            c.wf(),
            c.arts() == Map::<u64, Slot<C>>::empty(),
            c.dyns() == Map::<u64, S>::empty(),
            c.deps() == Map::<u64, Set<u64>>::empty(),
            c.known_ids() == Set::<u64>::empty(),
    {
        let mut c = Self::new();
        c.log_events = true;
        c
    }

    /// Hands the recorded events out and forgets them.
    pub(crate) fn take_events(&mut self) -> (evs: Vec<CacheEvent>)
        ensures
            final(self).wf() == old(self).wf(),
            final(self).arts() == old(self).arts(),
            final(self).dyns() == old(self).dyns(),
            final(self).deps() == old(self).deps(),
            final(self).known_map() == old(self).known_map(),
            final(self).stamp_bound() == old(self).stamp_bound(),
    {
        let mut evs: Vec<CacheEvent> = Vec::new();
        core::mem::swap(&mut self.events, &mut evs);
        evs
    }

    /// Returns the number of currently known builders.
    pub fn number_of_known_builders(&self) -> (n: usize)
        requires
            self.wf(),
        ensures
            n == self.known_ids().len(),
    {
        self.known_builders.len()
    }

    /// Record the dependency of `user` upon `used`: one edge, recorded once.
    pub(crate) fn track_dependency(&mut self, user: BuilderId, used: BuilderId)
        requires
            old(self).wf(),
        ensures
            final(self).wf(),
            final(self).deps() == record_edge(old(self).deps(), user.key(), used.key()),
            final(self).arts() == old(self).arts(),
            final(self).dyns() == old(self).dyns(),
            final(self).known_map() == old(self).known_map(),
            final(self).stamp_bound() == old(self).stamp_bound(),
    {
        let u = user.0;
        let p = used.0;
        let ghost pre = *self;
        if self.dependents.contains(p) {
            let ghost old_vec = self.dependents@[p];
            let vref = self.dependents.get_mut(p);
            let already = vec_contains(vref, u);
            if !already {
                vref.push(u);
            }
            proof {
                let new_vec = self.dependents@[p];
                lemma_map_values_insert(pre.dependents@, p, new_vec);
                if old_vec@.to_set().contains(u) {
                    assert(new_vec == old_vec);
                    assert(new_vec@.to_set() =~= old_vec@.to_set().insert(u));
                } else {
                    assert(new_vec@ == old_vec@.push(u));
                    lemma_to_set_push(old_vec@, u);
                }
                assert(pre.deps().contains_key(p) && pre.deps()[p] == old_vec@.to_set());
                assert(self.deps() =~= record_edge(pre.deps(), u, p));
            }
        } else {
            let mut v: Vec<u64> = Vec::new();
            v.push(u);
            self.dependents.insert(p, v);
            proof {
                let new_vec = self.dependents@[p];
                lemma_map_values_insert(pre.dependents@, p, new_vec);
                lemma_to_set_push(Seq::<u64>::empty(), u);
                assert(Seq::<u64>::empty().to_set() =~= Set::<u64>::empty());
                assert(new_vec@ == Seq::<u64>::empty().push(u));
                assert(!pre.deps().contains_key(p));
                assert(self.deps() =~= record_edge(pre.deps(), u, p));
            }
        }
    }

    /// Enlist the promise's builder among the known builders, storing a weak
    /// reference to it if none is kept yet.
    pub(crate) fn make_builder_known<B>(&mut self, promise: &Blueprint<B>)
        requires
            old(self).wf(),
        ensures
            final(self).wf(),
            final(self).known_ids() == old(self).known_ids().insert(promise.spec_id().key()),
            old(self).known_ids().contains(promise.spec_id().key()) ==> final(self).known_map()
                == old(self).known_map(),
            final(self).arts() == old(self).arts(),
            final(self).dyns() == old(self).dyns(),
            final(self).deps() == old(self).deps(),
            final(self).stamp_bound() == old(self).stamp_bound(),
    {
        let id = promise.id().0;
        if !self.known_builders.contains(id) {
            let token = promise.token_ref();
            self.known_builders.insert(id, token);
        } else {
            proof {
                assert(final(self).known_ids() =~= old(self).known_ids().insert(id));
            }
        }
    }

    /// Ensure a dynamic state exists for the promise's builder, creating the
    /// initial one on demand.
    fn ensure_dyn_state<B: Builder<C, S>>(&mut self, promise: &Blueprint<B>)
        requires
            old(self).wf(),
            old(self).known_ids().contains(promise.spec_id().key()),
        ensures
            final(self).wf(),
            final(self).dyns().dom() == old(self).dyns().dom().insert(promise.spec_id().key()),
            forall|k: u64|
                old(self).dyns().contains_key(k) ==> final(self).dyns()[k] == old(self).dyns()[k],
            final(self).arts() == old(self).arts(),
            final(self).deps() == old(self).deps(),
            final(self).known_map() == old(self).known_map(),
            final(self).stamp_bound() == old(self).stamp_bound(),
    {
        let id = promise.id().0;
        if !self.dyn_states.contains(id) {
            let s = promise.builder().init_dyn_state();
            self.dyn_states.insert(id, s);
        } else {
            proof {
                assert(final(self).dyns().dom() =~= old(self).dyns().dom().insert(id));
            }
        }
    }

    /// Remove the artifacts and dependents entries of everything reachable
    /// from the seeds in the dependents graph, the seeds included.
    fn cascade(&mut self, work: Vec<u64>)
        requires
            old(self).wf(),
        ensures
            final(self).wf(),
            final(self).arts() == old(self).arts().remove_keys(
                reach_set(old(self).deps(), work@.to_set()),
            ),
            final(self).deps() == old(self).deps().remove_keys(
                reach_set(old(self).deps(), work@.to_set()),
            ),
            final(self).dyns() == old(self).dyns(),
            final(self).known_map() == old(self).known_map(),
            final(self).stamp_bound() == old(self).stamp_bound(),
    {
        let ghost g0 = self.deps();
        let ghost a0 = self.arts();
        let ghost pre = *self;
        let ghost seeds = work@.to_set();
        let ghost r = reach_set(g0, seeds);
        let mut work = work;
        let ghost mut done: Set<u64> = Set::empty();
        proof {
            assert(self.deps() =~= g0.remove_keys(done));
            assert(self.arts() =~= a0.remove_keys(done));
            assert forall|u: u64| seeds.contains(u) implies r.contains(u) by {
                lemma_reaches_refl(g0, u);
            }
        }
        while work.len() > 0
            invariant
                self.wf(),
                self.dyns() == pre.dyns(),
                self.known_map() == pre.known_map(),
                self.stamp_bound() == pre.stamp_bound(),
                g0 == pre.deps(),
                a0 == pre.arts(),
                r == reach_set(g0, seeds),
                done.subset_of(r),
                work@.to_set().subset_of(r),
                seeds.subset_of(done.union(work@.to_set())),
                forall|d: u64|
                    done.contains(d) && g0.contains_key(d) ==> (#[trigger] g0[d]).subset_of(
                        done.union(work@.to_set()),
                    ),
                self.deps() == g0.remove_keys(done),
                self.arts() == a0.remove_keys(done),
            decreases self.deps().dom().len(), work@.len(),
        {
            let ghost deps_before = self.deps();
            let ghost dmap_before = self.dependents@;
            let ghost work_before = work@;
            proof {
                self.dependents.lemma_wf_len();
                assert(deps_before.dom() =~= dmap_before.dom());
            }
            let q = work.pop().unwrap();
            let ghost work_after_pop = work@;
            proof {
                assert(work_before[work_before.len() - 1] == q);
                assert(work_before.to_set().contains(q));
            }
            let removed = self.dependents.remove(q);
            self.artifacts.remove(q);
            proof {
                lemma_map_values_remove(dmap_before, q);
            }
            match removed {
                Some(dep_vec) => {
                    proof {
                        assert(dmap_before.contains_key(q) && dep_vec == dmap_before[q]);
                        assert(deps_before.contains_key(q));
                        assert(deps_before[q] == dep_vec@.to_set());
                        assert(!done.contains(q));
                        assert(g0.contains_key(q) && g0[q] == dep_vec@.to_set());
                        assert(self.dependents@.dom() =~= dmap_before.dom().remove(q));
                    }
                    let n = dep_vec.len();
                    let mut k: usize = 0;
                    let ghost w1 = work@;
                    while k < n
                        invariant
                            k <= n,
                            n == dep_vec@.len(),
                            work@ == w1 + dep_vec@.take(k as int),
                        decreases n - k,
                    {
                        work.push(dep_vec[k]);
                        proof {
                            assert(work@ =~= w1 + dep_vec@.take(k as int + 1));
                        }
                        k = k + 1;
                    }
                    proof {
                        assert(dep_vec@.take(n as int) =~= dep_vec@);
                        assert(work@ == w1 + dep_vec@);
                        assert forall|x: u64| work@.to_set().contains(x) implies w1.to_set().contains(
                            x,
                        ) || dep_vec@.to_set().contains(x) by {
                            let i = choose|i: int| 0 <= i < work@.len() && work@[i] == x;
                            if i < w1.len() {
                                assert(w1[i] == x);
                            } else {
                                assert(dep_vec@[i - w1.len()] == x);
                            }
                        }
                        assert forall|x: u64|
                            w1.to_set().contains(x) || dep_vec@.to_set().contains(
                                x,
                            ) implies work@.to_set().contains(x) by {
                            if w1.to_set().contains(x) {
                                let i = choose|i: int| 0 <= i < w1.len() && w1[i] == x;
                                assert(work@[i] == x);
                            } else {
                                let i = choose|i: int| 0 <= i < dep_vec@.len() && dep_vec@[i] == x;
                                assert(work@[w1.len() + i] == x);
                            }
                        }
                        assert(work@.to_set() =~= work_after_pop.to_set().union(
                            dep_vec@.to_set(),
                        ));
                        assert(work_after_pop.to_set().subset_of(work@.to_set()));
                        // Everything newly pushed is reachable via `q`.
                        assert forall|x: u64| work@.to_set().contains(x) implies r.contains(x) by {
                            if work_after_pop.to_set().contains(x) {
                                lemma_drop_last_subset(work_before);
                            } else {
                                let u = choose|u: u64| seeds.contains(u) && reaches(g0, u, q);
                                lemma_reaches_step(g0, u, q, x);
                            }
                        }
                        // The popped entry's successors all sit on the worklist.
                        assert(g0[q].subset_of(work@.to_set()));
                    }
                },
                None => {
                    proof {
                        assert(!deps_before.contains_key(q));
                        assert(self.dependents@.dom() =~= dmap_before.dom());
                        lemma_drop_last_subset(work_before);
                        assert(work_after_pop.to_set().subset_of(work@.to_set()));
                    }
                },
            }
            proof {
                let done2 = done.insert(q);
                // Whatever survived the pop is still accounted for.
                assert forall|x: u64|
                    done.union(work_before.to_set()).contains(x) implies done2.union(
                    work@.to_set(),
                ).contains(x) by {
                    if !done.contains(x) && x != q {
                        if work_after_pop.to_set().contains(x) {
                        } else {
                            lemma_pop_keeps_rest(work_before, work_after_pop, x, q);
                        }
                    }
                }
                // The tables shed exactly the processed ids.
                assert(self.deps() =~= g0.remove_keys(done2));
                assert(self.arts() =~= a0.remove_keys(done2));
                // Processed ids stay closed under successors.
                assert forall|d: u64|
                    done2.contains(d) && g0.contains_key(d) implies (#[trigger] g0[d]).subset_of(
                    done2.union(work@.to_set()),
                ) by {
                    if d == q && !done.contains(q) && deps_before.contains_key(q) {
                        assert(g0[q].subset_of(work@.to_set()));
                    } else if d == q && !done.contains(q) {
                        assert(!g0.contains_key(q) || done.contains(q));
                    } else {
                        assert(g0[d].subset_of(done.union(work_before.to_set())));
                    }
                }
                assert(seeds.subset_of(done2.union(work@.to_set())));
                done = done2;
            }
        }
        proof {
            assert(work@.to_set() =~= Set::<u64>::empty());
            assert(seeds.subset_of(done));
            assert forall|d: u64| done.contains(d) && g0.contains_key(d) implies (
            #[trigger] g0[d]).subset_of(done) by {
                assert(g0[d].subset_of(done.union(work@.to_set())));
            }
            lemma_reach_in_closed(g0, seeds, done);
            assert(done =~= r);
        }
    }

    /// Drop the weak reference of every known builder that has neither an
    /// artifact nor a dynamic state left.
    fn cleanup_unused_weak_refs(&mut self)
        requires
            old(self).wf(),
        ensures
            final(self).wf(),
            final(self).known_map() == old(self).known_map().remove_keys(old(self).unused_ids()),
            final(self).arts() == old(self).arts(),
            final(self).dyns() == old(self).dyns(),
            final(self).deps() == old(self).deps(),
            final(self).stamp_bound() == old(self).stamp_bound(),
    {
        let ghost pre = *self;
        let mut drop_keys: Vec<u64> = Vec::new();
        let n = self.known_builders.entry_count();
        let mut i: usize = 0;
        while i < n
            invariant
                *self == pre,
                pre.wf(),
                i <= n,
                n == pre.known_builders.entries_seq().len(),
                drop_keys@.no_duplicates(),
                drop_keys@.to_set() == Set::new(
                    |x: u64|
                        exists|j: int|
                            0 <= j < i && (#[trigger] pre.known_builders.entries_seq()[j]).0 == x
                                && pre.unused_ids().contains(x),
                ),
            decreases n - i,
        {
            let k = self.known_builders.key_at(i);
            let has_art = self.artifacts.contains(k);
            let has_dyn = self.dyn_states.contains(k);
            let ghost keys_seq = drop_keys@;
            let ghost keys_so_far = drop_keys@.to_set();
            if !has_art && !has_dyn {
                proof {
                    assert(pre.unused_ids().contains(k));
                    if keys_so_far.contains(k) {
                        let j = choose|j: int|
                            0 <= j < i && (#[trigger] pre.known_builders.entries_seq()[j]).0 == k
                                && pre.unused_ids().contains(k);
                        pre.known_builders.lemma_keys_distinct(j, i as int);
                        assert(false);
                    }
                }
                drop_keys.push(k);
                proof {
                    lemma_to_set_push(keys_seq, k);
                }
            }
            i = i + 1;
            proof {
                assert(drop_keys@.to_set() =~= Set::new(
                    |x: u64|
                        exists|j: int|
                            0 <= j < i && (#[trigger] pre.known_builders.entries_seq()[j]).0 == x
                                && pre.unused_ids().contains(x),
                ));
            }
        }
        proof {
            assert forall|x: u64| pre.unused_ids().contains(x) implies drop_keys@.to_set().contains(
                x,
            ) by {
                pre.known_builders.lemma_contains_position(x);
            }
            assert(drop_keys@.to_set() =~= pre.unused_ids());
        }
        let m = drop_keys.len();
        let ghost k0 = self.known_builders@;
        let mut j: usize = 0;
        while j < m
            invariant
                self.wf(),
                j <= m,
                m == drop_keys@.len(),
                drop_keys@.no_duplicates(),
                drop_keys@.to_set() == pre.unused_ids(),
                self.artifacts@ == pre.artifacts@,
                self.dyn_states@ == pre.dyn_states@,
                self.dependents@ == pre.dependents@,
                self.stamp_next == pre.stamp_next,
                k0 == pre.known_builders@,
                self.known_builders@ == k0.remove_keys(drop_keys@.take(j as int).to_set()),
            decreases m - j,
        {
            let k = drop_keys[j];
            self.known_builders.remove(k);
            proof {
                assert(drop_keys@.take(j as int + 1) =~= drop_keys@.take(j as int).push(k));
                lemma_to_set_push(drop_keys@.take(j as int), k);
                assert(self.known_builders@ =~= k0.remove_keys(
                    drop_keys@.take(j as int + 1).to_set(),
                ));
                assert(drop_keys@.to_set().contains(k));
                assert(!pre.arts().contains_key(k) && !pre.dyns().contains_key(k));
            }
            j = j + 1;
        }
        proof {
            assert(drop_keys@.take(m as int) =~= drop_keys@);
            assert(final(self).known_map() =~= pre.known_map().remove_keys(pre.unused_ids()));
        }
    }

    /// Removes the given builder's artifact and, transitively, the artifacts
    /// of everything that depended on it. Dynamic states survive; weak
    /// references that serve nothing any more are dropped.
    pub fn invalidate<B: Builder<C, S>>(&mut self, promise: &Blueprint<B>)
        requires
            old(self).wf(),
        ensures
            final(self).wf(),
            final(self).arts() == old(self).arts().remove_keys(
                old(self).invalidation_removed(promise.spec_id().key()),
            ),
            final(self).deps() == old(self).deps().remove_keys(
                old(self).invalidation_removed(promise.spec_id().key()),
            ),
            final(self).dyns() == old(self).dyns(),
            final(self).stamp_bound() == old(self).stamp_bound(),
            final(self).known_map() == old(self).known_map().remove_keys(
                old(self).invalidated_unused(promise.spec_id().key()),
            ),
    {
        if self.log_events {
            self.events.push(CacheEvent::Invalidate { builder: promise.id() });
        }
        let mut work: Vec<u64> = Vec::new();
        work.push(promise.id().0);
        proof {
            lemma_to_set_push(Seq::<u64>::empty(), promise.spec_id().key());
            assert(work@.to_set() =~= Set::<u64>::empty().insert(promise.spec_id().key()));
        }
        self.cascade(work);
        let ghost mid = *self;
        self.cleanup_unused_weak_refs();
        proof {
            assert(mid.unused_ids() =~= old(self).invalidated_unused(promise.spec_id().key()));
        }
    }

    /// Removes the artifacts of the given builder's dependents, leaving the
    /// builder's own artifact in place.
    fn invalidate_dependents(&mut self, id: u64)
        requires
            old(self).wf(),
        ensures
            final(self).wf(),
            final(self).arts() == old(self).arts().remove_keys(
                reach_set(
                    old(self).deps().remove(id),
                    crate::reach::dep_seeds(old(self).deps(), id),
                ),
            ),
            final(self).deps() == old(self).deps().remove(id).remove_keys(
                reach_set(
                    old(self).deps().remove(id),
                    crate::reach::dep_seeds(old(self).deps(), id),
                ),
            ),
            final(self).dyns() == old(self).dyns(),
            final(self).known_map() == old(self).known_map(),
            final(self).stamp_bound() == old(self).stamp_bound(),
    {
        let ghost dmap_before = self.dependents@;
        let removed = self.dependents.remove(id);
        proof {
            lemma_map_values_remove(dmap_before, id);
        }
        match removed {
            Some(dep_vec) => {
                proof {
                    assert(crate::reach::dep_seeds(old(self).deps(), id) == dep_vec@.to_set());
                }
                self.cascade(dep_vec);
            },
            None => {
                proof {
                    assert(!old(self).deps().contains_key(id));
                    assert(old(self).deps().remove(id) =~= old(self).deps());
                    let seeds = crate::reach::dep_seeds(old(self).deps(), id);
                    assert(seeds =~= Set::<u64>::empty());
                    assert forall|x: u64| !reach_set(
                        old(self).deps().remove(id),
                        seeds,
                    ).contains(x) by {
                    }
                    assert(final(self).arts() =~= old(self).arts().remove_keys(
                        reach_set(old(self).deps().remove(id), seeds),
                    ));
                    assert(final(self).deps() =~= old(self).deps().remove(id).remove_keys(
                        reach_set(old(self).deps().remove(id), seeds),
                    ));
                }
            },
        }
    }

    /// Drops all artifacts and all dependents edges. Dynamic states are
    /// retained; weak references serving nothing any more are dropped.
    pub fn clear_artifacts(&mut self)
        requires
            old(self).wf(),
        ensures
            final(self).wf(),
            final(self).arts() == Map::<u64, Slot<C>>::empty(),
            final(self).deps() == Map::<u64, Set<u64>>::empty(),
            final(self).dyns() == old(self).dyns(),
            final(self).stamp_bound() == old(self).stamp_bound(),
            final(self).known_map() == old(self).known_map().remove_keys(
                Set::new(
                    |k: u64|
                        old(self).known_ids().contains(k) && !old(self).dyns().contains_key(k),
                ),
            ),
    {
        self.artifacts.clear();
        self.dependents.clear();
        let ghost mid = *self;
        proof {
            assert(mid.deps() =~= Map::<u64, Set<u64>>::empty());
        }
        self.cleanup_unused_weak_refs();
        proof {
            assert(mid.unused_ids() =~= Set::new(
                |k: u64| old(self).known_ids().contains(k) && !old(self).dyns().contains_key(k),
            ));
        }
    }

    /// Clears the entire cache: artifacts, dynamic states, dependents edges
    /// and known builders.
    pub fn clear_all(&mut self)
        requires
            old(self).wf(),
        ensures
            final(self).wf(),
            final(self).arts() == Map::<u64, Slot<C>>::empty(),
            final(self).deps() == Map::<u64, Set<u64>>::empty(),
            final(self).dyns() == Map::<u64, S>::empty(),
            final(self).known_ids() == Set::<u64>::empty(),
            final(self).stamp_bound() == old(self).stamp_bound(),
    {
        if self.log_events {
            self.events.push(CacheEvent::Clear);
        }
        self.artifacts.clear();
        self.dyn_states.clear();
        self.dependents.clear();
        self.known_builders.clear();
        proof {
            assert(final(self).deps() =~= Map::<u64, Set<u64>>::empty());
            assert(final(self).known_ids() =~= Set::<u64>::empty());
        }
    }

    /// Removes every trace of the given builder: its artifact, its dynamic
    /// state, its weak reference, and — through the cascade — the artifacts
    /// of everything that depended on it.
    pub fn purge<B: Builder<C, S>>(&mut self, promise: &Blueprint<B>)
        requires
            old(self).wf(),
        ensures
            final(self).wf(),
            final(self).arts() == old(self).arts().remove_keys(
                old(self).invalidation_removed(promise.spec_id().key()),
            ),
            final(self).deps() == old(self).deps().remove_keys(
                old(self).invalidation_removed(promise.spec_id().key()),
            ),
            final(self).dyns() == old(self).dyns().remove(promise.spec_id().key()),
            final(self).stamp_bound() == old(self).stamp_bound(),
            !final(self).known_ids().contains(promise.spec_id().key()),
            final(self).known_ids().subset_of(old(self).known_ids()),
    {
        let id = promise.id().0;
        self.known_builders.remove(id);
        self.artifacts.remove(id);
        self.dyn_states.remove(id);
        let ghost mid = *self;
        self.invalidate(promise);
        proof {
            let rr = reach_set(old(self).deps(), Set::empty().insert(id));
            assert(mid.deps() == old(self).deps());
            lemma_reaches_refl(old(self).deps(), id);
            assert(Set::<u64>::empty().insert(id).contains(id));
            assert(rr.contains(id));
            assert(final(self).arts() =~= old(self).arts().remove_keys(rr));
            assert(final(self).dyns() =~= old(self).dyns().remove(id));
        }
    }

    /// Reclaims every builder that can no longer be built because no strong
    /// handle to it is left: its artifact and the artifacts of its
    /// dependents, its dynamic state and its weak reference all go. Which
    /// builders those are depends on the handles alive at the call; the
    /// count of known builders drops by exactly their number.
    pub fn garbage_collection(&mut self)
        requires
            old(self).wf(),
        ensures
            final(self).wf(),
            exists|dead: Set<u64>|
                {
                    &&& dead.subset_of(old(self).known_ids())
                    &&& final(self).arts() == old(self).arts().remove_keys(
                        reach_set(old(self).deps(), dead),
                    )
                    &&& final(self).deps() == old(self).deps().remove_keys(
                        reach_set(old(self).deps(), dead),
                    )
                    &&& final(self).dyns() == old(self).dyns().remove_keys(dead)
                    &&& final(self).known_map() == old(self).known_map().remove_keys(dead)
                    &&& final(self).known_ids().len() + dead.len() == old(self).known_ids().len()
                    &&& final(self).stamp_bound() == old(self).stamp_bound()
                },
    {
        let ghost pre = *self;
        let mut dead_keys: Vec<u64> = Vec::new();
        let n = self.known_builders.entry_count();
        let mut i: usize = 0;
        while i < n
            invariant
                *self == pre,
                pre.wf(),
                i <= n,
                n == pre.known_builders.entries_seq().len(),
                dead_keys@.no_duplicates(),
                forall|x: u64|
                    dead_keys@.to_set().contains(x) ==> exists|j: int|
                        0 <= j < i && (#[trigger] pre.known_builders.entries_seq()[j]).0 == x,
            decreases n - i,
        {
            let k = self.known_builders.key_at(i);
            let token = self.known_builders.val_at(i);
            let ghost keys_seq = dead_keys@;
            let ghost keys_so_far = dead_keys@.to_set();
            match upgrade_token(token) {
                Some(_) => {},
                None => {
                    proof {
                        if keys_so_far.contains(k) {
                            let j = choose|j: int|
                                0 <= j < i && (#[trigger] pre.known_builders.entries_seq()[j]).0
                                    == k;
                            pre.known_builders.lemma_keys_distinct(j, i as int);
                            assert(false);
                        }
                    }
                    dead_keys.push(k);
                    proof {
                        lemma_to_set_push(keys_seq, k);
                    }
                },
            }
            i = i + 1;
        }
        let ghost dead = dead_keys@.to_set();
        proof {
            assert forall|x: u64| dead.contains(x) implies pre.known_ids().contains(x) by {
                pre.known_builders.lemma_contains_position(x);
            }
        }
        // Feed a copy of the dead ids to the cascade, keeping the list for
        // the table removals that follow.
        let mut seeds: Vec<u64> = Vec::new();
        let m = dead_keys.len();
        let mut j: usize = 0;
        while j < m
            invariant
                *self == pre,
                j <= m,
                m == dead_keys@.len(),
                seeds@ == dead_keys@.take(j as int),
            decreases m - j,
        {
            seeds.push(dead_keys[j]);
            proof {
                assert(seeds@ =~= dead_keys@.take(j as int + 1));
            }
            j = j + 1;
        }
        proof {
            assert(dead_keys@.take(m as int) =~= dead_keys@);
        }
        self.cascade(seeds);
        let ghost mid = *self;
        proof {
            mid.known_builders.lemma_wf_len();
            assert forall|x: u64| dead.contains(x) implies !mid.arts().contains_key(x) by {
                lemma_reaches_refl(pre.deps(), x);
                assert(reach_set(pre.deps(), dead).contains(x));
            }
        }
        let mut j2: usize = 0;
        while j2 < m
            invariant
                self.wf(),
                j2 <= m,
                m == dead_keys@.len(),
                dead_keys@.no_duplicates(),
                dead == dead_keys@.to_set(),
                dead.subset_of(pre.known_ids()),
                mid.known_map() == pre.known_map(),
                mid.arts() == pre.arts().remove_keys(reach_set(pre.deps(), dead)),
                forall|x: u64| #[trigger] dead.contains(x) ==> !mid.arts().contains_key(x),
                self.artifacts@ == mid.artifacts@,
                self.dependents@ == mid.dependents@,
                self.stamp_next == mid.stamp_next,
                self.dyn_states@ == mid.dyns().remove_keys(dead_keys@.take(j2 as int).to_set()),
                self.known_builders@ == mid.known_map().remove_keys(
                    dead_keys@.take(j2 as int).to_set(),
                ),
                self.known_builders@.dom().len() + j2 == mid.known_map().dom().len(),
            decreases m - j2,
        {
            let k = dead_keys[j2];
            proof {
                assert(dead.contains(k));
                assert(mid.known_map().contains_key(k));
                assert forall|t: int| 0 <= t < j2 implies dead_keys@[t] != k by {}
                assert(!dead_keys@.take(j2 as int).to_set().contains(k));
                assert(self.known_builders@.contains_key(k));
                self.known_builders.lemma_wf_len();
            }
            self.dyn_states.remove(k);
            self.known_builders.remove(k);
            proof {
                assert(dead_keys@.take(j2 as int + 1) =~= dead_keys@.take(j2 as int).push(k));
                lemma_to_set_push(dead_keys@.take(j2 as int), k);
                assert(self.dyn_states@ =~= mid.dyns().remove_keys(
                    dead_keys@.take(j2 as int + 1).to_set(),
                ));
                assert(self.known_builders@ =~= mid.known_map().remove_keys(
                    dead_keys@.take(j2 as int + 1).to_set(),
                ));
            }
            j2 = j2 + 1;
        }
        proof {
            assert(dead_keys@.take(m as int) =~= dead_keys@);
            assert(final(self).dyns() =~= pre.dyns().remove_keys(dead));
            assert(final(self).known_map() =~= pre.known_map().remove_keys(dead));
            dead_keys@.unique_seq_to_set();
            final(self).known_builders.lemma_wf_len();
            pre.known_builders.lemma_wf_len();
            assert(final(self).known_ids().len() + dead.len() == pre.known_ids().len());
        }
    }

    /// Read-only, non-creating access to the builder's dynamic state.
    pub fn get_dyn_state<B: Builder<C, S>>(&self, promise: &Blueprint<B>) -> (r: Option<&S>)
        requires
            self.wf(),
        ensures
            match r {
                Some(s) => self.dyns().contains_key(promise.spec_id().key()) && *s == self.dyns()[
                    promise.spec_id().key()
                ],
                None => !self.dyns().contains_key(promise.spec_id().key()),
            },
    {
        self.dyn_states.get(promise.id().0)
    }

    /// Shared borrow of the builder's dynamic state, creating the initial
    /// state on demand. Nothing is invalidated.
    pub fn dyn_state<B: Builder<C, S>>(&mut self, promise: &Blueprint<B>) -> (r: &S)
        requires
            old(self).wf(),
        ensures
            final(self).wf(),
            final(self).dyns().dom() == old(self).dyns().dom().insert(promise.spec_id().key()),
            forall|k: u64|
                old(self).dyns().contains_key(k) ==> final(self).dyns()[k] == old(self).dyns()[k],
            *r == final(self).dyns()[promise.spec_id().key()],
            old(self).dyns().contains_key(promise.spec_id().key()) ==> *r == old(self).dyns()[
                promise.spec_id().key()
            ],
            final(self).arts() == old(self).arts(),
            final(self).deps() == old(self).deps(),
            final(self).known_ids() == old(self).known_ids().insert(promise.spec_id().key()),
            final(self).stamp_bound() == old(self).stamp_bound(),
    {
        self.make_builder_known(promise);
        self.ensure_dyn_state(promise);
        let id = promise.id().0;
        let r = self.dyn_states.get(id);
        r.unwrap()
    }

    /// Exclusive borrow of the builder's dynamic state, creating the initial
    /// state on demand. Mutating the state may change future builds, so the
    /// builder's artifact is invalidated first, dependents cascading.
    pub fn dyn_state_mut<B: Builder<C, S>>(&mut self, promise: &Blueprint<B>) -> (r: &mut S)
        requires
            old(self).wf(),
        ensures
            final(self).wf(),
            final(self).arts() == old(self).arts().remove_keys(
                old(self).invalidation_removed(promise.spec_id().key()),
            ),
            final(self).deps() == old(self).deps().remove_keys(
                old(self).invalidation_removed(promise.spec_id().key()),
            ),
            final(self).stamp_bound() == old(self).stamp_bound(),
            final(self).known_ids() == old(self).known_map().remove_keys(
                old(self).invalidated_unused(promise.spec_id().key()),
            ).dom().insert(promise.spec_id().key()),
            final(self).dyns().dom() == old(self).dyns().dom().insert(promise.spec_id().key()),
            forall|k: u64|
                k != promise.spec_id().key() && old(self).dyns().contains_key(k)
                    ==> final(self).dyns()[k] == old(self).dyns()[k],
            final(self).dyns()[promise.spec_id().key()] == *final(r),
            old(self).dyns().contains_key(promise.spec_id().key()) ==> *r == old(self).dyns()[
                promise.spec_id().key()
            ],
    {
        self.invalidate(promise);
        self.make_builder_known(promise);
        self.ensure_dyn_state(promise);
        let id = promise.id().0;
        let ghost d0 = self.dyns();
        proof {
            assert forall|v: S| (#[trigger] d0.insert(id, v)).dom() =~= d0.dom() by {
                assert(d0.contains_key(id));
            }
        }
        self.dyn_states.get_mut(id)
    }

    /// Replaces the builder's dynamic state. The replacement may change
    /// future builds, so the builder's artifact is invalidated first,
    /// dependents cascading.
    pub fn set_dyn_state<B: Builder<C, S>>(&mut self, promise: &Blueprint<B>, state: S)
        requires
            old(self).wf(),
        ensures
            final(self).wf(),
            final(self).arts() == old(self).arts().remove_keys(
                old(self).invalidation_removed(promise.spec_id().key()),
            ),
            final(self).deps() == old(self).deps().remove_keys(
                old(self).invalidation_removed(promise.spec_id().key()),
            ),
            final(self).stamp_bound() == old(self).stamp_bound(),
            final(self).known_ids() == old(self).known_map().remove_keys(
                old(self).invalidated_unused(promise.spec_id().key()),
            ).dom().insert(promise.spec_id().key()),
            final(self).dyns() == old(self).dyns().insert(promise.spec_id().key(), state),
    {
        self.invalidate(promise);
        self.make_builder_known(promise);
        self.dyn_states.insert(promise.id().0, state);
    }

    /// What `lookup_mut` and `get_mut` remove before handing out the
    /// artifact: the dependents of `p`, transitively, but not `p` itself.
    pub open spec fn dependents_removed(self, p: u64) -> Set<u64> {
        reach_set(self.deps().remove(p), crate::reach::dep_seeds(self.deps(), p))
    }

    /// Get the stored artifact bin if it exists.
    pub fn lookup<B>(&self, promise: &Blueprint<B>) -> (r: Option<C::Bin>)
        where B: Builder<C, S>, C: CanStrong,
        requires
            self.wf(),
        ensures
            match r {
                Some(bin) => self.arts().contains_key(promise.spec_id().key()) && C::bin_value(bin)
                    == self.arts()[promise.spec_id().key()].can.value(),
                None => !self.arts().contains_key(promise.spec_id().key()),
            },
    {
        match self.artifacts.get(promise.id().0) {
            Some(slot) => Some(slot.can.clone_bin()),
            None => None,
        }
    }

    /// Get a borrow of the stored artifact if it exists.
    pub fn lookup_ref<B>(&self, promise: &Blueprint<B>) -> (r: Option<&B::Artifact>)
        where B: Builder<C, S>, C: CanRef + CanBase<Inner = B::Artifact>,
        requires
            self.wf(),
        ensures
            match r {
                Some(a) => self.arts().contains_key(promise.spec_id().key()) && *a == self.arts()[
                    promise.spec_id().key()
                ].can.value(),
                None => !self.arts().contains_key(promise.spec_id().key()),
            },
    {
        match self.artifacts.get(promise.id().0) {
            Some(slot) => Some(slot.can.peek()),
            None => None,
        }
    }

    /// Get a clone of the stored artifact's value if it exists.
    pub fn lookup_cloned<B>(&self, promise: &Blueprint<B>) -> (r: Option<B::Artifact>)
        where B: Builder<C, S>, C: CanRef + CanBase<Inner = B::Artifact>, B::Artifact: Clone,
        requires
            self.wf(),
        ensures
            match r {
                Some(a) => self.arts().contains_key(promise.spec_id().key())
                    && vstd::pervasive::cloned::<B::Artifact>(
                    self.arts()[promise.spec_id().key()].can.value(),
                    a,
                ),
                None => !self.arts().contains_key(promise.spec_id().key()),
            },
    {
        match self.lookup_ref(promise) {
            Some(a) => Some(a.clone()),
            None => None,
        }
    }

    /// Get an exclusive borrow of the stored artifact if it exists. The
    /// caller means to mutate the artifact, so the artifacts of all
    /// dependents are removed first; the artifact itself stays as it is.
    pub fn lookup_mut<B>(&mut self, promise: &Blueprint<B>) -> (r: Option<&mut B::Artifact>)
        where B: Builder<C, S>, C: CanRefMut + CanBase<Inner = B::Artifact>,
        requires
            old(self).wf(),
        ensures
            final(self).wf(),
            final(self).deps() == old(self).deps().remove(promise.spec_id().key()).remove_keys(
                old(self).dependents_removed(promise.spec_id().key()),
            ),
            final(self).dyns() == old(self).dyns(),
            final(self).known_map() == old(self).known_map(),
            final(self).stamp_bound() == old(self).stamp_bound(),
            match r {
                Some(a) => {
                    let id = promise.spec_id().key();
                    let rd = old(self).dependents_removed(id);
                    &&& old(self).arts().contains_key(id)
                    &&& !rd.contains(id)
                    &&& *a == old(self).arts()[id].can.value()
                    &&& final(self).arts().contains_key(id)
                    &&& final(self).arts()[id].can.value() == *final(a)
                    &&& final(self).arts()[id].stamp@ == old(self).arts()[id].stamp@
                    &&& final(self).arts().remove(id) == old(self).arts().remove_keys(rd).remove(
                        id,
                    )
                    &&& final(self).arts().dom() == old(self).arts().remove_keys(rd).dom()
                },
                None => {
                    let id = promise.spec_id().key();
                    let rd = old(self).dependents_removed(id);
                    &&& (!old(self).arts().contains_key(id) || rd.contains(id))
                    &&& final(self).arts() == old(self).arts().remove_keys(rd)
                },
            },
    {
        let id = promise.id().0;
        self.invalidate_dependents(id);
        if !self.artifacts.contains(id) {
            return None;
        }
        let ghost a1 = self.arts();
        proof {
            assert forall|sl: Slot<C>| #[trigger] a1.insert(id, sl).remove(id) =~= a1.remove(
                id,
            ) by {
            }
            assert forall|sl: Slot<C>| #[trigger] a1.insert(id, sl).dom() =~= a1.dom() by {
            }
        }
        let slot = self.artifacts.get_mut(id);
        Some(slot.can.peek_mut())
    }

    /// Build and insert the artifact for the promise's builder; `Ok` means
    /// the artifact is stored under a fresh stamp.
    fn build_artifact<B>(&mut self, promise: &Blueprint<B>) -> (r: Result<(), B::Err>)
        where B: Builder<C, S>, C: CanSized + CanBase<Inner = B::Artifact>,
        requires
            old(self).wf(),
            !old(self).arts().contains_key(promise.spec_id().key()),
        ensures
            final(self).wf(),
            final(self).grows(*old(self)),
            final(self).known_ids().contains(promise.spec_id().key()),
            final(self).dyns().contains_key(promise.spec_id().key()),
            r is Ok ==> final(self).arts().contains_key(promise.spec_id().key())
                && final(self).arts()[promise.spec_id().key()].stamp@ >= old(self).stamp_bound(),
            r is Err ==> !final(self).arts().contains_key(promise.spec_id().key()),
    {
        let ghost id = promise.spec_id().key();
        self.make_builder_known(promise);
        self.ensure_dyn_state(promise);
        let ghost prepped = *self;
        proof {
            assert(prepped.grows(*old(self)));
        }
        let user = BuilderEntry::new(promise);
        let mut tmp = RawCache::new();
        core::mem::swap(self, &mut tmp);
        let mut resolver = Resolver { cache: tmp, user };
        let res = promise.builder().build(&mut resolver);
        let mut back = resolver.cache;
        core::mem::swap(self, &mut back);
        proof {
            self.lemma_grows_trans(prepped, *old(self));
        }
        match res {
            Ok(art) => {
                if self.log_events {
                    self.events.push(CacheEvent::Build { builder: promise.id() });
                }
                let can = C::from_inner(art);
                let ghost stamp = self.stamp_next@;
                let built = Slot { can, stamp: Ghost(stamp) };
                let ghost before_insert = *self;
                self.artifacts.insert(promise.id().0, built);
                self.stamp_next = Ghost(stamp + 1);
                proof {
                    assert forall|k: u64| #[trigger] old(self).arts().dom().contains(
                        k,
                    ) implies final(self).arts().dom().contains(k) && final(self).arts()[k] == old(self).arts()[k] by {
                        assert(before_insert.arts().dom().contains(k));
                        assert(k != id);
                    }
                }
                Ok(())
            },
            Err(e) => {
                // Nothing of a failed build is cached. The entry can only be
                // present if the failing build resolved this very builder, a
                // cycle the caller rules out; removing it keeps the clause
                // provable for every execution the trait model admits.
                let ghost after_build = *self;
                self.artifacts.remove(promise.id().0);
                proof {
                    assert forall|k: u64| #[trigger] old(self).arts().dom().contains(
                        k,
                    ) implies final(self).arts().dom().contains(k) && final(self).arts()[k] == old(
                        self,
                    ).arts()[k] by {
                        assert(after_build.arts().dom().contains(k));
                        assert(k != id);
                    }
                }
                Err(e)
            },
        }
    }

    /// Gets the artifact bin of the given builder, building it on a miss.
    pub fn get<B>(&mut self, promise: &Blueprint<B>) -> (r: Result<C::Bin, B::Err>)
        where B: Builder<C, S>, C: CanSized + CanStrong + CanBase<Inner = B::Artifact>,
        requires
            old(self).wf(),
        ensures
            final(self).wf(),
            final(self).grows(*old(self)),
            old(self).arts().contains_key(promise.spec_id().key()) ==> *final(self) == *old(self),
            match r {
                Ok(bin) => {
                    let id = promise.spec_id().key();
                    &&& final(self).arts().contains_key(id)
                    &&& C::bin_value(bin) == final(self).arts()[id].can.value()
                    &&& (old(self).arts().contains_key(id) ==> final(self).arts()[id] == old(self).arts()[id])
                    &&& (!old(self).arts().contains_key(id) ==> final(self).arts()[id].stamp@
                        >= old(self).stamp_bound() && final(self).dyns().contains_key(id) && final(self).known_ids().contains(id))
                },
                Err(_) => {
                    let id = promise.spec_id().key();
                    &&& !old(self).arts().contains_key(id)
                    &&& !final(self).arts().contains_key(id)
                    &&& final(self).dyns().contains_key(id)
                    &&& final(self).known_ids().contains(id)
                },
            },
    {
        if let Some(bin) = self.lookup(promise) {
            proof {
                self.lemma_grows_refl();
            }
            return Ok(bin);
        }
        match self.build_artifact(promise) {
            Ok(()) => {
                let slot = self.artifacts.get(promise.id().0).unwrap();
                Ok(slot.can.clone_bin())
            },
            Err(e) => Err(e),
        }
    }

    /// Gets a borrow of the artifact of the given builder, building it on a
    /// miss.
    pub fn get_ref<B>(&mut self, promise: &Blueprint<B>) -> (r: Result<&B::Artifact, B::Err>)
        where B: Builder<C, S>, C: CanSized + CanRef + CanBase<Inner = B::Artifact>,
        requires
            old(self).wf(),
        ensures
            final(self).wf(),
            final(self).grows(*old(self)),
            old(self).arts().contains_key(promise.spec_id().key()) ==> *final(self) == *old(self),
            match r {
                Ok(a) => {
                    let id = promise.spec_id().key();
                    &&& final(self).arts().contains_key(id)
                    &&& *a == final(self).arts()[id].can.value()
                    &&& (old(self).arts().contains_key(id) ==> final(self).arts()[id] == old(self).arts()[id])
                    &&& (!old(self).arts().contains_key(id) ==> final(self).arts()[id].stamp@
                        >= old(self).stamp_bound() && final(self).dyns().contains_key(id) && final(self).known_ids().contains(id))
                },
                Err(_) => {
                    let id = promise.spec_id().key();
                    &&& !old(self).arts().contains_key(id)
                    &&& !final(self).arts().contains_key(id)
                    &&& final(self).dyns().contains_key(id)
                    &&& final(self).known_ids().contains(id)
                },
            },
    {
        let id = promise.id().0;
        if !self.artifacts.contains(id) {
            match self.build_artifact(promise) {
                Ok(()) => {},
                Err(e) => {
                    return Err(e);
                },
            }
        } else {
            proof {
                self.lemma_grows_refl();
            }
        }
        let slot = self.artifacts.get(id).unwrap();
        Ok(slot.can.peek())
    }

    /// Gets a clone of the artifact of the given builder, building it on a
    /// miss.
    pub fn get_cloned<B>(&mut self, promise: &Blueprint<B>) -> (r: Result<B::Artifact, B::Err>)
        where
            B: Builder<C, S>,
            C: CanSized + CanRef + CanBase<Inner = B::Artifact>,
            B::Artifact: Clone,
        requires
            old(self).wf(),
        ensures
            final(self).wf(),
            final(self).grows(*old(self)),
            old(self).arts().contains_key(promise.spec_id().key()) ==> *final(self) == *old(self),
            match r {
                Ok(a) => {
                    let id = promise.spec_id().key();
                    &&& final(self).arts().contains_key(id)
                    &&& vstd::pervasive::cloned::<B::Artifact>(
                        final(self).arts()[id].can.value(),
                        a,
                    )
                },
                Err(_) => {
                    let id = promise.spec_id().key();
                    &&& !old(self).arts().contains_key(id)
                    &&& !final(self).arts().contains_key(id)
                    &&& final(self).dyns().contains_key(id)
                    &&& final(self).known_ids().contains(id)
                },
            },
    {
        match self.get_ref(promise) {
            Ok(a) => Ok(a.clone()),
            Err(e) => Err(e),
        }
    }

    /// Gets an exclusive borrow of the artifact of the given builder,
    /// building it on a miss. The caller means to mutate the artifact, so
    /// the artifacts of all dependents are removed first; on a hit the
    /// artifact itself is not rebuilt.
    pub fn get_mut<B>(&mut self, promise: &Blueprint<B>) -> (r: Result<&mut B::Artifact, B::Err>)
        where B: Builder<C, S>, C: CanSized + CanRefMut + CanBase<Inner = B::Artifact>,
        requires
            old(self).wf(),
        ensures
            final(self).wf(),
            final(self).stamp_bound() >= old(self).stamp_bound(),
            match r {
                Ok(a) => {
                    let id = promise.spec_id().key();
                    let rd = old(self).dependents_removed(id);
                    &&& final(self).arts().contains_key(id)
                    &&& final(self).arts()[id].can.value() == *final(a)
                    &&& (old(self).arts().contains_key(id) && !rd.contains(id) ==> {
                        &&& *a == old(self).arts()[id].can.value()
                        &&& final(self).arts()[id].stamp@ == old(self).arts()[id].stamp@
                        &&& final(self).arts().remove(id) == old(self).arts().remove_keys(
                            rd,
                        ).remove(id)
                        &&& final(self).deps() == old(self).deps().remove(id).remove_keys(rd)
                        &&& final(self).dyns() == old(self).dyns()
                        &&& final(self).known_map() == old(self).known_map()
                    })
                    &&& (!(old(self).arts().contains_key(id) && !rd.contains(id)) ==> {
                        &&& final(self).arts()[id].stamp@ >= old(self).stamp_bound()
                        &&& final(self).dyns().contains_key(id)
                        &&& final(self).known_ids().contains(id)
                    })
                    &&& forall|k: u64|
                        k != id && #[trigger] old(self).arts().remove_keys(rd).contains_key(k)
                            ==> final(self).arts().contains_key(k) && final(self).arts()[k] == old(
                            self,
                        ).arts()[k]
                },
                Err(_) => {
                    let id = promise.spec_id().key();
                    let rd = old(self).dependents_removed(id);
                    &&& !(old(self).arts().contains_key(id) && !rd.contains(id))
                    &&& !final(self).arts().contains_key(id)
                    &&& final(self).dyns().contains_key(id)
                    &&& final(self).known_ids().contains(id)
                    &&& forall|k: u64|
                        k != id && #[trigger] old(self).arts().remove_keys(rd).contains_key(k)
                            ==> final(self).arts().contains_key(k) && final(self).arts()[k] == old(
                            self,
                        ).arts()[k]
                },
            },
    {
        let id = promise.id().0;
        self.invalidate_dependents(id);
        let ghost mid = *self;
        if !self.artifacts.contains(id) {
            match self.build_artifact(promise) {
                Ok(()) => {},
                Err(e) => {
                    return Err(e);
                },
            }
        }
        let ghost a1 = self.arts();
        proof {
            assert forall|sl: Slot<C>| #[trigger] a1.insert(id, sl).remove(id) =~= a1.remove(
                id,
            ) by {
            }
            assert forall|sl: Slot<C>| #[trigger] a1.insert(id, sl).dom() =~= a1.dom() by {
            }
        }
        let slot = self.artifacts.get_mut(id);
        Ok(slot.can.peek_mut())
    }
}

/// Appending an element inserts it into the element set.
proof fn lemma_to_set_push(s: Seq<u64>, x: u64)
    ensures
        s.push(x).to_set() == s.to_set().insert(x),
{
    let t = s.push(x);
    assert forall|y: u64| t.to_set().contains(y) implies s.to_set().insert(x).contains(y) by {
        let i = choose|i: int| 0 <= i < t.len() && t[i] == y;
        if i < s.len() {
            assert(s[i] == y);
        }
    }
    assert forall|y: u64| s.to_set().insert(x).contains(y) implies t.to_set().contains(y) by {
        if s.to_set().contains(y) {
            let i = choose|i: int| 0 <= i < s.len() && s[i] == y;
            assert(t[i] == y);
        } else {
            assert(t[s.len() as int] == y);
        }
    }
    assert(t.to_set() =~= s.to_set().insert(x));
}

/// Membership test on a dependents vector.
fn vec_contains(v: &Vec<u64>, x: u64) -> (r: bool)
    ensures
        r == v@.to_set().contains(x),
{
    let n = v.len();
    let mut i: usize = 0;
    while i < n
        invariant
            i <= n,
            n == v@.len(),
            forall|j: int| 0 <= j < i ==> v@[j] != x,
        decreases n - i,
    {
        if v[i] == x {
            return true;
        }
        i = i + 1;
    }
    false
}

/// Dropping the last element keeps the rest of the element set.
proof fn lemma_drop_last_subset(s: Seq<u64>)
    requires
        s.len() >= 1,
    ensures
        s.drop_last().to_set().subset_of(s.to_set()),
{
    assert forall|x: u64| s.drop_last().to_set().contains(x) implies s.to_set().contains(x) by {
        let i = choose|i: int| 0 <= i < s.drop_last().len() && s.drop_last()[i] == x;
        assert(s[i] == x);
    }
}

/// If an element of a worklist is lost by popping `q`, it was `q` itself.
proof fn lemma_pop_keeps_rest(before: Seq<u64>, after: Seq<u64>, x: u64, q: u64)
    requires
        before.len() >= 1,
        after == before.drop_last(),
        before.last() == q,
        before.to_set().contains(x),
        !after.to_set().contains(x),
    ensures
        x == q,
{
    let i = choose|i: int| 0 <= i < before.len() && before[i] == x;
    if i < before.len() - 1 {
        assert(after[i] == x);
    }
}

/// Removing a key commutes with taking edge sets.
proof fn lemma_map_values_remove(m: Map<u64, Vec<u64>>, k: u64)
    ensures
        m.remove(k).map_values(|v: Vec<u64>| v@.to_set()) == m.map_values(
            |v: Vec<u64>| v@.to_set(),
        ).remove(k),
{
    assert(m.remove(k).map_values(|v: Vec<u64>| v@.to_set()) =~= m.map_values(
        |v: Vec<u64>| v@.to_set(),
    ).remove(k));
}

/// Inserting a key commutes with taking edge sets.
proof fn lemma_map_values_insert(m: Map<u64, Vec<u64>>, k: u64, v: Vec<u64>)
    ensures
        m.insert(k, v).map_values(|w: Vec<u64>| w@.to_set()) == m.map_values(
            |w: Vec<u64>| w@.to_set(),
        ).insert(k, v@.to_set()),
{
    assert(m.insert(k, v).map_values(|w: Vec<u64>| w@.to_set()) =~= m.map_values(
        |w: Vec<u64>| w@.to_set(),
    ).insert(k, v@.to_set()));
}

/// Passed into `build` for the duration of one build. It owns the cache for
/// that time and records, for every dependency it resolves, an edge from the
/// resolved builder to the one being built.
pub struct Resolver<C, S> {
    pub(crate) cache: RawCache<C, S>,
    pub(crate) user: BuilderEntry,
}

impl<C, S> Resolver<C, S> {
    /// The cache the resolver carries while the build runs.
    pub closed spec fn spec_cache(self) -> RawCache<C, S> {
        self.cache
    }

    /// The id of the builder whose build is running.
    pub closed spec fn spec_user(self) -> BuilderId {
        self.user.spec_id()
    }

    /// What a builder may assume of its resolver: the cache is well formed
    /// and holds the builder's own dynamic state.
    pub open spec fn ok(self) -> bool {
        self.spec_cache().wf() && self.spec_cache().dyns().contains_key(self.spec_user().key())
    }

    /// What a build does to the cache: it only adds, and it keeps speaking
    /// for the same builder.
    pub open spec fn evolves(self, pre: Self) -> bool {
        self.spec_user() == pre.spec_user() && self.spec_cache().grows(pre.spec_cache())
    }

    /// Resolves the promise into its artifact bin, building it if needed,
    /// and records that the builder being built depends on it. Recording is
    /// idempotent: resolving one dependency twice records one edge.
    pub fn resolve<B>(&mut self, promise: &Blueprint<B>) -> (r: Result<C::Bin, B::Err>)
        where B: Builder<C, S>, C: CanSized + CanStrong + CanBase<Inner = B::Artifact>,
        requires
            old(self).ok(),
        ensures
            final(self).ok(),
            final(self).evolves(*old(self)),
            final(self).spec_cache().deps().contains_key(promise.spec_id().key()),
            final(self).spec_cache().deps()[promise.spec_id().key()].contains(
                old(self).spec_user().key(),
            ),
            old(self).spec_cache().arts().contains_key(promise.spec_id().key())
                && old(self).spec_cache().deps().contains_key(promise.spec_id().key())
                && old(self).spec_cache().deps()[promise.spec_id().key()].contains(
                old(self).spec_user().key(),
            ) ==> {
                &&& final(self).spec_cache().arts() == old(self).spec_cache().arts()
                &&& final(self).spec_cache().deps() == old(self).spec_cache().deps()
                &&& final(self).spec_cache().dyns() == old(self).spec_cache().dyns()
                &&& final(self).spec_cache().known_map() == old(self).spec_cache().known_map()
                &&& final(self).spec_cache().stamp_bound() == old(self).spec_cache().stamp_bound()
            },
            match r {
                Ok(bin) => {
                    let id = promise.spec_id().key();
                    &&& final(self).spec_cache().arts().contains_key(id)
                    &&& C::bin_value(bin) == final(self).spec_cache().arts()[id].can.value()
                },
                Err(_) => !old(self).spec_cache().arts().contains_key(promise.spec_id().key())
                    && !final(self).spec_cache().arts().contains_key(promise.spec_id().key()),
            },
    {
        let user = self.user.id();
        if self.cache.log_events {
            self.cache.events.push(CacheEvent::Resolve { user, used: promise.id() });
        }
        self.cache.track_dependency(user, promise.id());
        let ghost mid = self.cache;
        proof {
            lemma_record_edge_grows(old(self).spec_cache(), mid, user.key(), promise.spec_id().key());
            if old(self).spec_cache().deps().contains_key(promise.spec_id().key())
                && old(self).spec_cache().deps()[promise.spec_id().key()].contains(user.key()) {
                lemma_record_edge_present(
                    old(self).spec_cache().deps(),
                    user.key(),
                    promise.spec_id().key(),
                );
            }
        }
        let r = self.cache.get(promise);
        proof {
            self.cache.lemma_grows_trans(mid, old(self).spec_cache());
            lemma_edge_persists(
                mid,
                self.cache,
                old(self).spec_user().key(),
                promise.spec_id().key(),
            );
        }
        r
    }

    /// Resolves the promise into a borrow of its artifact, building it if
    /// needed, and records the dependency as `resolve` does.
    pub fn resolve_ref<B>(&mut self, promise: &Blueprint<B>) -> (r: Result<&B::Artifact, B::Err>)
        where B: Builder<C, S>, C: CanSized + CanRef + CanBase<Inner = B::Artifact>,
        requires
            old(self).ok(),
        ensures
            final(self).ok(),
            final(self).evolves(*old(self)),
            final(self).spec_cache().deps().contains_key(promise.spec_id().key()),
            final(self).spec_cache().deps()[promise.spec_id().key()].contains(
                old(self).spec_user().key(),
            ),
            old(self).spec_cache().arts().contains_key(promise.spec_id().key())
                && old(self).spec_cache().deps().contains_key(promise.spec_id().key())
                && old(self).spec_cache().deps()[promise.spec_id().key()].contains(
                old(self).spec_user().key(),
            ) ==> {
                &&& final(self).spec_cache().arts() == old(self).spec_cache().arts()
                &&& final(self).spec_cache().deps() == old(self).spec_cache().deps()
                &&& final(self).spec_cache().dyns() == old(self).spec_cache().dyns()
                &&& final(self).spec_cache().known_map() == old(self).spec_cache().known_map()
                &&& final(self).spec_cache().stamp_bound() == old(self).spec_cache().stamp_bound()
            },
            match r {
                Ok(a) => {
                    let id = promise.spec_id().key();
                    &&& final(self).spec_cache().arts().contains_key(id)
                    &&& *a == final(self).spec_cache().arts()[id].can.value()
                },
                Err(_) => !old(self).spec_cache().arts().contains_key(promise.spec_id().key())
                    && !final(self).spec_cache().arts().contains_key(promise.spec_id().key()),
            },
    {
        let user = self.user.id();
        if self.cache.log_events {
            self.cache.events.push(CacheEvent::Resolve { user, used: promise.id() });
        }
        self.cache.track_dependency(user, promise.id());
        let ghost mid = self.cache;
        proof {
            lemma_record_edge_grows(old(self).spec_cache(), mid, user.key(), promise.spec_id().key());
            if old(self).spec_cache().deps().contains_key(promise.spec_id().key())
                && old(self).spec_cache().deps()[promise.spec_id().key()].contains(user.key()) {
                lemma_record_edge_present(
                    old(self).spec_cache().deps(),
                    user.key(),
                    promise.spec_id().key(),
                );
            }
        }
        let id = promise.id().0;
        if !self.cache.artifacts.contains(id) {
            match self.cache.build_artifact(promise) {
                Ok(()) => {},
                Err(e) => {
                    proof {
                        self.cache.lemma_grows_trans(mid, old(self).spec_cache());
                        lemma_edge_persists(
                            mid,
                            self.cache,
                            old(self).spec_user().key(),
                            promise.spec_id().key(),
                        );
                    }
                    return Err(e);
                },
            }
        } else {
            proof {
                self.cache.lemma_grows_refl();
            }
        }
        proof {
            self.cache.lemma_grows_trans(mid, old(self).spec_cache());
            lemma_edge_persists(
                mid,
                self.cache,
                old(self).spec_user().key(),
                promise.spec_id().key(),
            );
        }
        let slot = self.cache.artifacts.get(id).unwrap();
        Ok(slot.can.peek())
    }

    /// Resolves the promise into a clone of its artifact, building it if
    /// needed, and records the dependency as `resolve` does.
    pub fn resolve_cloned<B>(&mut self, promise: &Blueprint<B>) -> (r: Result<
        B::Artifact,
        B::Err,
    >)
        where
            B: Builder<C, S>,
            C: CanSized + CanRef + CanBase<Inner = B::Artifact>,
            B::Artifact: Clone,
        requires
            old(self).ok(),
        ensures
            final(self).ok(),
            final(self).evolves(*old(self)),
            final(self).spec_cache().deps().contains_key(promise.spec_id().key()),
            final(self).spec_cache().deps()[promise.spec_id().key()].contains(
                old(self).spec_user().key(),
            ),
            old(self).spec_cache().arts().contains_key(promise.spec_id().key())
                && old(self).spec_cache().deps().contains_key(promise.spec_id().key())
                && old(self).spec_cache().deps()[promise.spec_id().key()].contains(
                old(self).spec_user().key(),
            ) ==> {
                &&& final(self).spec_cache().arts() == old(self).spec_cache().arts()
                &&& final(self).spec_cache().deps() == old(self).spec_cache().deps()
                &&& final(self).spec_cache().dyns() == old(self).spec_cache().dyns()
                &&& final(self).spec_cache().known_map() == old(self).spec_cache().known_map()
                &&& final(self).spec_cache().stamp_bound() == old(self).spec_cache().stamp_bound()
            },
            match r {
                Ok(a) => {
                    let id = promise.spec_id().key();
                    &&& final(self).spec_cache().arts().contains_key(id)
                    &&& vstd::pervasive::cloned::<B::Artifact>(
                        final(self).spec_cache().arts()[id].can.value(),
                        a,
                    )
                },
                Err(_) => !old(self).spec_cache().arts().contains_key(promise.spec_id().key())
                    && !final(self).spec_cache().arts().contains_key(promise.spec_id().key()),
            },
    {
        match self.resolve_ref(promise) {
            Ok(a) => Ok(a.clone()),
            Err(e) => Err(e),
        }
    }

    /// Exclusive access to the dynamic state of the builder being built.
    /// Nothing is invalidated: the build under way will store a fresh
    /// artifact for this builder anyway.
    pub fn my_state(&mut self) -> (r: &mut S)
        requires
            old(self).ok(),
        ensures
            final(self).ok(),
            final(self).evolves(*old(self)),
            *r == old(self).spec_cache().dyns()[old(self).spec_user().key()],
            final(self).spec_cache().dyns() == old(self).spec_cache().dyns().insert(
                old(self).spec_user().key(),
                *final(r),
            ),
            final(self).spec_cache().arts() == old(self).spec_cache().arts(),
            final(self).spec_cache().deps() == old(self).spec_cache().deps(),
            final(self).spec_cache().known_map() == old(self).spec_cache().known_map(),
            final(self).spec_cache().stamp_bound() == old(self).spec_cache().stamp_bound(),
    {
        let id = self.user.id().0;
        let ghost d0 = self.cache.dyns();
        proof {
            assert forall|v: S| (#[trigger] d0.insert(id, v)).dom() =~= d0.dom() by {
                assert(d0.contains_key(id));
            }
        }
        self.cache.dyn_states.get_mut(id)
    }
}

/// Recording one edge only grows the cache.
proof fn lemma_record_edge_grows<C, S>(pre: RawCache<C, S>, post: RawCache<C, S>, u: u64, p: u64)
    requires
        post.arts() == pre.arts(),
        post.dyns() == pre.dyns(),
        post.known_map() == pre.known_map(),
        post.stamp_bound() == pre.stamp_bound(),
        post.deps() == record_edge(pre.deps(), u, p),
    ensures
        post.grows(pre),
        post.deps().contains_key(p),
        post.deps()[p].contains(u),
{
    assert forall|k: u64| pre.deps().contains_key(k) implies post.deps().contains_key(k)
        && pre.deps()[k].subset_of(post.deps()[k]) by {
        if k == p {
            assert(post.deps()[p] == crate::reach::dep_seeds(pre.deps(), p).insert(u));
        }
    }
}

/// Edges survive anything that only grows the cache.
proof fn lemma_edge_persists<C, S>(pre: RawCache<C, S>, post: RawCache<C, S>, u: u64, p: u64)
    requires
        post.grows(pre),
        pre.deps().contains_key(p),
        pre.deps()[p].contains(u),
    ensures
        post.deps().contains_key(p),
        post.deps()[p].contains(u),
{
}

} // verus!

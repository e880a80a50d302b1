//! The diagnostics surface. A `Doctor` is a user-supplied observer of cache
//! events; `Cache` wraps the raw cache together with one doctor and hands it
//! every event in call order. The raw cache records events only when a
//! doctor is attached, so a plain cache pays nothing for the surface.
//!
//! Events identify builders and artifacts by builder id; type names and
//! debug snapshots of the values are host-side concerns the verified core
//! does not form.

use vstd::prelude::*;

use crate::builder::Builder;
use crate::cache::RawCache;
use crate::cache::Slot;
use crate::canning::CanBase;
use crate::canning::CanRef;
use crate::canning::CanRefMut;
use crate::canning::CanSized;
use crate::canning::CanStrong;
use crate::handle::Blueprint;
use crate::ids::BuilderId;

verus! {

/// Identifies a builder in a doctor event.
#[derive(Clone, Copy, Debug, PartialEq, Eq, Structural, Hash)]
pub struct BuilderHandle {
    pub id: BuilderId,
}

impl BuilderHandle {
    pub fn new(id: BuilderId) -> (h: Self)
        ensures
            h.id == id,
    {
        BuilderHandle { id }
    }
}

/// Identifies an artifact in a doctor event by the builder that owns it.
#[derive(Clone, Copy, Debug, PartialEq, Eq, Structural, Hash)]
pub struct ArtifactHandle {
    pub builder: BuilderId,
}

impl ArtifactHandle {
    pub fn new(builder: BuilderId) -> (h: Self)
        ensures
            h.builder == builder,
    {
        ArtifactHandle { builder }
    }
}

/// One recorded cache event.
#[derive(Clone, Copy, Debug, PartialEq, Eq, Structural)]
pub enum CacheEvent {
    /// `user`'s build resolved `used`.
    Resolve { user: BuilderId, used: BuilderId },
    /// The builder produced a fresh artifact.
    Build { builder: BuilderId },
    /// The builder was invalidated by an explicit call.
    Invalidate { builder: BuilderId },
    /// The entire cache was cleared.
    Clear,
}

/// Observer of cache events. Every method defaults to a no-op, so a doctor
/// implements only what it cares about.
pub trait Doctor {
    /// One builder resolves another: `builder` depends on `used`.
    fn resolve(&mut self, builder: &BuilderHandle, used: &BuilderHandle) {
    }

    /// A builder produced its artifact. Fires only when a fresh artifact is
    /// actually constructed, never on a cache hit.
    fn build(&mut self, builder: &BuilderHandle, artifact: &ArtifactHandle) {
    }

    /// The entire cache was cleared.
    fn clear(&mut self) {
    }

    /// The builder was invalidated by an explicit call. Dependents are
    /// invalidated along with it, without an event of their own.
    fn invalidate(&mut self, builder: &BuilderHandle) {
    }
}

/// The default no-op doctor.
pub struct NoopDoctor;

impl Doctor for NoopDoctor {
}

impl NoopDoctor {
    pub fn new() -> (d: Self) {
        NoopDoctor
    }
}

impl Default for NoopDoctor {
    fn default() -> (d: Self) {
        NoopDoctor
    }
}

/// A cache together with its doctor. Every operation of the raw cache is
/// available and keeps its contract; recorded events are handed to the
/// doctor, in call order, before the next operation runs, and before the
/// doctor itself can be read.
pub struct Cache<C, S, D = NoopDoctor> {
    raw: RawCache<C, S>,
    doctor: D,
}

impl<C, S> Cache<C, S, NoopDoctor> {
    /// Creates a new empty cache with a no-op doctor.
    pub fn new() -> (c: Self)
        ensures
            c.wf(),
            c.spec_raw().arts() == Map::<u64, Slot<C>>::empty(),
            c.spec_raw().dyns() == Map::<u64, S>::empty(),
            c.spec_raw().deps() == Map::<u64, Set<u64>>::empty(),
            c.spec_raw().known_ids() == Set::<u64>::empty(),
    {
        Cache { raw: RawCache::new(), doctor: NoopDoctor }
    }
}

impl<C, S> Default for Cache<C, S, NoopDoctor> {
    /// An empty cache with a no-op doctor.
    fn default() -> (c: Self)
        ensures
            c.wf(),
            c.spec_raw().arts() == Map::<u64, Slot<C>>::empty(),
            c.spec_raw().dyns() == Map::<u64, S>::empty(),
            c.spec_raw().deps() == Map::<u64, Set<u64>>::empty(),
            c.spec_raw().known_ids() == Set::<u64>::empty(),
    {
        Cache::new()
    }
}

impl<C, S, D: Doctor> Cache<C, S, D> {
    /// The cache state the contracts speak of.
    pub closed spec fn spec_raw(self) -> RawCache<C, S> {
        self.raw
    }

    pub open spec fn wf(self) -> bool {
        self.spec_raw().wf()
    }

    /// Creates a new empty cache with the given doctor for inspection.
    pub fn new_with_doctor(doctor: D) -> (c: Self)
        ensures
            c.wf(),
            c.spec_raw().arts() == Map::<u64, Slot<C>>::empty(),
            c.spec_raw().dyns() == Map::<u64, S>::empty(),
            c.spec_raw().deps() == Map::<u64, Set<u64>>::empty(),
            c.spec_raw().known_ids() == Set::<u64>::empty(),
    {
        Cache { raw: RawCache::new_logging(), doctor }
    }

    /// Hands pending events to the doctor, in the order they happened.
    fn pump(&mut self)
        ensures
            final(self).spec_raw().wf() == old(self).spec_raw().wf(),
            final(self).spec_raw().arts() == old(self).spec_raw().arts(),
            final(self).spec_raw().dyns() == old(self).spec_raw().dyns(),
            final(self).spec_raw().deps() == old(self).spec_raw().deps(),
            final(self).spec_raw().known_map() == old(self).spec_raw().known_map(),
            final(self).spec_raw().stamp_bound() == old(self).spec_raw().stamp_bound(),
    {
        let evs = self.raw.take_events();
        let ghost r0 = self.raw;
        let n = evs.len();
        let mut i: usize = 0;
        while i < n
            invariant
                self.raw == r0,
                i <= n,
                n == evs@.len(),
            decreases n - i,
        {
            match evs[i] {
                CacheEvent::Resolve { user, used } => {
                    let bh = BuilderHandle::new(user);
                    let uh = BuilderHandle::new(used);
                    self.doctor.resolve(&bh, &uh);
                },
                CacheEvent::Build { builder } => {
                    let bh = BuilderHandle::new(builder);
                    let ah = ArtifactHandle::new(builder);
                    self.doctor.build(&bh, &ah);
                },
                CacheEvent::Invalidate { builder } => {
                    let bh = BuilderHandle::new(builder);
                    self.doctor.invalidate(&bh);
                },
                CacheEvent::Clear => {
                    self.doctor.clear();
                },
            }
            i = i + 1;
        }
    }

    /// A borrow of the doctor, with every event delivered first.
    pub fn get_doctor(&mut self) -> (d: &mut D)
        ensures
            final(self).spec_raw().wf() == old(self).spec_raw().wf(),
            final(self).spec_raw().arts() == old(self).spec_raw().arts(),
            final(self).spec_raw().dyns() == old(self).spec_raw().dyns(),
            final(self).spec_raw().deps() == old(self).spec_raw().deps(),
            final(self).spec_raw().known_map() == old(self).spec_raw().known_map(),
            final(self).spec_raw().stamp_bound() == old(self).spec_raw().stamp_bound(),
    {
        self.pump();
        &mut self.doctor
    }

    /// Consumes the cache and returns the doctor, with every event
    /// delivered first.
    pub fn into_doctor(self) -> (d: D) {
        let mut this = self;
        this.pump();
        this.doctor
    }

    /// Gets the artifact bin of the given builder, building it on a miss;
    /// see `RawCache::get`.
    pub fn get<B>(&mut self, promise: &Blueprint<B>) -> (r: Result<C::Bin, B::Err>)
        where B: Builder<C, S>, C: CanSized + CanStrong + CanBase<Inner = B::Artifact>,
        requires
            old(self).wf(),
        ensures
            final(self).wf(),
            final(self).spec_raw().grows(old(self).spec_raw()),
            old(self).spec_raw().arts().contains_key(promise.spec_id().key()) ==> {
                &&& final(self).spec_raw().arts() == old(self).spec_raw().arts()
                &&& final(self).spec_raw().deps() == old(self).spec_raw().deps()
                &&& final(self).spec_raw().dyns() == old(self).spec_raw().dyns()
                &&& final(self).spec_raw().known_map() == old(self).spec_raw().known_map()
                &&& final(self).spec_raw().stamp_bound() == old(self).spec_raw().stamp_bound()
            },
            match r {
                Ok(bin) => {
                    let id = promise.spec_id().key();
                    &&& final(self).spec_raw().arts().contains_key(id)
                    &&& C::bin_value(bin) == final(self).spec_raw().arts()[id].can.value()
                    &&& (old(self).spec_raw().arts().contains_key(id) ==> final(self).spec_raw().arts()[id] == old(self).spec_raw().arts()[id])
                },
                Err(_) => !old(self).spec_raw().arts().contains_key(promise.spec_id().key())
                    && !final(self).spec_raw().arts().contains_key(promise.spec_id().key()),
            },
    {
        self.pump();
        let ghost mid = self.raw;
        let r = self.raw.get(promise);
        proof {
            self.raw.lemma_grows_trans(mid, old(self).spec_raw());
        }
        r
    }

    /// Gets a borrow of the artifact of the given builder, building it on a
    /// miss; see `RawCache::get_ref`.
    pub fn get_ref<B>(&mut self, promise: &Blueprint<B>) -> (r: Result<&B::Artifact, B::Err>)
        where B: Builder<C, S>, C: CanSized + CanRef + CanBase<Inner = B::Artifact>,
        requires
            old(self).wf(),
        ensures
            final(self).wf(),
            final(self).spec_raw().grows(old(self).spec_raw()),
            old(self).spec_raw().arts().contains_key(promise.spec_id().key()) ==> {
                &&& final(self).spec_raw().arts() == old(self).spec_raw().arts()
                &&& final(self).spec_raw().deps() == old(self).spec_raw().deps()
                &&& final(self).spec_raw().dyns() == old(self).spec_raw().dyns()
                &&& final(self).spec_raw().known_map() == old(self).spec_raw().known_map()
                &&& final(self).spec_raw().stamp_bound() == old(self).spec_raw().stamp_bound()
            },
            match r {
                Ok(a) => {
                    let id = promise.spec_id().key();
                    &&& final(self).spec_raw().arts().contains_key(id)
                    &&& *a == final(self).spec_raw().arts()[id].can.value()
                    &&& (old(self).spec_raw().arts().contains_key(id) ==> final(self).spec_raw().arts()[id] == old(self).spec_raw().arts()[id])
                },
                Err(_) => !old(self).spec_raw().arts().contains_key(promise.spec_id().key())
                    && !final(self).spec_raw().arts().contains_key(promise.spec_id().key()),
            },
    {
        self.pump();
        let ghost mid = self.raw;
        proof {
            assert forall|c2: RawCache<C, S>| c2.grows(mid) implies c2.grows(
                old(self).spec_raw(),
            ) by {
                c2.lemma_grows_trans(mid, old(self).spec_raw());
            }
        }
        self.raw.get_ref(promise)
    }

    /// Gets an exclusive borrow of the artifact of the given builder,
    /// invalidating its dependents; see `RawCache::get_mut`.
    pub fn get_mut<B>(&mut self, promise: &Blueprint<B>) -> (r: Result<&mut B::Artifact, B::Err>)
        where B: Builder<C, S>, C: CanSized + CanRefMut + CanBase<Inner = B::Artifact>,
        requires
            old(self).wf(),
        ensures
            final(self).wf(),
            match r {
                Ok(a) => {
                    let id = promise.spec_id().key();
                    let rd = old(self).spec_raw().dependents_removed(id);
                    &&& final(self).spec_raw().arts().contains_key(id)
                    &&& final(self).spec_raw().arts()[id].can.value() == *final(a)
                    &&& (old(self).spec_raw().arts().contains_key(id) && !rd.contains(id) ==> {
                        &&& *a == old(self).spec_raw().arts()[id].can.value()
                        &&& final(self).spec_raw().arts()[id].stamp@ == old(self).spec_raw().arts()[id].stamp@
                    })
                    &&& forall|k: u64|
                        k != id && #[trigger] old(self).spec_raw().arts().remove_keys(
                            rd,
                        ).contains_key(k) ==> final(self).spec_raw().arts().contains_key(k)
                            && final(self).spec_raw().arts()[k] == old(self).spec_raw().arts()[k]
                },
                Err(_) => !(old(self).spec_raw().arts().contains_key(promise.spec_id().key())
                    && !old(self).spec_raw().dependents_removed(promise.spec_id().key()).contains(
                    promise.spec_id().key(),
                )) && !final(self).spec_raw().arts().contains_key(promise.spec_id().key()),
            },
    {
        self.pump();
        let ghost id = promise.spec_id().key();
        proof {
            assert(self.raw.dependents_removed(id) == old(self).spec_raw().dependents_removed(id));
            assert(self.raw.arts().remove_keys(self.raw.dependents_removed(id)) == old(
                self,
            ).spec_raw().arts().remove_keys(old(self).spec_raw().dependents_removed(id)));
        }
        self.raw.get_mut(promise)
    }

    /// Gets a clone of the artifact of the given builder, building it on a
    /// miss; see `RawCache::get_cloned`.
    pub fn get_cloned<B>(&mut self, promise: &Blueprint<B>) -> (r: Result<B::Artifact, B::Err>)
        where
            B: Builder<C, S>,
            C: CanSized + CanRef + CanBase<Inner = B::Artifact>,
            B::Artifact: Clone,
        requires
            old(self).wf(),
        ensures
            final(self).wf(),
            final(self).spec_raw().grows(old(self).spec_raw()),
            old(self).spec_raw().arts().contains_key(promise.spec_id().key()) ==> {
                &&& final(self).spec_raw().arts() == old(self).spec_raw().arts()
                &&& final(self).spec_raw().deps() == old(self).spec_raw().deps()
                &&& final(self).spec_raw().dyns() == old(self).spec_raw().dyns()
                &&& final(self).spec_raw().known_map() == old(self).spec_raw().known_map()
                &&& final(self).spec_raw().stamp_bound() == old(self).spec_raw().stamp_bound()
            },
            match r {
                Ok(a) => {
                    let id = promise.spec_id().key();
                    &&& final(self).spec_raw().arts().contains_key(id)
                    &&& vstd::pervasive::cloned::<B::Artifact>(
                        final(self).spec_raw().arts()[id].can.value(),
                        a,
                    )
                    &&& (old(self).spec_raw().arts().contains_key(id) ==> final(self).spec_raw().arts()[id] == old(self).spec_raw().arts()[id])
                },
                Err(_) => !old(self).spec_raw().arts().contains_key(promise.spec_id().key())
                    && !final(self).spec_raw().arts().contains_key(promise.spec_id().key()),
            },
    {
        self.pump();
        let ghost mid = self.raw;
        let r = self.raw.get_cloned(promise);
        proof {
            self.raw.lemma_grows_trans(mid, old(self).spec_raw());
        }
        r
    }

    /// Shared borrow of the builder's dynamic state, created on demand; see
    /// `RawCache::dyn_state`.
    pub fn dyn_state<B: Builder<C, S>>(&mut self, promise: &Blueprint<B>) -> (r: &S)
        requires
            old(self).wf(),
        ensures
            final(self).wf(),
            final(self).spec_raw().dyns().dom() == old(self).spec_raw().dyns().dom().insert(
                promise.spec_id().key(),
            ),
            *r == final(self).spec_raw().dyns()[promise.spec_id().key()],
            old(self).spec_raw().dyns().contains_key(promise.spec_id().key()) ==> *r == old(self).spec_raw().dyns()[promise.spec_id().key()],
            final(self).spec_raw().arts() == old(self).spec_raw().arts(),
    {
        self.pump();
        self.raw.dyn_state(promise)
    }

    /// Exclusive borrow of the builder's dynamic state, invalidating its
    /// artifact first; see `RawCache::dyn_state_mut`.
    pub fn dyn_state_mut<B: Builder<C, S>>(&mut self, promise: &Blueprint<B>) -> (r: &mut S)
        requires
            old(self).wf(),
        ensures
            final(self).wf(),
            final(self).spec_raw().arts() == old(self).spec_raw().arts().remove_keys(
                old(self).spec_raw().invalidation_removed(promise.spec_id().key()),
            ),
            final(self).spec_raw().dyns()[promise.spec_id().key()] == *final(r),
            old(self).spec_raw().dyns().contains_key(promise.spec_id().key()) ==> *r == old(self).spec_raw().dyns()[promise.spec_id().key()],
    {
        self.pump();
        self.raw.dyn_state_mut(promise)
    }

    /// Read-only, non-creating access to the builder's dynamic state; see
    /// `RawCache::get_dyn_state`.
    pub fn get_dyn_state<B: Builder<C, S>>(&self, promise: &Blueprint<B>) -> (r: Option<&S>)
        requires
            self.wf(),
        ensures
            match r {
                Some(s) => self.spec_raw().dyns().contains_key(promise.spec_id().key()) && *s
                    == self.spec_raw().dyns()[promise.spec_id().key()],
                None => !self.spec_raw().dyns().contains_key(promise.spec_id().key()),
            },
    {
        self.raw.get_dyn_state(promise)
    }

    /// Replaces the builder's dynamic state, invalidating its artifact
    /// first; see `RawCache::set_dyn_state`.
    pub fn set_dyn_state<B: Builder<C, S>>(&mut self, promise: &Blueprint<B>, state: S)
        requires
            old(self).wf(),
        ensures
            final(self).wf(),
            final(self).spec_raw().arts() == old(self).spec_raw().arts().remove_keys(
                old(self).spec_raw().invalidation_removed(promise.spec_id().key()),
            ),
            final(self).spec_raw().dyns() == old(self).spec_raw().dyns().insert(
                promise.spec_id().key(),
                state,
            ),
    {
        self.pump();
        self.raw.set_dyn_state(promise, state);
        self.pump();
    }

    /// Removes the builder's artifact and, transitively, the artifacts of
    /// its dependents; see `RawCache::invalidate`.
    pub fn invalidate<B: Builder<C, S>>(&mut self, promise: &Blueprint<B>)
        requires
            old(self).wf(),
        ensures
            final(self).wf(),
            final(self).spec_raw().arts() == old(self).spec_raw().arts().remove_keys(
                old(self).spec_raw().invalidation_removed(promise.spec_id().key()),
            ),
            final(self).spec_raw().deps() == old(self).spec_raw().deps().remove_keys(
                old(self).spec_raw().invalidation_removed(promise.spec_id().key()),
            ),
            final(self).spec_raw().dyns() == old(self).spec_raw().dyns(),
    {
        self.pump();
        self.raw.invalidate(promise);
        self.pump();
    }

    /// Removes every trace of the builder; see `RawCache::purge`.
    pub fn purge<B: Builder<C, S>>(&mut self, promise: &Blueprint<B>)
        requires
            old(self).wf(),
        ensures
            final(self).wf(),
            final(self).spec_raw().arts() == old(self).spec_raw().arts().remove_keys(
                old(self).spec_raw().invalidation_removed(promise.spec_id().key()),
            ),
            final(self).spec_raw().dyns() == old(self).spec_raw().dyns().remove(
                promise.spec_id().key(),
            ),
            !final(self).spec_raw().known_ids().contains(promise.spec_id().key()),
    {
        self.pump();
        self.raw.purge(promise);
        self.pump();
    }

    /// Drops all artifacts and dependents edges, keeping dynamic states; see
    /// `RawCache::clear_artifacts`.
    pub fn clear_artifacts(&mut self)
        requires
            old(self).wf(),
        ensures
            final(self).wf(),
            final(self).spec_raw().arts() == Map::<u64, Slot<C>>::empty(),
            final(self).spec_raw().deps() == Map::<u64, Set<u64>>::empty(),
            final(self).spec_raw().dyns() == old(self).spec_raw().dyns(),
    {
        self.pump();
        self.raw.clear_artifacts();
        self.pump();
    }

    /// Clears the entire cache; see `RawCache::clear_all`.
    pub fn clear_all(&mut self)
        requires
            old(self).wf(),
        ensures
            final(self).wf(),
            final(self).spec_raw().arts() == Map::<u64, Slot<C>>::empty(),
            final(self).spec_raw().deps() == Map::<u64, Set<u64>>::empty(),
            final(self).spec_raw().dyns() == Map::<u64, S>::empty(),
            final(self).spec_raw().known_ids() == Set::<u64>::empty(),
    {
        self.pump();
        self.raw.clear_all();
        self.pump();
    }

    /// Clears the entire cache; the historical name of `clear_all`.
    pub fn clear(&mut self)
        requires
            old(self).wf(),
        ensures
            final(self).wf(),
            final(self).spec_raw().arts() == Map::<u64, Slot<C>>::empty(),
            final(self).spec_raw().deps() == Map::<u64, Set<u64>>::empty(),
            final(self).spec_raw().dyns() == Map::<u64, S>::empty(),
            final(self).spec_raw().known_ids() == Set::<u64>::empty(),
    {
        self.clear_all();
    }

    /// Reclaims builders with no live strong handle; see
    /// `RawCache::garbage_collection`.
    pub fn garbage_collection(&mut self)
        requires
            old(self).wf(),
        ensures
            final(self).wf(),
            exists|dead: Set<u64>|
                {
                    &&& dead.subset_of(old(self).spec_raw().known_ids())
                    &&& final(self).spec_raw().known_map() == old(self).spec_raw().known_map().remove_keys(dead)
                    &&& final(self).spec_raw().dyns() == old(self).spec_raw().dyns().remove_keys(
                        dead,
                    )
                    &&& final(self).spec_raw().known_ids().len() + dead.len() == old(self).spec_raw().known_ids().len()
                },
    {
        self.pump();
        self.raw.garbage_collection();
    }

    /// Returns the number of currently known builders.
    pub fn number_of_known_builders(&self) -> (n: usize)
        requires
            self.wf(),
        ensures
            n == self.spec_raw().known_ids().len(),
    {
        self.raw.number_of_known_builders()
    }
}

} // verus!

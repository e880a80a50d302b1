//! A cache for artifacts made by builders that form a directed acyclic
//! graph.
//!
//! Each builder produces one artifact, possibly by first resolving the
//! artifacts of other builders. The cache guarantees that, for a given
//! builder identity, at most one artifact instance exists until it is
//! explicitly invalidated, and that invalidating a builder also removes
//! every artifact that transitively depended on it.
//!
//! A builder is any type implementing [`Builder`], wrapped in a
//! [`Blueprint`]: a shared handle whose clones all carry one identity, so
//! that sharing a handle across the graph shares the artifact. Identities
//! are drawn from an [`IdSource`]. During a build, a [`Resolver`] hands the
//! builder its dependencies' artifacts and records each resolution as a
//! reverse edge; those edges drive the invalidation cascade.
//!
//! Artifacts are stored in a carrier chosen per cache: `Box` for exclusive
//! ownership with mutable access, `Rc` for shared reference-counted bins,
//! `Arc` for thread-safe sharing, or a [`Blueprint`] itself for caches whose
//! artifacts are builders in turn. The capability traits around [`CanBase`]
//! say which operations each carrier affords.
//!
//! [`RawCache`] is the engine; [`Cache`] couples it with a [`Doctor`], an
//! observer of resolve, build, invalidate and clear events.
//!
//! The laws the engine obeys — cascade completeness and confinement,
//! identity equality and distinctness, dynamic-state persistence, and the
//! accounting of garbage collection — are stated and proved in [`laws`].

use vstd::prelude::*;

mod builder;
mod cache;
mod canning;
mod doctor;
mod handle;
mod idmap;
mod ids;
pub mod laws;
mod reach;
mod shim;

pub use builder::Builder;
pub use builder::SimpleBuilder;
pub use cache::RawCache;
pub use cache::Resolver;
pub use cache::Slot;
pub use canning::CanBase;
pub use canning::CanRef;
pub use canning::CanRefMut;
pub use canning::CanSized;
pub use canning::CanStrong;
pub use doctor::ArtifactHandle;
pub use doctor::BuilderHandle;
pub use doctor::Cache;
pub use doctor::CacheEvent;
pub use doctor::Doctor;
pub use doctor::NoopDoctor;
pub use handle::Blueprint;
pub use handle::BlueprintWeak;
pub use handle::BuilderEntry;
pub use idmap::IdMap;
pub use ids::BuilderId;
pub use ids::IdSource;
pub use reach::dep_seeds;
pub use reach::lemma_record_edge_idempotent;
pub use reach::path_ok;
pub use reach::reach_set;
pub use reach::reaches;
pub use reach::record_edge;
pub use shim::WeakToken;

verus! {

/// The historical name of the handle type: a blueprint is a promise for the
/// builder's artifact.
pub type ArtifactPromise<B> = Blueprint<B>;

/// The historical name of the resolver type.
pub type ArtifactResolver<C, S> = Resolver<C, S>;

/// The historical name of the cache-with-doctor type.
pub type ArtifactCache<C, S, D = NoopDoctor> = Cache<C, S, D>;

} // verus!

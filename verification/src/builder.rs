//! The contract a user implements to take part in the cache. A builder
//! produces an artifact, resolving the artifacts of other builders through
//! the resolver it is handed; the cache records each resolution as a
//! dependents edge and uses those edges for cascading invalidation.

use vstd::prelude::*;

use crate::cache::Resolver;

verus! {

/// A producer of artifacts, implemented by the user. `C` is the carrier the
/// cache stores artifacts in and `S` the cache's dynamic-state type.
///
/// `build` must not touch the cache other than through the resolver it is
/// given; the resolver's operations only add to the cache, which is what the
/// `evolves` clause records. Per-instance mutable workspace belongs in the
/// dynamic state, reachable through the resolver.
pub trait Builder<C, S> {
    /// The artifact type this builder produces; a cache storing carrier `C`
    /// accepts builders whose artifact is what `C` holds.
    type Artifact;

    /// The error type `build` may fail with. A failed build is not cached;
    /// the next `get` retries.
    type Err;

    /// Produces the artifact, resolving dependencies through `resolver`.
    fn build(&self, resolver: &mut Resolver<C, S>) -> (r: Result<Self::Artifact, Self::Err>)
        requires
            old(resolver).ok(),
        ensures
            final(resolver).ok(),
            final(resolver).evolves(*old(resolver)),
    ;

    /// The initial dynamic state, made on demand at the first build or
    /// dynamic-state access.
    fn init_dyn_state(&self) -> S;
}

/// A simplified builder interface: infallible, without dynamic state. Every
/// `SimpleBuilder` is a `Builder` whose error and dynamic-state types are
/// the unit type.
pub trait SimpleBuilder<C> {
    /// The artifact type this builder produces.
    type Artifact;

    /// Produces the artifact, resolving dependencies through `resolver`.
    fn build(&self, resolver: &mut Resolver<C, ()>) -> (r: Self::Artifact)
        requires
            old(resolver).ok(),
        ensures
            final(resolver).ok(),
            final(resolver).evolves(*old(resolver)),
    ;
}

impl<C, B: SimpleBuilder<C>> Builder<C, ()> for B {
    type Artifact = <B as SimpleBuilder<C>>::Artifact;

    type Err = ();

    fn build(&self, resolver: &mut Resolver<C, ()>) -> (r: Result<
        <B as SimpleBuilder<C>>::Artifact,
        (),
    >) {
        Ok(SimpleBuilder::build(self, resolver))
    }

    fn init_dyn_state(&self) -> () {
    }
}

} // verus!

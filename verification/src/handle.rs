//! The handle model. A `Blueprint` is a shared, cheaply cloneable handle
//! over a builder, together with its identity. All clones of one handle
//! share the identity; independently constructed handles differ in it.
//!
//! Besides the builder itself, a handle owns a shared `u64` token carrying
//! the id. The cache keeps only a weak companion of that token, so that
//! garbage collection can tell whether any strong handle is still alive.

use std::rc::Rc;

use vstd::prelude::*;

use crate::ids::BuilderId;
use crate::ids::IdSource;
use crate::shim::downgrade_builder;
use crate::shim::downgrade_token;
use crate::shim::rc_borrow;
use crate::shim::rc_clone;
use crate::shim::upgrade_builder;
use crate::shim::upgrade_token;
use crate::shim::weak_token_target;
use crate::shim::WeakBuilder;
use crate::shim::WeakToken;

verus! {

/// Shared handle over a builder of type `B`; encapsulates the builder as a
/// promise for its artifact from the cache.
#[derive(Debug)]
pub struct Blueprint<B> {
    builder: Rc<B>,
    token: Rc<u64>,
    id: BuilderId,
}

impl<B> Blueprint<B> {
    /// The identity of this handle.
    pub closed spec fn spec_id(self) -> BuilderId {
        self.id
    }

    /// The builder behind this handle.
    pub closed spec fn spec_builder(self) -> B {
        *self.builder
    }

    /// The shared token carries the id; every handle satisfies this by
    /// construction.
    #[verifier::type_invariant]
    pub closed spec fn wf(self) -> bool {
        *self.token == self.id.key()
    }

    /// Wraps a freshly built builder and assigns it a fresh identity.
    pub fn new(builder: B, ids: &mut IdSource) -> (bp: Self)
        requires
            old(ids).watermark() < u64::MAX,
        ensures
            bp.spec_id().key() == old(ids).watermark(),
            bp.spec_builder() == builder,
            final(ids).watermark() == old(ids).watermark() + 1,
    {
        let id = ids.fresh();
        Blueprint { builder: Rc::new(builder), token: Rc::new(id.0), id }
    }

    pub fn id(&self) -> (id: BuilderId)
        ensures
            id == self.spec_id(),
    {
        self.id
    }

    /// Borrow of the builder behind this handle.
    pub fn builder(&self) -> (b: &B)
        ensures
            *b == self.spec_builder(),
    {
        rc_borrow(&self.builder)
    }

    /// Weak companion of this handle: it does not keep the builder alive.
    pub fn downgrade(&self) -> (w: BlueprintWeak<B>)
        ensures
            w.spec_id() == self.spec_id(),
    {
        proof {
            use_type_invariant(&*self);
        }
        BlueprintWeak {
            builder: downgrade_builder(&self.builder),
            token: downgrade_token(&self.token),
            id: self.id,
        }
    }

    /// Weak companion of the identity token alone, as the cache stores it.
    pub(crate) fn token_ref(&self) -> (w: WeakToken)
        ensures
            weak_token_target(w) == self.spec_id().key(),
    {
        proof {
            use_type_invariant(&*self);
        }
        downgrade_token(&self.token)
    }
}

impl<B> Clone for Blueprint<B> {
    /// A clone shares the builder and the identity.
    fn clone(&self) -> (bp: Self)
        ensures
            bp == *self,
    {
        proof {
            use_type_invariant(&*self);
        }
        Blueprint { builder: rc_clone(&self.builder), token: rc_clone(&self.token), id: self.id }
    }
}

/// Non-owning companion of a `Blueprint`; upgrading fails once every strong
/// handle has been dropped.
#[verifier::reject_recursive_types(B)]
pub struct BlueprintWeak<B> {
    builder: WeakBuilder<B>,
    token: WeakToken,
    id: BuilderId,
}

impl<B> BlueprintWeak<B> {
    pub closed spec fn spec_id(self) -> BuilderId {
        self.id
    }

    /// The kept weak reference points at the token carrying this id; every
    /// weak handle satisfies this by construction.
    #[verifier::type_invariant]
    pub closed spec fn wf(self) -> bool {
        weak_token_target(self.token) == self.id.key()
    }

    /// Attempts to recover a strong handle; identity is preserved. Which
    /// branch comes back depends on the strong handles alive at the call.
    pub fn upgrade(&self) -> (r: Option<Blueprint<B>>)
        ensures
            r matches Some(bp) ==> bp.spec_id() == self.spec_id(),
    {
        proof {
            use_type_invariant(&*self);
        }
        match (upgrade_builder(&self.builder), upgrade_token(&self.token)) {
            (Some(builder), Some(token)) => Some(Blueprint { builder, token, id: self.id }),
            _ => None,
        }
    }

    pub fn id(&self) -> (id: BuilderId)
        ensures
            id == self.spec_id(),
    {
        self.id
    }
}

/// The identity of the builder whose build is currently running; the
/// resolver records it as the user of each resolved dependency.
#[derive(Clone, Copy, Debug, PartialEq, Eq, Structural, Hash)]
pub struct BuilderEntry {
    id: BuilderId,
}

impl BuilderEntry {
    pub closed spec fn spec_id(self) -> BuilderId {
        self.id
    }

    pub fn new<B>(bp: &Blueprint<B>) -> (e: Self)
        ensures
            e.spec_id() == bp.spec_id(),
    {
        BuilderEntry { id: bp.id() }
    }

    pub fn id(&self) -> (id: BuilderId)
        ensures
            id == self.spec_id(),
    {
        self.id
    }
}

} // verus!

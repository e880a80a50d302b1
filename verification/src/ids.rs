//! Builder identity. A `BuilderId` is an opaque, totally ordered, hashable
//! token. Fresh ids are drawn from an `IdSource`, a monotone counter, so two
//! ids drawn from one source are never equal. Handles cloned from one
//! original share the id; independently constructed handles get distinct ids.

use vstd::prelude::*;

verus! {

/// Identity token for a builder handle.
#[derive(Clone, Copy, Debug, PartialEq, Eq, Structural, Hash, PartialOrd, Ord)]
pub struct BuilderId(pub u64);

impl BuilderId {
    pub open spec fn key(self) -> u64 {
        self.0
    }
}

/// Hands out fresh `BuilderId`s; ids strictly increase, so no id is issued
/// twice by one source.
pub struct IdSource {
    next: u64,
}

impl IdSource {
    /// Ids not yet issued are exactly those at or above this bound.
    pub closed spec fn watermark(self) -> u64 {
        self.next
    }

    pub fn new() -> (s: Self)
        ensures
            s.watermark() == 0,
    {
        IdSource { next: 0 }
    }

    /// Draws a fresh id. The bound on the watermark is a machine limit: a
    /// source can hand out at most `u64::MAX` ids.
    pub fn fresh(&mut self) -> (id: BuilderId)
        requires
            old(self).watermark() < u64::MAX,
        ensures
            id.key() == old(self).watermark(),
            final(self).watermark() == old(self).watermark() + 1,
    {
        let id = BuilderId(self.next);
        self.next = self.next + 1;
        id
    }
}

} // verus!

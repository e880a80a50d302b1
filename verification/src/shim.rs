//! Trusted declarations around `std::rc` and `std::sync`. Handles keep their
//! builder in an `Rc` and carry a second `Rc<u64>` token whose weak
//! companion lets the cache observe, during garbage collection, whether any
//! strong handle is still alive.

use std::rc::Rc;
use std::rc::Weak;
use std::sync::Arc;

use vstd::prelude::*;

verus! {

/// Relies on `<Rc<T> as Clone>::clone`: the clone points at the same
/// allocation, so it carries the same value.
#[verifier::external_body]
pub(crate) fn rc_clone<T>(rc: &Rc<T>) -> (r: Rc<T>)
    ensures
        r == *rc,
{
    rc.clone()
}

/// Relies on `<Rc<T> as Deref>::deref`: a shared borrow of the value the
/// `Rc` points at.
#[verifier::external_body]
pub(crate) fn rc_borrow<T>(rc: &Rc<T>) -> (r: &T)
    ensures
        *r == **rc,
{
    &**rc
}

/// Relies on `<Arc<T> as Clone>::clone`: the clone points at the same
/// allocation, so it carries the same value.
#[verifier::external_body]
pub(crate) fn arc_clone<T>(arc: &Arc<T>) -> (r: Arc<T>)
    ensures
        r == *arc,
{
    arc.clone()
}

/// Relies on `<Arc<T> as Deref>::deref`: a shared borrow of the value the
/// `Arc` points at.
#[verifier::external_body]
pub(crate) fn arc_borrow<T>(arc: &Arc<T>) -> (r: &T)
    ensures
        *r == **arc,
{
    &**arc
}

/// Holds a `std::rc::Weak<u64>`, which Verus cannot declare directly
/// because of its allocator parameter.
#[verifier::external_body]
pub struct WeakToken {
    inner: Weak<u64>,
}

/// The value stored in the allocation a `WeakToken` points at. The value is
/// written once, when the allocation is made, and never changed, so it is a
/// function of the token alone.
pub uninterp spec fn weak_token_target(w: WeakToken) -> u64;

/// Relies on `Rc::downgrade`: the weak companion points at the same
/// allocation as `rc`, so its target value is `**rc`.
#[verifier::external_body]
pub(crate) fn downgrade_token(rc: &Rc<u64>) -> (w: WeakToken)
    ensures
        weak_token_target(w) == **rc,
{
    WeakToken { inner: Rc::downgrade(rc) }
}

/// Relies on `Weak::upgrade`: it returns a strong reference to the same
/// allocation while one can still be made, and `None` once every strong
/// reference has been dropped. Whether `Some` comes back depends on the
/// strong references alive at the call, which the specification leaves open.
#[verifier::external_body]
pub(crate) fn upgrade_token(w: &WeakToken) -> (r: Option<Rc<u64>>)
    ensures
        r matches Some(rc) ==> *rc == weak_token_target(*w),
{
    w.inner.upgrade()
}

/// Holds a `std::rc::Weak<B>` pointing at a builder.
#[verifier::external_body]
#[verifier::reject_recursive_types(B)]
pub struct WeakBuilder<B> {
    inner: Weak<B>,
}

/// Relies on `Rc::downgrade`. Nothing is claimed of the weak value; the
/// builder behind a handle never appears in a contract.
#[verifier::external_body]
pub(crate) fn downgrade_builder<B>(rc: &Rc<B>) -> (w: WeakBuilder<B>) {
    WeakBuilder { inner: Rc::downgrade(rc) }
}

/// Relies on `Weak::upgrade`: `Some` only while a strong reference exists.
/// Nothing is claimed of the value behind the returned reference.
#[verifier::external_body]
pub(crate) fn upgrade_builder<B>(w: &WeakBuilder<B>) -> (r: Option<Rc<B>>) {
    w.inner.upgrade()
}

} // verus!

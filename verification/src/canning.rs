//! Canning: wrapping artifact values in a carrier that is better for
//! storing. The capability traits are additive; the cache asks only for
//! those a method needs, so one cache body serves an exclusively owned
//! carrier, a shared reference-counted one, and a thread-safe shared one.

use std::rc::Rc;
use std::sync::Arc;

use vstd::prelude::*;

use crate::handle::Blueprint;
use crate::shim::arc_borrow;
use crate::shim::arc_clone;
use crate::shim::rc_borrow;
use crate::shim::rc_clone;

verus! {

/// A carrier for one value; `value` is what it holds.
pub trait CanBase: Sized {
    type Inner;

    spec fn value(self) -> Self::Inner;
}

/// A carrier that can be made from the value it is to hold.
pub trait CanSized: CanBase {
    fn from_inner(t: Self::Inner) -> (c: Self)
        ensures
            c.value() == t,
    ;
}

/// A shared carrier: it hands out bins, cheap strong references to the held
/// value, without giving the value up.
pub trait CanStrong: CanBase {
    type Bin;

    spec fn bin_value(b: Self::Bin) -> Self::Inner;

    fn clone_bin(&self) -> (b: Self::Bin)
        ensures
            Self::bin_value(b) == self.value(),
    ;
}

/// A transparent carrier: the held value can be borrowed.
pub trait CanRef: CanBase {
    fn peek(&self) -> (r: &Self::Inner)
        ensures
            *r == self.value(),
    ;
}

/// A mutably transparent carrier: the held value can be borrowed mutably.
/// Only an exclusively owned carrier can offer this.
pub trait CanRefMut: CanBase {
    fn peek_mut(&mut self) -> (r: &mut Self::Inner)
        ensures
            *r == old(self).value(),
            final(self).value() == *final(r),
    ;
}

// The exclusively owned boxed carrier.
impl<T> CanBase for Box<T> {
    type Inner = T;

    open spec fn value(self) -> T {
        *self
    }
}

impl<T> CanSized for Box<T> {
    fn from_inner(t: T) -> (c: Self) {
        Box::new(t)
    }
}

impl<T> CanRef for Box<T> {
    fn peek(&self) -> (r: &T) {
        &**self
    }
}

impl<T> CanRefMut for Box<T> {
    fn peek_mut(&mut self) -> (r: &mut T) {
        &mut **self
    }
}

// The shared reference-counted carrier. Bins of one stored value share one
// allocation, so handing a bin out does not give the value up.
impl<T> CanBase for Rc<T> {
    type Inner = T;

    open spec fn value(self) -> T {
        *self
    }
}

impl<T> CanSized for Rc<T> {
    fn from_inner(t: T) -> (c: Self) {
        Rc::new(t)
    }
}

impl<T> CanStrong for Rc<T> {
    type Bin = Rc<T>;

    open spec fn bin_value(b: Rc<T>) -> T {
        *b
    }

    fn clone_bin(&self) -> (b: Rc<T>) {
        rc_clone(self)
    }
}

impl<T> CanRef for Rc<T> {
    fn peek(&self) -> (r: &T) {
        rc_borrow(self)
    }
}

// The thread-safe shared carrier.
impl<T: Send + Sync> CanBase for Arc<T> {
    type Inner = T;

    open spec fn value(self) -> T {
        *self
    }
}

impl<T: Send + Sync> CanSized for Arc<T> {
    fn from_inner(t: T) -> (c: Self) {
        Arc::new(t)
    }
}

impl<T: Send + Sync> CanStrong for Arc<T> {
    type Bin = Arc<T>;

    open spec fn bin_value(b: Arc<T>) -> T {
        *b
    }

    fn clone_bin(&self) -> (b: Arc<T>) {
        arc_clone(self)
    }
}

impl<T: Send + Sync> CanRef for Arc<T> {
    fn peek(&self) -> (r: &T) {
        arc_borrow(self)
    }
}

// A blueprint carries itself: a cache with this carrier stores builders of
// builders, and a bin is a new handle onto the stored builder.
impl<B> CanBase for Blueprint<B> {
    type Inner = Blueprint<B>;

    open spec fn value(self) -> Blueprint<B> {
        self
    }
}

impl<B> CanSized for Blueprint<B> {
    fn from_inner(t: Blueprint<B>) -> (c: Self) {
        t
    }
}

impl<B> CanStrong for Blueprint<B> {
    type Bin = Blueprint<B>;

    open spec fn bin_value(b: Blueprint<B>) -> Blueprint<B> {
        b
    }

    fn clone_bin(&self) -> (b: Blueprint<B>) {
        self.clone()
    }
}

} // verus!

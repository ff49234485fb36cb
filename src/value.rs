//! The comparable values that the sorters work on: each stands for an 8-bit
//! plaintext, and offers indicator comparisons and wrapping arithmetic.
use vstd::prelude::*;

use crate::model::{ind, wrap};

verus! {

/// A value whose plaintext the sorters never inspect. Comparisons return 0/1
/// indicators in the same domain, and arithmetic wraps modulo 256.
pub trait Comparable: Sized {
    /// What every operation needs, such as the key that evaluates it.
    type Context;

    /// The plaintext that the value stands for.
    spec fn plain(&self) -> u8;

    /// The value belongs to `ctx`: operations under `ctx` read its plaintext.
    spec fn fits(&self, ctx: &Self::Context) -> bool;

    /// A value that stands for the public constant `v`.
    fn trivial(ctx: &Self::Context, v: u8) -> (r: Self)
        ensures
            r.plain() == v,
            r.fits(ctx),
    ;

    /// The indicator of `self > o`.
    fn greater(&self, ctx: &Self::Context, o: &Self) -> (r: Self)
        requires
            self.fits(ctx),
            o.fits(ctx),
        ensures
            r.fits(ctx),
            r.plain() == ind(self.plain() > o.plain()),
    ;

    /// The indicator of `self == v` for a public constant `v`.
    fn equals(&self, ctx: &Self::Context, v: u8) -> (r: Self)
        requires
            self.fits(ctx),
        ensures
            r.fits(ctx),
            r.plain() == ind(self.plain() == v),
    ;

    /// The wrapping sum of two values.
    fn plus(&self, ctx: &Self::Context, o: &Self) -> (r: Self)
        requires
            self.fits(ctx),
            o.fits(ctx),
        ensures
            r.fits(ctx),
            r.plain() == wrap(self.plain() + o.plain()),
    ;

    /// The wrapping difference of two values.
    fn minus(&self, ctx: &Self::Context, o: &Self) -> (r: Self)
        requires
            self.fits(ctx),
            o.fits(ctx),
        ensures
            r.fits(ctx),
            r.plain() == wrap(self.plain() - o.plain()),
    ;

    /// The wrapping product of two values.
    fn times(&self, ctx: &Self::Context, o: &Self) -> (r: Self)
        requires
            self.fits(ctx),
            o.fits(ctx),
        ensures
            r.fits(ctx),
            r.plain() == wrap(self.plain() * o.plain()),
    ;
}

/// Plain bytes are their own plaintext.
impl Comparable for u8 {
    type Context = ();

    open spec fn plain(&self) -> u8 {
        *self
    }

    open spec fn fits(&self, ctx: &()) -> bool {
        true
    }

    fn trivial(ctx: &(), v: u8) -> (r: u8) {
        v
    }

    fn greater(&self, ctx: &(), o: &u8) -> (r: u8) {
        (*self > *o) as u8
    }

    fn equals(&self, ctx: &(), v: u8) -> (r: u8) {
        (*self == v) as u8
    }

    fn plus(&self, ctx: &(), o: &u8) -> (r: u8) {
        self.wrapping_add(*o)
    }

    fn minus(&self, ctx: &(), o: &u8) -> (r: u8) {
        self.wrapping_sub(*o)
    }

    fn times(&self, ctx: &(), o: &u8) -> (r: u8) {
        self.wrapping_mul(*o)
    }
}

} // verus!

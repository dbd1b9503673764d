//! Accumulator widths: the signed integer types the running sums are kept in.

use vstd::prelude::*;

verus! {

/// A signed accumulator of some width. Every operation asks that its exact
/// result has a magnitude of at most `limit`, and then gives that result.
pub trait Lane: Copy + Sized {
    /// The number that the accumulator holds.
    spec fn val(self) -> int;

    /// The largest magnitude that an accumulator of this width is asked to hold.
    spec fn limit() -> int;

    /// Every width reaches at least 32 bits and at most 64.
    proof fn lemma_limit()
        ensures
            0x7fff_ffff <= Self::limit() <= 0x7fff_ffff_ffff_ffff,
    ;

    /// The accumulator that holds `n`.
    fn from_i32(n: i32) -> (r: Self)
        requires
            -0x7fff_ffff <= n,
        ensures
            r.val() == n,
    ;

    /// The accumulator that holds the level `v`.
    fn from_level(v: u16) -> (r: Self)
        ensures
            r.val() == v,
    ;

    /// The sum of two accumulators.
    fn plus(self, other: Self) -> (r: Self)
        requires
            -Self::limit() <= self.val() + other.val() <= Self::limit(),
        ensures
            r.val() == self.val() + other.val(),
    ;

    /// The difference of two accumulators.
    fn minus(self, other: Self) -> (r: Self)
        requires
            -Self::limit() <= self.val() - other.val() <= Self::limit(),
        ensures
            r.val() == self.val() - other.val(),
    ;

    /// The product of two accumulators.
    fn times(self, other: Self) -> (r: Self)
        requires
            -Self::limit() <= self.val() * other.val() <= Self::limit(),
        ensures
            r.val() == self.val() * other.val(),
    ;

    /// The number held, in 64 bits.
    fn to_i64(self) -> (r: i64)
        ensures
            r == self.val(),
    ;
}

/// `num_traits::FromPrimitive::from_i32` for `i32`: always the value itself.
#[verifier::external_body]
fn i32_from_i32(n: i32) -> (r: Option<i32>)
    ensures
        r == Some(n),
{
    <i32 as num_traits::FromPrimitive>::from_i32(n)
}

/// `num_traits::FromPrimitive::from_i32` for `i64`: always the value itself,
/// widened.
#[verifier::external_body]
fn i64_from_i32(n: i32) -> (r: Option<i64>)
    ensures
        r == Some(n as i64),
{
    <i64 as num_traits::FromPrimitive>::from_i32(n)
}

impl Lane for i32 {
    open spec fn val(self) -> int {
        self as int
    }

    open spec fn limit() -> int {
        0x7fff_ffff
    }

    proof fn lemma_limit() {
    }

    fn from_i32(n: i32) -> (r: Self) {
        match i32_from_i32(n) {
            Some(x) => x,
            None => 0,
        }
    }

    fn from_level(v: u16) -> (r: Self) {
        v as i32
    }

    fn plus(self, other: Self) -> (r: Self) {
        self + other
    }

    fn minus(self, other: Self) -> (r: Self) {
        self - other
    }

    fn times(self, other: Self) -> (r: Self) {
        self * other
    }

    fn to_i64(self) -> (r: i64) {
        self as i64
    }
}

impl Lane for i64 {
    open spec fn val(self) -> int {
        self as int
    }

    open spec fn limit() -> int {
        0x7fff_ffff_ffff_ffff
    }

    proof fn lemma_limit() {
    }

    fn from_i32(n: i32) -> (r: Self) {
        match i64_from_i32(n) {
            Some(x) => x,
            None => 0,
        }
    }

    fn from_level(v: u16) -> (r: Self) {
        v as i64
    }

    fn plus(self, other: Self) -> (r: Self) {
        self + other
    }

    fn minus(self, other: Self) -> (r: Self) {
        self - other
    }

    fn times(self, other: Self) -> (r: Self) {
        self * other
    }

    fn to_i64(self) -> (r: i64) {
        self
    }
}

} // verus!

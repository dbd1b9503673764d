//! Division by the weight of a window as a multiplication and a shift.

use vstd::prelude::*;
use vstd::arithmetic::div_mod::lemma_fundamental_div_mod;

verus! {

/// By how many bits a product with a reciprocal is shifted down.
pub const RECIPROCAL_SHIFT: u32 = 44;

/// Two to the power of `RECIPROCAL_SHIFT`.
pub open spec fn unit() -> int {
    0x1000_0000_0000
}

/// A fixed-point reciprocal: multiplying by `multiplier` and shifting down by
/// `shift` bits stands for dividing by some divisor.
#[derive(Clone, Copy, Debug)]
pub struct Reciprocal {
    pub multiplier: u64,
    pub shift: u32,
}

impl Reciprocal {
    /// What multiplying and shifting makes of `s`.
    pub open spec fn scaled(self, s: int) -> int {
        (s * self.multiplier) / unit()
    }

    /// The reciprocal is the one made for `divisor`. By
    /// `lemma_reciprocal_exact` it then gives the quotient by `divisor`,
    /// rounded down, of every number below 256 times the divisor.
    pub open spec fn inverts(self, divisor: int) -> bool {
        &&& self.shift == 44
        &&& self.multiplier == unit() / divisor + 1
        &&& 1 <= divisor <= 0x4_0000
    }

    /// The reciprocal of the square of `radius`.
    pub fn of_square(radius: u32) -> (rec: Self)
        requires
            1 <= radius <= 512,
        ensures
            rec.inverts(radius * radius),
    {
        assert(1 <= radius * radius <= 512 * 512) by (nonlinear_arith)
            requires
                1 <= radius <= 512,
        ;
        let divisor: u64 = (radius as u64) * (radius as u64);
        Reciprocal { multiplier: 0x1000_0000_0000u64 / divisor + 1, shift: RECIPROCAL_SHIFT }
    }

    /// Multiplies by the multiplier and shifts down.
    pub fn apply(&self, s: u32) -> (q: u64)
        requires
            self.shift == 44,
            s * self.multiplier <= u64::MAX,
        ensures
            q == self.scaled(s as int),
    {
        let product: u64 = (s as u64) * self.multiplier;
        assert(product >> 44 == product / 0x1000_0000_0000) by (bit_vector);
        product >> self.shift
    }
}

/// Multiplying by one more than the quotient of the unit by `d`, and dividing
/// by the unit, divides by `d` exactly, for every number below 256 times `d`.
pub proof fn lemma_reciprocal_exact(s: int, d: int)
    requires
        1 <= d <= 0x4_0000,
        0 <= s < 256 * d,
    ensures
        (s * (unit() / d + 1)) / unit() == s / d,
        s * (unit() / d + 1) <= 0x20_0000_0000_0000,
        s / d <= 255,
{
    let p = unit();
    let a = p / d;
    let b = p % d;
    let m = a + 1;
    let q = s / d;
    let t = s % d;
    lemma_fundamental_div_mod(p, d);
    lemma_fundamental_div_mod(s, d);
    assert(0 <= q < 256) by (nonlinear_arith)
        requires
            q == s / d,
            0 <= s < 256 * d,
            1 <= d,
    ;
    let e = d - b;
    let rest = q * e + t * m;
    assert(s * m == p * q + rest) by (nonlinear_arith)
        requires
            s == d * q + t,
            p == d * a + b,
            m == a + 1,
            e == d - b,
            rest == q * e + t * m,
    ;
    assert(256 * (d * d) <= p) by (nonlinear_arith)
        requires
            1 <= d <= 0x4_0000,
            p == 0x1000_0000_0000,
    ;
    assert(256 * d <= a) by (nonlinear_arith)
        requires
            256 * (d * d) <= p,
            p == d * a + b,
            0 <= b < d,
            1 <= d,
    ;
    assert(0 <= rest < p) by (nonlinear_arith)
        requires
            rest == q * e + t * m,
            0 <= q < 256,
            0 < e <= d,
            0 <= t < d,
            m == a + 1,
            p == d * a + b,
            0 <= b < d,
            256 * d <= a,
            1 <= d,
    ;
}

} // verus!

//! Edge policies: which pixel stands in for a coordinate outside the image.

use vstd::prelude::*;

verus! {

/// How a coordinate that falls outside `[min, max]` is brought back into it.
#[derive(Clone, Copy, Debug, PartialEq, Eq)]
pub enum EdgeMode {
    /// The nearest coordinate inside: the edge pixel repeats.
    Clamp,
    /// The image repeats: leaving on one side enters on the other.
    Wrap,
    /// The image is mirrored at its edges, the edge pixel itself not
    /// repeated.
    Reflect,
}

/// The coordinate in `[lo, hi]` that stands in for `v`.
pub open spec fn edge_index(mode: EdgeMode, v: int, lo: int, hi: int) -> int {
    let n = hi - lo + 1;
    match mode {
        EdgeMode::Clamp => if v < lo {
            lo
        } else if v > hi {
            hi
        } else {
            v
        },
        EdgeMode::Wrap => lo + (v - lo) % n,
        EdgeMode::Reflect => if n == 1 {
            lo
        } else {
            let period = 2 * (n - 1);
            let m = (v - lo) % period;
            if m < n {
                lo + m
            } else {
                lo + period - m
            }
        },
    }
}

/// Whatever the policy, the stand-in lies inside, and a coordinate that is
/// inside stands for itself.
pub proof fn lemma_edge_index(mode: EdgeMode, v: int, lo: int, hi: int)
    requires
        lo <= hi,
    ensures
        lo <= edge_index(mode, v, lo, hi) <= hi,
        lo <= v <= hi ==> edge_index(mode, v, lo, hi) == v,
{
    let n = hi - lo + 1;
    if n > 1 {
        let period = 2 * (n - 1);
        if lo <= v <= hi {
            assert((v - lo) % period == v - lo) by (nonlinear_arith)
                requires
                    0 <= v - lo < period,
            ;
        }
    }
    if lo <= v <= hi {
        assert((v - lo) % n == v - lo) by (nonlinear_arith)
            requires
                0 <= v - lo < n,
        ;
    }
}

/// The remainder of `d` by `n` that is never negative.
fn floor_mod(d: i64, n: i64) -> (m: i64)
    requires
        0 < n,
        -0x4000_0000_0000_0000 <= d <= 0x4000_0000_0000_0000,
    ensures
        m == (d as int) % (n as int),
        0 <= m < n,
{
    if d >= 0 {
        d % n
    } else {
        let back: i64 = (-d) % n;
        proof {
            let dd = d as int;
            let nn = n as int;
            let q = (-dd) / nn;
            assert(-dd == q * nn + back && (-q) * nn == -(q * nn) && (-q - 1) * nn == -(q * nn)
                - nn) by (nonlinear_arith)
                requires
                    q == (-dd) / nn,
                    back == (-dd) % nn,
                    nn > 0,
            ;
            if back == 0 {
                assert(dd % nn == 0) by (nonlinear_arith)
                    requires
                        dd == (-q) * nn,
                        nn > 0,
                ;
            } else {
                assert(dd % nn == nn - back) by (nonlinear_arith)
                    requires
                        dd == (-q - 1) * nn + (nn - back),
                        0 < nn - back < nn,
                ;
            }
        }
        if back == 0 {
            0
        } else {
            n - back
        }
    }
}

/// Computes `edge_index`.
pub fn clamp_edge(mode: EdgeMode, value: i64, min: i64, max: i64) -> (r: usize)
    requires
        0 <= min <= max <= 0x2000_0000_0000_0000,
        max <= usize::MAX,
        -0x2000_0000_0000_0000 <= value <= 0x2000_0000_0000_0000,
    ensures
        r == edge_index(mode, value as int, min as int, max as int),
        min <= r <= max,
{
    let n: i64 = max - min + 1;
    match mode {
        EdgeMode::Clamp => {
            if value < min {
                min as usize
            } else if value > max {
                max as usize
            } else {
                value as usize
            }
        },
        EdgeMode::Wrap => { (min + floor_mod(value - min, n)) as usize },
        EdgeMode::Reflect => {
            if n == 1 {
                min as usize
            } else {
                let period: i64 = 2 * (n - 1);
                let m: i64 = floor_mod(value - min, period);
                if m < n {
                    (min + m) as usize
                } else {
                    (min + period - m) as usize
                }
            }
        },
    }
}

} // verus!

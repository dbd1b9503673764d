//! Sliding-window sums over a stream of samples.
//!
//! A box filter of width `r` applied once, twice or three times to a stream is
//! what the running accumulators of the blur compute incrementally. The
//! functions here say what those sums are; the lemmas say how each of them
//! moves when the window advances by one position, and how large it can get.

use vstd::prelude::*;

verus! {

/// The sample at position `i` of a stream, and zero outside of it.
pub open spec fn at(s: Seq<int>, i: int) -> int {
    if 0 <= i < s.len() {
        s[i]
    } else {
        0
    }
}

/// Sum of the `n` samples that end at position `t`: `s[t - n + 1] + ... + s[t]`.
pub open spec fn box1(s: Seq<int>, t: int, n: nat) -> int
    decreases n,
{
    if n == 0 {
        0
    } else {
        at(s, t) + box1(s, t - 1, (n - 1) as nat)
    }
}

/// Sum of the `n` width-`r` box sums that end at position `t`.
pub open spec fn box2(s: Seq<int>, r: nat, t: int, n: nat) -> int
    decreases n,
{
    if n == 0 {
        0
    } else {
        box1(s, t, r) + box2(s, r, t - 1, (n - 1) as nat)
    }
}

/// Sum of the `n` doubly boxed sums of width `r` that end at position `t`.
pub open spec fn box3(s: Seq<int>, r: nat, t: int, n: nat) -> int
    decreases n,
{
    if n == 0 {
        0
    } else {
        box2(s, r, t, r) + box3(s, r, t - 1, (n - 1) as nat)
    }
}

/// Every sample of the stream between positions `lo` and `hi` lies in `[0, m]`.
pub open spec fn bounded_on(s: Seq<int>, lo: int, hi: int, m: int) -> bool {
    forall|i: int| lo <= i <= hi ==> 0 <= #[trigger] at(s, i) <= m
}

/// Every sample of the stream between positions `lo` and `hi` equals `v`.
pub open spec fn constant_on(s: Seq<int>, lo: int, hi: int, v: int) -> bool {
    forall|i: int| lo <= i <= hi ==> #[trigger] at(s, i) == v
}

/// Two streams hold the same samples between positions `lo` and `hi`.
pub open spec fn agree_on(a: Seq<int>, b: Seq<int>, lo: int, hi: int) -> bool {
    forall|i: int| lo <= i <= hi ==> #[trigger] at(a, i) == at(b, i)
}

/// Advancing a box sum by one position admits the new sample and drops the
/// one that leaves the window.
pub proof fn lemma_box1_slide(s: Seq<int>, t: int, n: nat)
    ensures
        box1(s, t, n) == box1(s, t - 1, n) + at(s, t) - at(s, t - n),
    decreases n,
{
    if n > 0 {
        lemma_box1_slide(s, t - 1, (n - 1) as nat);
    }
}

/// As `lemma_box1_slide`, one level up: a box sum comes in, a box sum goes out.
pub proof fn lemma_box2_slide(s: Seq<int>, r: nat, t: int, n: nat)
    ensures
        box2(s, r, t, n) == box2(s, r, t - 1, n) + box1(s, t, r) - box1(s, t - n, r),
    decreases n,
{
    if n > 0 {
        lemma_box2_slide(s, r, t - 1, (n - 1) as nat);
    }
}

/// As `lemma_box1_slide`, two levels up.
pub proof fn lemma_box3_slide(s: Seq<int>, r: nat, t: int, n: nat)
    ensures
        box3(s, r, t, n) == box3(s, r, t - 1, n) + box2(s, r, t, r) - box2(s, r, t - n, r),
    decreases n,
{
    if n > 0 {
        lemma_box3_slide(s, r, t - 1, (n - 1) as nat);
    }
}

/// Before the stream starts every sum is zero.
pub proof fn lemma_box1_before_start(s: Seq<int>, t: int, n: nat)
    requires
        t < 0,
    ensures
        box1(s, t, n) == 0,
    decreases n,
{
    if n > 0 {
        lemma_box1_before_start(s, t - 1, (n - 1) as nat);
    }
}

/// As `lemma_box1_before_start`, one level up.
pub proof fn lemma_box2_before_start(s: Seq<int>, r: nat, t: int, n: nat)
    requires
        t < 0,
    ensures
        box2(s, r, t, n) == 0,
    decreases n,
{
    if n > 0 {
        lemma_box1_before_start(s, t, r);
        lemma_box2_before_start(s, r, t - 1, (n - 1) as nat);
    }
}

/// As `lemma_box1_before_start`, two levels up.
pub proof fn lemma_box3_before_start(s: Seq<int>, r: nat, t: int, n: nat)
    requires
        t < 0,
    ensures
        box3(s, r, t, n) == 0,
    decreases n,
{
    if n > 0 {
        lemma_box2_before_start(s, r, t, r);
        lemma_box3_before_start(s, r, t - 1, (n - 1) as nat);
    }
}

/// A box sum of samples in `[0, m]` lies in `[0, n * m]`.
pub proof fn lemma_box1_bounds(s: Seq<int>, t: int, n: nat, m: int)
    requires
        bounded_on(s, t - n + 1, t, m),
    ensures
        0 <= box1(s, t, n) <= n * m,
    decreases n,
{
    if n > 0 {
        lemma_box1_bounds(s, t - 1, (n - 1) as nat, m);
        assert(n * m == (n - 1) * m + m) by (nonlinear_arith);
    }
}

/// A double box sum of samples in `[0, m]` lies in `[0, n * r * m]`.
pub proof fn lemma_box2_bounds(s: Seq<int>, r: nat, t: int, n: nat, m: int)
    requires
        bounded_on(s, t - n - r + 2, t, m),
    ensures
        0 <= box2(s, r, t, n) <= n * (r * m),
    decreases n,
{
    if n > 0 {
        lemma_box1_bounds(s, t, r, m);
        lemma_box2_bounds(s, r, t - 1, (n - 1) as nat, m);
        assert(n * (r * m) == (n - 1) * (r * m) + r * m) by (nonlinear_arith);
    }
}

/// A triple box sum of samples in `[0, m]` lies in `[0, n * r * r * m]`.
pub proof fn lemma_box3_bounds(s: Seq<int>, r: nat, t: int, n: nat, m: int)
    requires
        bounded_on(s, t - n - 2 * r + 3, t, m),
    ensures
        0 <= box3(s, r, t, n) <= n * (r * (r * m)),
    decreases n,
{
    if n > 0 {
        lemma_box2_bounds(s, r, t, r, m);
        lemma_box3_bounds(s, r, t - 1, (n - 1) as nat, m);
        assert(n * (r * (r * m)) == (n - 1) * (r * (r * m)) + r * (r * m)) by (nonlinear_arith);
    }
}

/// A box sum over a stretch where the stream is constant is that constant
/// times the width.
pub proof fn lemma_box1_constant(s: Seq<int>, t: int, n: nat, v: int)
    requires
        constant_on(s, t - n + 1, t, v),
    ensures
        box1(s, t, n) == n * v,
    decreases n,
{
    if n > 0 {
        lemma_box1_constant(s, t - 1, (n - 1) as nat, v);
        assert(n * v == (n - 1) * v + v) by (nonlinear_arith);
    } else {
        assert(n * v == 0) by (nonlinear_arith)
            requires
                n == 0,
        ;
    }
}

/// As `lemma_box1_constant`, one level up.
pub proof fn lemma_box2_constant(s: Seq<int>, r: nat, t: int, n: nat, v: int)
    requires
        constant_on(s, t - n - r + 2, t, v),
    ensures
        box2(s, r, t, n) == n * (r * v),
    decreases n,
{
    if n > 0 {
        lemma_box1_constant(s, t, r, v);
        lemma_box2_constant(s, r, t - 1, (n - 1) as nat, v);
        assert(n * (r * v) == (n - 1) * (r * v) + r * v) by (nonlinear_arith);
    } else {
        assert(n * (r * v) == 0) by (nonlinear_arith)
            requires
                n == 0,
        ;
    }
}

/// As `lemma_box1_constant`, two levels up.
pub proof fn lemma_box3_constant(s: Seq<int>, r: nat, t: int, n: nat, v: int)
    requires
        constant_on(s, t - n - 2 * r + 3, t, v),
    ensures
        box3(s, r, t, n) == n * (r * (r * v)),
    decreases n,
{
    if n > 0 {
        lemma_box2_constant(s, r, t, r, v);
        lemma_box3_constant(s, r, t - 1, (n - 1) as nat, v);
        assert(n * (r * (r * v)) == (n - 1) * (r * (r * v)) + r * (r * v)) by (nonlinear_arith);
    } else {
        assert(n * (r * (r * v)) == 0) by (nonlinear_arith)
            requires
                n == 0,
        ;
    }
}

/// Sums over a stretch on which two streams agree are equal.
pub proof fn lemma_box1_agree(a: Seq<int>, b: Seq<int>, t: int, n: nat)
    requires
        agree_on(a, b, t - n + 1, t),
    ensures
        box1(a, t, n) == box1(b, t, n),
    decreases n,
{
    if n > 0 {
        lemma_box1_agree(a, b, t - 1, (n - 1) as nat);
    }
}

/// As `lemma_box1_agree`, one level up.
pub proof fn lemma_box2_agree(a: Seq<int>, b: Seq<int>, r: nat, t: int, n: nat)
    requires
        agree_on(a, b, t - n - r + 2, t),
    ensures
        box2(a, r, t, n) == box2(b, r, t, n),
    decreases n,
{
    if n > 0 {
        lemma_box1_agree(a, b, t, r);
        lemma_box2_agree(a, b, r, t - 1, (n - 1) as nat);
    }
}

/// As `lemma_box1_agree`, two levels up.
pub proof fn lemma_box3_agree(a: Seq<int>, b: Seq<int>, r: nat, t: int, n: nat)
    requires
        agree_on(a, b, t - n - 2 * r + 3, t),
    ensures
        box3(a, r, t, n) == box3(b, r, t, n),
    decreases n,
{
    if n > 0 {
        lemma_box2_agree(a, b, r, t, r);
        lemma_box3_agree(a, b, r, t - 1, (n - 1) as nat);
    }
}

} // verus!

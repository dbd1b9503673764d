//! The second-order recurrence: three running values that together hold the
//! triple box sum of the samples admitted so far.

use vstd::prelude::*;
use crate::lane::Lane;
use crate::window::{at, box1, box2, box3, lemma_box1_agree, lemma_box1_bounds,
    lemma_box1_slide, lemma_box2_agree, lemma_box2_bounds, lemma_box2_slide, lemma_box3_agree,
    lemma_box3_bounds, lemma_box3_slide};

verus! {

/// The cube of a radius: the weight that a triple box sum of that width
/// carries.
pub open spec fn cube(r: int) -> int {
    r * r * r
}

/// The running difference once the samples up to position `k` are admitted.
pub open spec fn diff_at(s: Seq<int>, r: nat, k: int) -> int {
    box1(s, k, r) - 2 * box1(s, k - r, r) + box1(s, k - 2 * r, r)
}

/// The running derivative once the samples up to position `k` are admitted.
pub open spec fn derivative_at(s: Seq<int>, r: nat, k: int) -> int {
    box2(s, r, k, r) - box2(s, r, k - r, r)
}

/// The running sum once the samples up to position `k` are admitted: the
/// triple box sum that ends at `k`.
pub open spec fn sum_at(s: Seq<int>, r: nat, k: int) -> int {
    box3(s, r, k, r)
}

/// Every sample of the stream lies in `[0, m]`.
pub open spec fn within(s: Seq<int>, m: int) -> bool {
    forall|i: int| 0 <= i < s.len() ==> 0 <= #[trigger] s[i] <= m
}

/// How the three running values move when the sample of position `k` is
/// admitted.
pub proof fn lemma_absorb_step(s: Seq<int>, r: nat, k: int)
    ensures
        diff_at(s, r, k) == diff_at(s, r, k - 1) + at(s, k) - 3 * at(s, k - r) + 3 * at(
            s,
            k - 2 * r,
        ) - at(s, k - 3 * r),
        derivative_at(s, r, k) == derivative_at(s, r, k - 1) + diff_at(s, r, k),
        sum_at(s, r, k) == sum_at(s, r, k - 1) + derivative_at(s, r, k),
{
    lemma_box1_slide(s, k, r);
    lemma_box1_slide(s, k - r, r);
    lemma_box1_slide(s, k - 2 * r, r);
    lemma_box2_slide(s, r, k, r);
    lemma_box2_slide(s, r, k - r, r);
    lemma_box3_slide(s, r, k, r);
}

/// How far the three running values can get from zero over samples in
/// `[0, m]`.
pub proof fn lemma_running_bounds(s: Seq<int>, r: nat, k: int, m: int)
    requires
        within(s, m),
        0 <= m,
    ensures
        -2 * (r * m) <= diff_at(s, r, k) <= 2 * (r * m),
        -(r * (r * m)) <= derivative_at(s, r, k) <= r * (r * m),
        0 <= sum_at(s, r, k) <= r * (r * (r * m)),
{
    lemma_box1_bounds(s, k, r, m);
    lemma_box1_bounds(s, k - r, r, m);
    lemma_box1_bounds(s, k - 2 * r, r, m);
    lemma_box2_bounds(s, r, k, r, m);
    lemma_box2_bounds(s, r, k - r, r, m);
    lemma_box3_bounds(s, r, k, r, m);
}

/// Two streams that hold the same samples up to position `k` have the same
/// running values there.
pub proof fn lemma_running_agree(a: Seq<int>, b: Seq<int>, r: nat, k: int)
    requires
        forall|i: int| i <= k ==> at(a, i) == at(b, i),
    ensures
        diff_at(a, r, k) == diff_at(b, r, k),
        derivative_at(a, r, k) == derivative_at(b, r, k),
        sum_at(a, r, k) == sum_at(b, r, k),
{
    lemma_box1_agree(a, b, k, r);
    lemma_box1_agree(a, b, k - r, r);
    lemma_box1_agree(a, b, k - 2 * r, r);
    lemma_box2_agree(a, b, r, k, r);
    lemma_box2_agree(a, b, r, k - r, r);
    lemma_box3_agree(a, b, r, k, r);
}

/// The largest magnitude that any value of the recurrence, or any value on
/// the way to one, takes over samples in `[0, m]`.
pub open spec fn headroom(r: int, m: int) -> int {
    if r >= 2 {
        m * cube(r)
    } else {
        4 * m
    }
}

/// The headroom covers every bound of `lemma_running_bounds`, and what lies
/// between two values on the way from one step to the next.
pub proof fn lemma_headroom(r: int, m: int)
    requires
        1 <= r,
        0 <= m,
    ensures
        4 * m <= headroom(r, m),
        2 * (r * m) + m <= headroom(r, m),
        r * (r * m) <= headroom(r, m),
        r * (r * (r * m)) <= headroom(r, m),
        m * cube(r) <= headroom(r, m),
{
    if r >= 2 {
        assert(4 * m <= m * (r * r * r) && 2 * (r * m) + m <= m * (r * r * r) && r * (r * m) <= m
            * (r * r * r) && r * (r * (r * m)) == m * (r * r * r)) by (nonlinear_arith)
            requires
                r >= 2,
                m >= 0,
        ;
    } else {
        assert(r * m == m && r * (r * m) == m && r * (r * (r * m)) == m && m * (r * r * r) == m)
            by (nonlinear_arith)
            requires
                r == 1,
        ;
    }
}

/// The three running values of one sweep.
pub struct NextAccumulator<A: Lane> {
    pub diff: A,
    pub derivative: A,
    pub sum: A,
}

impl<A: Lane> NextAccumulator<A> {
    /// The state holds exactly the running values for the samples of `s` up to
    /// position `k`.
    pub open spec fn tracks(&self, s: Seq<int>, r: nat, k: int) -> bool {
        &&& self.diff.val() == diff_at(s, r, k)
        &&& self.derivative.val() == derivative_at(s, r, k)
        &&& self.sum.val() == sum_at(s, r, k)
    }

    /// The state before any sample is admitted.
    pub fn reset() -> (acc: Self)
        ensures
            acc.diff.val() == 0,
            acc.derivative.val() == 0,
            acc.sum.val() == 0,
    {
        NextAccumulator { diff: A::from_i32(0), derivative: A::from_i32(0), sum: A::from_i32(0) }
    }

    /// Takes out of the difference what three earlier samples contribute once
    /// the window has moved past them: `near` lies one radius behind the
    /// incoming sample, `middle` two, `far` three.
    pub fn retire_three(&mut self, middle: A, near: A, far: A)
        requires
            -A::limit() <= middle.val() - near.val() <= A::limit(),
            -A::limit() <= 3 * (middle.val() - near.val()) <= A::limit(),
            -A::limit() <= 3 * (middle.val() - near.val()) - far.val() <= A::limit(),
            -A::limit() <= old(self).diff.val() + 3 * (middle.val() - near.val()) - far.val()
                <= A::limit(),
        ensures
            final(self).diff.val() == old(self).diff.val() + 3 * (middle.val() - near.val())
                - far.val(),
            final(self).derivative == old(self).derivative,
            final(self).sum == old(self).sum,
    {
        let threes = A::from_i32(3);
        let step = threes.times(middle.minus(near)).minus(far);
        self.diff = self.diff.plus(step);
    }

    /// As `retire_three`, while the window has not yet reached three radii.
    pub fn retire_two(&mut self, middle: A, near: A)
        requires
            -A::limit() <= middle.val() - near.val() <= A::limit(),
            -A::limit() <= 3 * (middle.val() - near.val()) <= A::limit(),
            -A::limit() <= old(self).diff.val() + 3 * (middle.val() - near.val()) <= A::limit(),
        ensures
            final(self).diff.val() == old(self).diff.val() + 3 * (middle.val() - near.val()),
            final(self).derivative == old(self).derivative,
            final(self).sum == old(self).sum,
    {
        let threes = A::from_i32(3);
        let step = threes.times(middle.minus(near));
        self.diff = self.diff.plus(step);
    }

    /// As `retire_three`, while the window has not yet reached two radii.
    pub fn retire_one(&mut self, near: A)
        requires
            -A::limit() <= 3 * near.val() <= A::limit(),
            -A::limit() <= old(self).diff.val() - 3 * near.val() <= A::limit(),
        ensures
            final(self).diff.val() == old(self).diff.val() - 3 * near.val(),
            final(self).derivative == old(self).derivative,
            final(self).sum == old(self).sum,
    {
        let threes = A::from_i32(3);
        let step = threes.times(near);
        self.diff = self.diff.minus(step);
    }

    /// Admits one sample: the difference takes it in, the derivative takes the
    /// difference in, the sum takes the derivative in.
    pub fn absorb(&mut self, incoming: A)
        requires
            -A::limit() <= old(self).diff.val() + incoming.val() <= A::limit(),
            -A::limit() <= old(self).derivative.val() + old(self).diff.val() + incoming.val()
                <= A::limit(),
            -A::limit() <= old(self).sum.val() + old(self).derivative.val() + old(
                self,
            ).diff.val() + incoming.val() <= A::limit(),
        ensures
            final(self).diff.val() == old(self).diff.val() + incoming.val(),
            final(self).derivative.val() == old(self).derivative.val() + final(self).diff.val(),
            final(self).sum.val() == old(self).sum.val() + final(self).derivative.val(),
    {
        self.diff = self.diff.plus(incoming);
        self.derivative = self.derivative.plus(self.diff);
        self.sum = self.sum.plus(self.derivative);
    }
}

/// The output level for a running sum: the sum divided by the cube of the
/// radius, rounded down, or to the nearest whole number (halves upwards) when
/// `rounded`.
pub open spec fn normalised(sum: int, r: int, rounded: bool) -> int {
    if rounded {
        (2 * sum + cube(r)) / (2 * cube(r))
    } else {
        sum / cube(r)
    }
}

/// A sum of at most `m` times the weight normalises to at most `m`, and a sum
/// of exactly `v` times the weight to `v`.
pub proof fn lemma_normalised(sum: int, r: int, rounded: bool, m: int)
    requires
        1 <= r,
        0 <= sum <= m * cube(r),
    ensures
        0 <= normalised(sum, r, rounded) <= m,
        sum == m * cube(r) ==> normalised(sum, r, rounded) == m,
{
    let d = cube(r);
    assert(d >= 1) by (nonlinear_arith)
        requires
            d == r * r * r,
            r >= 1,
    ;
    if rounded {
        let q = (2 * sum + d) / (2 * d);
        assert(0 <= q <= m && (sum == m * d ==> q == m)) by (nonlinear_arith)
            requires
                q == (2 * sum + d) / (2 * d),
                d >= 1,
                0 <= sum <= m * d,
        ;
    } else {
        let q = sum / d;
        assert(0 <= q <= m && (sum == m * d ==> q == m)) by (nonlinear_arith)
            requires
                q == sum / d,
                d >= 1,
                0 <= sum <= m * d,
        ;
    }
}

/// Computes `normalised`.
pub fn normalise(sum: i64, radius: u32, rounded: bool) -> (v: u32)
    requires
        1 <= radius < 1024,
        0 <= sum <= 0xffff * cube(radius as int),
    ensures
        v == normalised(sum as int, radius as int, rounded),
        v <= 0xffff,
{
    let r: i64 = radius as i64;
    assert(1 <= r * r <= 1023 * 1023 && 1 <= r * r * r <= 1023 * 1023 * 1023) by (nonlinear_arith)
        requires
            1 <= r <= 1023,
    ;
    let weight: i64 = r * r * r;
    proof {
        lemma_normalised(sum as int, radius as int, rounded, 0xffff);
    }
    if rounded {
        ((2 * sum + weight) / (2 * weight)) as u32
    } else {
        (sum / weight) as u32
    }
}

} // verus!

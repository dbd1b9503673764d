//! The first-order recurrence and its sweep along one line.
//!
//! Two running values hold the double box sum of the samples taken in so far.
//! The sweep reads one radius ahead of where it writes, under a selectable
//! edge policy, and it works in place: where the policy sends the read back
//! to an element that is already written, the sweep reads what it wrote.

use vstd::prelude::*;
use crate::edge::{clamp_edge, edge_index, EdgeMode};
use crate::history::{window_fits, CircularHistory};
use crate::line::{lemma_position, lemma_position_order, line_of, on_line, position};
use crate::reciprocal::{lemma_reciprocal_exact, Reciprocal};
use crate::recurrence::within;
use crate::sample::levels;
use crate::sweep::remembers;
use crate::window::{at, box1, box2, lemma_box1_agree, lemma_box1_before_start,
    lemma_box1_bounds, lemma_box1_slide, lemma_box2_agree, lemma_box2_before_start,
    lemma_box2_bounds, lemma_box2_slide};

verus! {

/// What the running sum starts from: half the weight of the window, so that
/// dividing by the weight rounds to the nearest level.
pub open spec fn bias(r: int) -> int {
    (r * r) / 2
}

/// The running difference once the samples up to position `k` are taken in.
pub open spec fn gauss_diff_at(s: Seq<int>, r: nat, k: int) -> int {
    box1(s, k, r) - box1(s, k - r, r)
}

/// The running sum once the samples up to position `k` are taken in: the bias
/// and the double box sum that ends at `k`.
pub open spec fn gauss_sum_at(s: Seq<int>, r: nat, k: int) -> int {
    bias(r as int) + box2(s, r, k, r)
}

/// The level that the sweep writes once it has taken in the samples `taken`.
pub open spec fn gauss_level(taken: Seq<int>, r: int) -> int {
    gauss_sum_at(taken, r as nat, taken.len() - 1) / (r * r)
}

/// A sweep under way: the line as it stands, and the samples taken in so far.
pub struct Run {
    pub line: Seq<int>,
    pub taken: Seq<int>,
}

/// The sweep after `k` steps. It starts two radii before the line. A step at
/// `x` first writes the level for `x`, if `x` is on the line, and then takes
/// in the element that the edge policy gives for `x + r`, as the line then
/// stands.
pub open spec fn gauss_run(line: Seq<int>, r: int, mode: EdgeMode, k: nat) -> Run
    decreases k,
{
    if k == 0 {
        Run { line: line, taken: Seq::empty() }
    } else {
        let before = gauss_run(line, r, mode, (k - 1) as nat);
        let x = k - 1 - 2 * r;
        let written = if 0 <= x < line.len() {
            before.line.update(x, gauss_level(before.taken, r))
        } else {
            before.line
        };
        let source = edge_index(mode, x + r, 0, line.len() - 1);
        Run { line: written, taken: before.taken.push(written[source]) }
    }
}

/// The line after the whole sweep.
pub open spec fn gauss_line(line: Seq<int>, r: int, mode: EdgeMode) -> Seq<int> {
    gauss_run(line, r, mode, (line.len() + 2 * r) as nat).line
}

/// After `k` steps the line is as long as it was, and `k` samples are taken in.
pub proof fn lemma_gauss_run_shape(line: Seq<int>, r: int, mode: EdgeMode, k: nat)
    ensures
        gauss_run(line, r, mode, k).line.len() == line.len(),
        gauss_run(line, r, mode, k).taken.len() == k,
    decreases k,
{
    if k > 0 {
        lemma_gauss_run_shape(line, r, mode, (k - 1) as nat);
    }
}

/// How the two running values move when the sample of position `k` is taken
/// in.
pub proof fn lemma_gauss_step(s: Seq<int>, r: nat, k: int)
    ensures
        gauss_diff_at(s, r, k) == gauss_diff_at(s, r, k - 1) + at(s, k) - 2 * at(s, k - r) + at(
            s,
            k - 2 * r,
        ),
        gauss_sum_at(s, r, k) == gauss_sum_at(s, r, k - 1) + gauss_diff_at(s, r, k),
{
    lemma_box1_slide(s, k, r);
    lemma_box1_slide(s, k - r, r);
    lemma_box2_slide(s, r, k, r);
}

/// How far the two running values can get from zero over samples in
/// `[0, m]`.
pub proof fn lemma_gauss_bounds(s: Seq<int>, r: nat, k: int, m: int)
    requires
        within(s, m),
        0 <= m,
        1 <= r,
    ensures
        -(r * m) <= gauss_diff_at(s, r, k) <= r * m,
        bias(r as int) <= gauss_sum_at(s, r, k) <= bias(r as int) + r * (r * m),
        0 <= bias(r as int) < r * r,
        gauss_sum_at(s, r, k) < (m + 1) * (r * r),
{
    lemma_box1_bounds(s, k, r, m);
    lemma_box1_bounds(s, k - r, r, m);
    lemma_box2_bounds(s, r, k, r, m);
    let ri = r as int;
    assert(ri * m <= ri * ri * m && ri * (ri * m) == ri * ri * m && 0 <= (ri * ri) / 2 < ri * ri
        && (m + 1) * (ri * ri) == ri * ri * m + ri * ri) by (nonlinear_arith)
        requires
            1 <= ri,
            0 <= m,
    ;
}

/// Two streams that hold the same samples up to position `k` have the same
/// running values there.
pub proof fn lemma_gauss_agree(a: Seq<int>, b: Seq<int>, r: nat, k: int)
    requires
        forall|i: int| i <= k ==> at(a, i) == at(b, i),
    ensures
        gauss_diff_at(a, r, k) == gauss_diff_at(b, r, k),
        gauss_sum_at(a, r, k) == gauss_sum_at(b, r, k),
{
    lemma_box1_agree(a, b, k, r);
    lemma_box1_agree(a, b, k - r, r);
    lemma_box2_agree(a, b, r, k, r);
}

/// The two running values of one sweep, in 32 bits each.
pub struct GaussAccumulator {
    pub diffs: i32,
    pub summs: i32,
}

impl GaussAccumulator {
    /// The state holds exactly the running values for the samples of `s` up to
    /// position `k`.
    pub open spec fn tracks(&self, s: Seq<int>, r: nat, k: int) -> bool {
        &&& self.diffs == gauss_diff_at(s, r, k)
        &&& self.summs == gauss_sum_at(s, r, k)
    }

    /// The state before any sample is taken in.
    pub fn reset(radius: u32) -> (acc: Self)
        requires
            radius <= 0x7fff,
        ensures
            acc.diffs == 0,
            acc.summs == bias(radius as int),
    {
        assert(radius * radius <= 0x7fff * 0x7fff) by (nonlinear_arith)
            requires
                0 <= radius <= 0x7fff,
        ;
        assert((radius * radius) as u32 >> 1 == (radius * radius) as u32 / 2) by (bit_vector);
        GaussAccumulator { diffs: 0, summs: ((radius * radius) >> 1) as i32 }
    }

    /// Takes out of the difference what two earlier samples contribute once
    /// the window has moved past them: `near` lies one radius behind the
    /// incoming sample, `far` two.
    pub fn retire_two(&mut self, far: i32, near: i32)
        requires
            -0x3fff_ffff <= near <= 0x3fff_ffff,
            -0x7fff_ffff <= far - 2 * near <= 0x7fff_ffff,
            -0x7fff_ffff <= old(self).diffs + far - 2 * near <= 0x7fff_ffff,
        ensures
            final(self).diffs == old(self).diffs + far - 2 * near,
            final(self).summs == old(self).summs,
    {
        let doubled: i32 = near + near;
        self.diffs = self.diffs + (far - doubled);
    }

    /// As `retire_two`, while the window has not yet reached two radii.
    pub fn retire_one(&mut self, near: i32)
        requires
            -0x3fff_ffff <= near <= 0x3fff_ffff,
            -0x7fff_ffff <= old(self).diffs - 2 * near <= 0x7fff_ffff,
        ensures
            final(self).diffs == old(self).diffs - 2 * near,
            final(self).summs == old(self).summs,
    {
        let doubled: i32 = near + near;
        self.diffs = self.diffs - doubled;
    }

    /// Takes one sample in: the difference takes it in, the sum takes the
    /// difference in.
    pub fn absorb(&mut self, incoming: i32)
        requires
            -0x7fff_ffff <= old(self).diffs + incoming <= 0x7fff_ffff,
            -0x7fff_ffff <= old(self).summs + old(self).diffs + incoming <= 0x7fff_ffff,
        ensures
            final(self).diffs == old(self).diffs + incoming,
            final(self).summs == old(self).summs + final(self).diffs,
    {
        self.diffs = self.diffs + incoming;
        self.summs = self.summs + self.diffs;
    }
}

/// Before any sample is taken in, the accumulator tracks the empty stream.
proof fn lemma_gauss_fresh(r: nat)
    ensures
        gauss_diff_at(Seq::<int>::empty(), r, -1) == 0,
        gauss_sum_at(Seq::<int>::empty(), r, -1) == bias(r as int),
{
    let e = Seq::<int>::empty();
    lemma_box1_before_start(e, -1, r);
    lemma_box1_before_start(e, -1 - r, r);
    lemma_box2_before_start(e, r, -1, r);
}

fn retire_gauss(
    acc: &mut GaussAccumulator,
    history: &CircularHistory<i32>,
    x: i64,
    r: i64,
    Ghost(taken): Ghost<Seq<int>>,
)
    requires
        1 <= r < 512,
        -2 * r <= x <= 0xffff_ffff,
        taken.len() == x + 2 * r,
        within(taken, 255),
        old(acc).tracks(taken, r as nat, x + 2 * r - 1),
        remembers(*history, taken, r as int, x as int),
    ensures
        final(acc).diffs == gauss_diff_at(taken, r as nat, x + 2 * r - 1) - 2 * at(taken, x + r)
            + at(taken, x as int),
        final(acc).summs == old(acc).summs,
{
    let ghost k: int = x + 2 * r;
    let ghost rr = r as nat;
    proof {
        let padded = taken.push(0);
        lemma_gauss_agree(padded, taken, rr, k - 1);
        lemma_gauss_step(padded, rr, k);
        lemma_gauss_bounds(padded, rr, k, 255);
    }
    if x >= 0 {
        let far = history.load(x - r);
        let near = history.load(x);
        acc.retire_two(far, near);
    } else if x + r >= 0 {
        let near = history.load(x);
        acc.retire_one(near);
    }
}

fn take_gauss(
    acc: &mut GaussAccumulator,
    history: &mut CircularHistory<i32>,
    x: i64,
    r: i64,
    level: u8,
    Ghost(taken): Ghost<Seq<int>>,
)
    requires
        1 <= r < 512,
        -2 * r <= x <= 0xffff_ffff,
        taken.len() == x + 2 * r,
        within(taken, 255),
        old(acc).diffs == gauss_diff_at(taken, r as nat, x + 2 * r - 1) - 2 * at(taken, x + r)
            + at(taken, x as int),
        old(acc).summs == gauss_sum_at(taken, r as nat, x + 2 * r - 1),
        remembers(*old(history), taken, r as int, x as int),
    ensures
        final(acc).tracks(taken.push(level as int), r as nat, x + 2 * r),
        remembers(*final(history), taken.push(level as int), r as int, x + 1),
{
    let ghost k: int = x + 2 * r;
    let ghost rr = r as nat;
    let ghost grown = taken.push(level as int);
    proof {
        lemma_gauss_agree(grown, taken, rr, k - 1);
        lemma_gauss_step(grown, rr, k);
        lemma_gauss_bounds(grown, rr, k, 255);
        assert(r * 255 <= 511 * 255 && r * (r * 255) <= 511 * 511 * 255 && 0 <= (r * r) / 2
            <= 511 * 511) by (nonlinear_arith)
            requires
                1 <= r <= 511,
        ;
    }
    let incoming: i32 = level as i32;
    acc.absorb(incoming);
    history.store(x + r, incoming);
}

/// Blurs one line of an 8-bit buffer in place with the first-order
/// recurrence.
///
/// The line has `count` elements, the first at `base`, each `step` after the
/// one before. Afterwards the line holds what `gauss_line` makes of the
/// levels it had; nothing else in the buffer changes. The division by the
/// weight of the window is done with `reciprocal`.
pub fn sweep_gauss(
    buf: &mut [u8],
    base: usize,
    step: usize,
    count: usize,
    radius: u32,
    edge_mode: EdgeMode,
    reciprocal: Reciprocal,
)
    requires
        1 <= radius,
        window_fits(2 * radius),
        reciprocal.inverts(radius * radius),
        1 <= count <= 0xffff_ffff,
        1 <= step,
        position(base as int, step as int, count - 1) < old(buf)@.len(),
    ensures
        final(buf)@.len() == old(buf)@.len(),
        line_of(levels(final(buf)@), base as int, step as int, count as int) == gauss_line(
            line_of(levels(old(buf)@), base as int, step as int, count as int),
            radius as int,
            edge_mode,
        ),
        forall|p: int|
            0 <= p < old(buf)@.len() && !on_line(p, base as int, step as int, count as int)
                ==> final(buf)@[p] == old(buf)@[p],
{
    let ghost b = base as int;
    let ghost st = step as int;
    let ghost line = line_of(levels(old(buf)@), b, st, count as int);
    let ghost rr = radius as nat;
    let r: i64 = radius as i64;
    let n: i64 = count as i64;
    let mut history = CircularHistory::<i32>::new();
    let mut acc = GaussAccumulator::reset(radius);
    let ghost mut run: Run = gauss_run(line, r as int, edge_mode, 0);
    let mut x: i64 = -2 * r;
    let len = buf.len();
    proof {
        lemma_gauss_fresh(rr);
    }
    while x < n
        invariant
            1 <= r < 512,
            r == radius,
            rr == radius,
            n == count,
            1 <= n <= 0xffff_ffff,
            1 <= step,
            b == base,
            st == step,
            reciprocal.inverts(r * r),
            position(b, st, n - 1) < buf@.len(),
            buf@.len() == old(buf)@.len(),
            buf@.len() == len,
            line == line_of(levels(old(buf)@), b, st, n as int),
            line.len() == n,
            -2 * r <= x <= n,
            run == gauss_run(line, r as int, edge_mode, (x + 2 * r) as nat),
            run.taken.len() == x + 2 * r,
            run.line.len() == n,
            within(run.taken, 255),
            acc.tracks(run.taken, rr, x + 2 * r - 1),
            remembers(history, run.taken, r as int, x as int),
            line_of(levels(buf@), b, st, n as int) == run.line,
            forall|p: int|
                0 <= p < buf@.len() && !on_line(p, b, st, n as int) ==> buf@[p] == old(buf)@[p],
        decreases n - x,
    {
        let ghost k: int = x + 2 * r;
        let ghost taken = run.taken;
        if x >= 0 {
            proof {
                lemma_gauss_bounds(taken, rr, k - 1, 255);
                lemma_reciprocal_exact(acc.summs as int, r * r);
                lemma_position_order(b, st, x as int, n - 1);
                lemma_position(b, st, 0);
                lemma_position(b, st, x as int);
            }
            let scaled = reciprocal.apply(acc.summs as u32);
            let level: u8 = if scaled > 255 {
                255
            } else {
                scaled as u8
            };
            let at_x: usize = base + (x as usize) * step;
            buf[at_x] = level;
            proof {
                let now = line_of(levels(buf@), b, st, n as int);
                let want = run.line.update(x as int, level as int);
                assert forall|i: int| 0 <= i < n implies now[i] == want[i] by {
                    lemma_position_order(b, st, 0, i);
                    lemma_position_order(b, st, i, n - 1);
                    if i < x {
                        lemma_position_order(b, st, i, x as int);
                    } else if i > x {
                        lemma_position_order(b, st, x as int, i);
                    }
                }
            }
        }
        retire_gauss(&mut acc, &history, x, r, Ghost(taken));
        let source = clamp_edge(edge_mode, x + r, 0, n - 1);
        proof {
            lemma_position_order(b, st, source as int, n - 1);
            lemma_position(b, st, source as int);
        }
        let sample: u8 = buf[base + source * step];
        take_gauss(&mut acc, &mut history, x, r, sample, Ghost(taken));
        proof {
            run = gauss_run(line, r as int, edge_mode, (k + 1) as nat);
        }
        x = x + 1;
    }
}

} // verus!

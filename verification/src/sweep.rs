//! The second-order sweep along one line.

use vstd::prelude::*;
use crate::edge::{clamp_edge, EdgeMode};
use crate::history::{window_fits, CircularHistory};
use crate::lane::Lane;
use crate::line::{lemma_position, lemma_position_order, line_of, lookahead_next, next_value,
    on_line, position, stream_next};
use crate::recurrence::{cube, derivative_at, diff_at, headroom, lemma_absorb_step,
    lemma_headroom, lemma_normalised, lemma_running_agree, lemma_running_bounds, normalise,
    sum_at, within, NextAccumulator};
use crate::sample::{levels, Sample};
use crate::window::{at, lemma_box1_before_start, lemma_box2_before_start,
    lemma_box3_before_start};

verus! {

/// The history holds, at the place where the sweep looks for it, every sample
/// taken in since the sweep stood at `y`.
pub(crate) open spec fn remembers<A: Lane>(
    history: CircularHistory<A>,
    taken: Seq<int>,
    r: int,
    y: int,
) -> bool {
    forall|v: int|
        0 <= v + r < taken.len() && y <= v + r ==> #[trigger] history.held(v) == taken[v + r]
}

/// Before any sample is taken in, the accumulator tracks the empty stream.
proof fn lemma_fresh(r: nat)
    ensures
        diff_at(Seq::<int>::empty(), r, -1) == 0,
        derivative_at(Seq::<int>::empty(), r, -1) == 0,
        sum_at(Seq::<int>::empty(), r, -1) == 0,
{
    let e = Seq::<int>::empty();
    lemma_box1_before_start(e, -1, r);
    lemma_box1_before_start(e, -1 - r, r);
    lemma_box1_before_start(e, -1 - 2 * r, r);
    lemma_box2_before_start(e, r, -1, r);
    lemma_box2_before_start(e, r, -1 - r, r);
    lemma_box3_before_start(e, r, -1, r);
}

/// Takes out of the running difference what the samples one, two and three
/// radii back contribute, as far as the sweep has come that far.
fn retire<A: Lane>(
    acc: &mut NextAccumulator<A>,
    history: &CircularHistory<A>,
    y: i64,
    r: i64,
    Ghost(taken): Ghost<Seq<int>>,
    Ghost(m): Ghost<int>,
)
    requires
        1 <= r < 342,
        -3 * r <= y <= 0xffff_ffff,
        taken.len() == y + 3 * r,
        within(taken, m),
        0 <= m,
        headroom(r as int, m) <= A::limit(),
        old(acc).tracks(taken, r as nat, y + 3 * r - 1),
        remembers(*history, taken, r as int, y as int),
    ensures
        final(acc).diff.val() == diff_at(taken, r as nat, y + 3 * r - 1) - 3 * at(
            taken,
            y + 2 * r,
        ) + 3 * at(taken, y + r) - at(taken, y as int),
        final(acc).derivative == old(acc).derivative,
        final(acc).sum == old(acc).sum,
{
    let ghost k: int = y + 3 * r;
    let ghost rr = r as nat;
    proof {
        lemma_headroom(r as int, m);
        let padded = taken.push(0);
        lemma_running_agree(padded, taken, rr, k - 1);
        lemma_absorb_step(padded, rr, k);
        lemma_running_bounds(padded, rr, k, m);
        assert(-2 * (r * m) <= diff_at(padded, rr, k) <= 2 * (r * m));
    }
    if y >= 0 {
        let middle = history.load(y);
        let near = history.load(y + r);
        let far = history.load(y - r);
        acc.retire_three(middle, near, far);
    } else if y + r >= 0 {
        let middle = history.load(y);
        let near = history.load(y + r);
        acc.retire_two(middle, near);
    } else if y + 2 * r >= 0 {
        let near = history.load(y + r);
        acc.retire_one(near);
    }
}

/// Takes one sample into the accumulator and into the history.
fn take<A: Lane>(
    acc: &mut NextAccumulator<A>,
    history: &mut CircularHistory<A>,
    y: i64,
    r: i64,
    level: u16,
    Ghost(taken): Ghost<Seq<int>>,
    Ghost(m): Ghost<int>,
)
    requires
        1 <= r < 342,
        -3 * r <= y <= 0xffff_ffff,
        taken.len() == y + 3 * r,
        within(taken, m),
        level <= m,
        headroom(r as int, m) <= A::limit(),
        old(acc).diff.val() == diff_at(taken, r as nat, y + 3 * r - 1) - 3 * at(taken, y + 2 * r)
            + 3 * at(taken, y + r) - at(taken, y as int),
        old(acc).derivative.val() == derivative_at(
            taken,
            r as nat,
            y + 3 * r - 1,
        ),
        old(acc).sum.val() == sum_at(taken, r as nat, y + 3 * r - 1),
        remembers(*old(history), taken, r as int, y as int),
    ensures
        final(acc).tracks(taken.push(level as int), r as nat, y + 3 * r),
        remembers(*final(history), taken.push(level as int), r as int, y + 1),
{
    let ghost k: int = y + 3 * r;
    let ghost rr = r as nat;
    let ghost grown = taken.push(level as int);
    proof {
        lemma_headroom(r as int, m);
        lemma_running_agree(grown, taken, rr, k - 1);
        lemma_absorb_step(grown, rr, k);
        lemma_running_bounds(grown, rr, k, m);
        assert(-2 * (r * m) <= diff_at(grown, rr, k) <= 2 * (r * m));
    }
    let incoming = A::from_level(level);
    acc.absorb(incoming);
    history.store(y + 2 * r, incoming);
}

/// Blurs one line of the buffer in place with the second-order recurrence.
///
/// The line has `count` elements, the first at `base`, each `step` after the
/// one before. Every element of the line gets the level that `next_value`
/// gives it from the levels the line had before; nothing else in the buffer
/// changes.
pub fn sweep_next<T: Sample, A: Lane>(
    buf: &mut [T],
    base: usize,
    step: usize,
    count: usize,
    radius: u32,
    rounded: bool,
)
    requires
        1 <= radius,
        window_fits(3 * radius),
        1 <= count <= 0xffff_ffff,
        1 <= step,
        position(base as int, step as int, count - 1) < old(buf)@.len(),
        headroom(radius as int, T::max_level()) <= A::limit(),
    ensures
        final(buf)@.len() == old(buf)@.len(),
        forall|i: int|
            0 <= i < count ==> (#[trigger] final(buf)@[position(
                base as int,
                step as int,
                i,
            )]).level() == next_value(
                line_of(levels(old(buf)@), base as int, step as int, count as int),
                radius as int,
                i,
                rounded,
            ),
        forall|p: int|
            0 <= p < old(buf)@.len() && !on_line(p, base as int, step as int, count as int)
                ==> final(buf)@[p] == old(buf)@[p],
{
    let ghost b = base as int;
    let ghost st = step as int;
    let ghost line = line_of(levels(old(buf)@), b, st, count as int);
    let ghost model = stream_next(line, radius as int);
    let ghost rr = radius as nat;
    let ghost m = T::max_level();
    let r: i64 = radius as i64;
    let n: i64 = count as i64;
    let reach: i64 = (3 * r) / 2;
    let mut history = CircularHistory::<A>::new();
    let mut acc = NextAccumulator::<A>::reset();
    let ghost mut taken: Seq<int> = Seq::empty();
    let mut y: i64 = -3 * r;
    let len = buf.len();
    proof {
        T::lemma_max_level();
        lemma_fresh(rr);
    }
    while y < n
        invariant
            1 <= r < 342,
            r == radius,
            rr == radius,
            n == count,
            1 <= n <= 0xffff_ffff,
            1 <= step,
            b == base,
            st == step,
            reach == lookahead_next(r as int),
            m == T::max_level(),
            0 < m <= 0xffff,
            headroom(r as int, m) <= A::limit(),
            position(b, st, n - 1) < buf@.len(),
            buf@.len() == old(buf)@.len(),
            buf@.len() == len,
            line == line_of(levels(old(buf)@), b, st, n as int),
            model == stream_next(line, r as int),
            -3 * r <= y <= n,
            taken.len() == y + 3 * r,
            within(taken, m),
            forall|j: int| 0 <= j < taken.len() && j < n + 3 * r - 1 ==> taken[j] == model[j],
            acc.tracks(taken, rr, y + 3 * r - 1),
            remembers(history, taken, r as int, y as int),
            forall|i: int|
                0 <= i < y ==> (#[trigger] buf@[position(b, st, i)]).level() == next_value(
                    line,
                    r as int,
                    i,
                    rounded,
                ),
            forall|i: int|
                0 <= i < n && y <= i ==> #[trigger] buf@[position(b, st, i)] == old(buf)@[position(
                    b,
                    st,
                    i,
                )],
            forall|p: int|
                0 <= p < buf@.len() && !on_line(p, b, st, n as int) ==> buf@[p] == old(buf)@[p],
        decreases n - y,
    {
        let ghost k: int = y + 3 * r;
        let ghost before = buf@;
        if y >= 0 {
            proof {
                lemma_running_bounds(taken, rr, k - 1, m);
                assert(r * (r * (r * m)) == m * cube(r as int)) by (nonlinear_arith);
                assert(m * cube(r as int) <= 0xffff * cube(r as int)) by (nonlinear_arith)
                    requires
                        m <= 0xffff,
                        cube(r as int) == r * r * r,
                        r >= 1,
                ;
                lemma_running_agree(taken, model, rr, k - 1);
                lemma_normalised(acc.sum.val(), r as int, rounded, m);
                lemma_position_order(b, st, y as int, n - 1);
                lemma_position(b, st, 0);
                lemma_position(b, st, y as int);
            }
            let level = normalise(acc.sum.to_i64(), radius, rounded);
            let at_y: usize = base + (y as usize) * step;
            buf[at_y] = T::narrow(level);
            proof {
                assert forall|i: int| 0 <= i < n && i != y implies #[trigger] buf@[position(
                    b,
                    st,
                    i,
                )] == before[position(b, st, i)] by {
                    lemma_position_order(b, st, 0, i);
                    lemma_position_order(b, st, i, n - 1);
                    if i < y {
                        lemma_position_order(b, st, i, y as int);
                    } else {
                        lemma_position_order(b, st, y as int, i);
                    }
                }
            }
        }
        retire(&mut acc, &history, y, r, Ghost(taken), Ghost(m));
        let source = clamp_edge(EdgeMode::Clamp, y + reach, 0, n - 1);
        proof {
            lemma_position_order(b, st, source as int, n - 1);
            lemma_position(b, st, source as int);
        }
        let sample = buf[base + source * step];
        proof {
            T::lemma_level_range(sample);
        }
        take(&mut acc, &mut history, y, r, sample.widen(), Ghost(taken), Ghost(m));
        proof {
            taken = taken.push(sample.level());
        }
        y = y + 1;
    }
}

} // verus!

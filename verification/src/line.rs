//! One line of an image: a column or a row of one channel, as it lies in the
//! pixel buffer, and what a sweep of the second-order blur makes of it.

use vstd::prelude::*;
use crate::edge::{edge_index, EdgeMode};
use crate::recurrence::{normalised, sum_at};

verus! {

/// Where element `i` of a line lies in the buffer: the line starts at `base`
/// and its elements are `step` apart.
#[verifier::opaque]
pub open spec fn position(base: int, step: int, i: int) -> int {
    base + i * step
}

/// What `position` is, for where it has to be computed.
pub proof fn lemma_position(base: int, step: int, i: int)
    ensures
        position(base, step, i) == base + i * step,
{
    reveal(position);
}

/// Buffer position `p` belongs to the line of `count` elements.
pub open spec fn on_line(p: int, base: int, step: int, count: int) -> bool {
    exists|i: int| 0 <= i < count && p == #[trigger] position(base, step, i)
}

/// The levels of a line, first element first.
pub open spec fn line_of(img: Seq<int>, base: int, step: int, count: int) -> Seq<int> {
    Seq::new(count as nat, |i: int| img[position(base, step, i)])
}

/// How far ahead of the output position the second-order sweep reads.
pub open spec fn lookahead_next(r: int) -> int {
    (3 * r) / 2
}

/// The samples that a second-order sweep of radius `r` takes in, in the order
/// in which it takes them in: it starts three radii before the line, reads
/// `lookahead_next(r)` ahead of where it stands, and reads the nearest element
/// where that falls outside the line.
pub open spec fn stream_next(line: Seq<int>, r: int) -> Seq<int> {
    Seq::new(
        (line.len() + 3 * r) as nat,
        |k: int|
            line[edge_index(EdgeMode::Clamp, k - 3 * r + lookahead_next(r), 0, line.len() - 1)],
    )
}

/// The level that a second-order sweep of radius `r` gives element `i` of a
/// line: the triple box sum of the `3 * r - 2` samples taken in last before
/// the sweep reaches `i`, divided by the cube of the radius.
pub open spec fn next_value(line: Seq<int>, r: int, i: int, rounded: bool) -> int {
    normalised(sum_at(stream_next(line, r), r as nat, i + 3 * r - 1), r, rounded)
}

/// Elements of a line lie at different positions, in the order of their
/// indices.
pub proof fn lemma_position_order(base: int, step: int, i: int, j: int)
    requires
        1 <= step,
        i <= j,
    ensures
        position(base, step, i) <= position(base, step, j),
        i < j ==> position(base, step, i) + step <= position(base, step, j),
{
    reveal(position);
    assert(i * step <= j * step && (i < j ==> i * step + step <= j * step)) by (nonlinear_arith)
        requires
            1 <= step,
            i <= j,
    ;
}

} // verus!

//! What holds of both blurs whatever the image: they keep the geometry, they
//! keep the levels in range, they leave an image of one colour as it is, and
//! with a radius of one they leave every image as it is. And what the
//! first-order sweep computes where the edge policy never sends it back to
//! what it has written.

use vstd::prelude::*;
use vstd::arithmetic::div_mod::lemma_fundamental_div_mod_converse;
use crate::edge::{edge_index, lemma_edge_index, EdgeMode};
use crate::gauss::{bias, gauss_level, gauss_line, gauss_run, gauss_sum_at, lemma_gauss_agree,
    lemma_gauss_bounds, lemma_gauss_run_shape};
use crate::kernel::{lemma_swept_len, swept, Kernel};
use crate::layout::{blur, horizontal_pass, lemma_column_element, lemma_on_column, lemma_on_row,
    lemma_row_element, vertical_pass, Shape};
use crate::line::{line_of, lookahead_next, next_value, stream_next};
use crate::recurrence::{cube, lemma_normalised, lemma_running_bounds, normalised, sum_at, within};
use crate::window::{at, box1, box2, box3, constant_on, lemma_box2_constant, lemma_box3_constant};

verus! {

/// A running sum that is exactly `v` times the weight normalises to `v`.
pub proof fn lemma_normalised_exact(v: int, r: int, rounded: bool)
    requires
        1 <= r,
    ensures
        normalised(v * cube(r), r, rounded) == v,
{
    let d = cube(r);
    assert(d >= 1) by (nonlinear_arith)
        requires
            d == r * r * r,
            r >= 1,
    ;
    if rounded {
        assert(2 * (v * d) + d == (2 * d) * v + d) by (nonlinear_arith);
        lemma_fundamental_div_mod_converse(2 * (v * d) + d, 2 * d, v, d);
    } else {
        assert(v * d == d * v + 0) by (nonlinear_arith);
        lemma_fundamental_div_mod_converse(v * d, d, v, 0);
    }
}

/// A second-order sweep gives every element of a line a level between zero
/// and the highest level that the line can hold.
pub proof fn lemma_next_value_in_range(line: Seq<int>, r: int, i: int, rounded: bool, m: int)
    requires
        1 <= r,
        0 <= m,
        1 <= line.len(),
        within(line, m),
    ensures
        0 <= next_value(line, r, i, rounded) <= m,
{
    let s = stream_next(line, r);
    assert(within(s, m)) by {
        assert forall|k: int| 0 <= k < s.len() implies 0 <= #[trigger] s[k] <= m by {
            lemma_edge_index(
                EdgeMode::Clamp,
                k - 3 * r + lookahead_next(r),
                0,
                line.len() - 1,
            );
        }
    }
    lemma_running_bounds(s, r as nat, i + 3 * r - 1, m);
    assert(r * (r * (r * m)) == m * cube(r)) by (nonlinear_arith);
    lemma_normalised(sum_at(s, r as nat, i + 3 * r - 1), r, rounded, m);
}

/// A second-order sweep leaves a line of one level as it is.
pub proof fn lemma_next_value_of_constant(line: Seq<int>, r: int, i: int, rounded: bool, v: int)
    requires
        1 <= r,
        0 <= i < line.len(),
        forall|j: int| 0 <= j < line.len() ==> line[j] == v,
    ensures
        next_value(line, r, i, rounded) == v,
{
    let s = stream_next(line, r);
    let t = i + 3 * r - 1;
    assert(constant_on(s, t - 3 * r + 3, t, v)) by {
        assert forall|k: int| t - 3 * r + 3 <= k <= t implies #[trigger] at(s, k) == v by {
            lemma_edge_index(
                EdgeMode::Clamp,
                k - 3 * r + lookahead_next(r),
                0,
                line.len() - 1,
            );
        }
    }
    lemma_box3_constant(s, r as nat, t, r as nat, v);
    assert(r * (r * (r * v)) == v * cube(r)) by (nonlinear_arith);
    lemma_normalised_exact(v, r, rounded);
}

/// A first-order sweep keeps every level between zero and the highest level
/// that the line can hold, at every step and under every edge policy.
pub proof fn lemma_gauss_run_in_range(line: Seq<int>, r: int, mode: EdgeMode, k: nat, m: int)
    requires
        1 <= r,
        0 <= m,
        1 <= line.len(),
        within(line, m),
    ensures
        within(gauss_run(line, r, mode, k).line, m),
        within(gauss_run(line, r, mode, k).taken, m),
    decreases k,
{
    if k > 0 {
        let before = gauss_run(line, r, mode, (k - 1) as nat);
        lemma_gauss_run_in_range(line, r, mode, (k - 1) as nat, m);
        lemma_gauss_run_shape(line, r, mode, (k - 1) as nat);
        let x = k - 1 - 2 * r;
        let level = gauss_level(before.taken, r);
        lemma_gauss_bounds(before.taken, r as nat, k - 2, m);
        assert(0 <= level <= m) by (nonlinear_arith)
            requires
                level == gauss_sum_at(before.taken, r as nat, k - 2) / (r * r),
                0 <= gauss_sum_at(before.taken, r as nat, k - 2) < (m + 1) * (r * r),
                1 <= r,
        ;
        lemma_edge_index(mode, x + r, 0, line.len() - 1);
    }
}

/// A first-order sweep leaves a line of one level as it is, at every step and
/// under every edge policy.
pub proof fn lemma_gauss_run_of_constant(line: Seq<int>, r: int, mode: EdgeMode, k: nat, v: int)
    requires
        1 <= r,
        1 <= line.len(),
        forall|j: int| 0 <= j < line.len() ==> line[j] == v,
    ensures
        gauss_run(line, r, mode, k).line == line,
        forall|j: int| 0 <= j < k ==> gauss_run(line, r, mode, k).taken[j] == v,
    decreases k,
{
    if k > 0 {
        let before = gauss_run(line, r, mode, (k - 1) as nat);
        lemma_gauss_run_of_constant(line, r, mode, (k - 1) as nat, v);
        lemma_gauss_run_shape(line, r, mode, (k - 1) as nat);
        let x = k - 1 - 2 * r;
        if 0 <= x < line.len() {
            let s = before.taken;
            lemma_box2_constant(s, r as nat, k - 2, r as nat, v);
            assert(0 <= bias(r) < r * r && r * (r * v) == (r * r) * v) by (nonlinear_arith)
                requires
                    1 <= r,
                    bias(r) == (r * r) / 2,
            ;
            lemma_fundamental_div_mod_converse(bias(r) + (r * r) * v, r * r, v, bias(r));
        }
    }
}

/// A sweep of either recurrence keeps the levels of a line in range.
pub proof fn lemma_swept_in_range(kernel: Kernel, r: int, line: Seq<int>, m: int)
    requires
        1 <= r,
        0 <= m,
        1 <= line.len(),
        within(line, m),
    ensures
        within(swept(kernel, r, line), m),
{
    match kernel {
        Kernel::Next { rounded } => {
            let out = swept(kernel, r, line);
            assert forall|i: int| 0 <= i < out.len() implies 0 <= #[trigger] out[i] <= m by {
                lemma_next_value_in_range(line, r, i, rounded, m);
            }
        },
        Kernel::Gauss { mode } => {
            lemma_gauss_run_in_range(line, r, mode, (line.len() + 2 * r) as nat, m);
        },
    }
}

/// A sweep of either recurrence leaves a line of one level as it is.
pub proof fn lemma_swept_of_constant(kernel: Kernel, r: int, line: Seq<int>, v: int)
    requires
        1 <= r,
        1 <= line.len(),
        forall|j: int| 0 <= j < line.len() ==> line[j] == v,
    ensures
        swept(kernel, r, line) == line,
{
    match kernel {
        Kernel::Next { rounded } => {
            let out = swept(kernel, r, line);
            assert forall|i: int| 0 <= i < out.len() implies out[i] == line[i] by {
                lemma_next_value_of_constant(line, r, i, rounded, v);
            }
        },
        Kernel::Gauss { mode } => {
            lemma_gauss_run_of_constant(line, r, mode, (line.len() + 2 * r) as nat, v);
        },
    }
}

/// A blur keeps the geometry: the buffer is as long as it was, and what is
/// not a channel of a pixel (padding at the end of a row, or behind the last
/// row) is as it was.
pub proof fn lemma_blur_keeps_geometry(
    img: Seq<int>,
    shape: Shape,
    down: Kernel,
    along: Kernel,
    r: int,
)
    ensures
        blur(img, shape, down, along, r).len() == img.len(),
        forall|p: int|
            0 <= p < img.len() && !shape.covers(p) ==> blur(img, shape, down, along, r)[p]
                == img[p],
{
}

/// A blur keeps the levels in range: where no level of the image is above
/// `m`, no level of the blurred image is. For an 8-bit image that is 255.
pub proof fn lemma_blur_stays_in_range(
    img: Seq<int>,
    shape: Shape,
    down: Kernel,
    along: Kernel,
    r: int,
    m: int,
)
    requires
        shape.fits(img.len() as int),
        1 <= r,
        0 <= m,
        within(img, m),
    ensures
        within(blur(img, shape, down, along, r), m),
{
    let mid = vertical_pass(img, shape, down, r, 0, shape.width);
    assert(within(mid, m)) by {
        assert forall|p: int| 0 <= p < mid.len() implies 0 <= #[trigger] mid[p] <= m by {
            if shape.covers(p) {
                let line = line_of(img, shape.column_base(p), shape.stride, shape.height);
                assert(within(line, m)) by {
                    assert forall|i: int| 0 <= i < line.len() implies 0 <= #[trigger] line[i]
                        <= m by {
                        lemma_column_element(shape, shape.lane(p), i);
                    }
                }
                lemma_swept_in_range(down, r, line, m);
                lemma_swept_len(down, r, line);
            }
        }
    }
    let out = horizontal_pass(mid, shape, along, r, 0, shape.height);
    assert forall|p: int| 0 <= p < out.len() implies 0 <= #[trigger] out[p] <= m by {
        if shape.covers(p) {
            lemma_on_row(shape, p);
            let line = line_of(mid, shape.row_base(p), shape.channels, shape.width);
            assert(within(line, m)) by {
                assert forall|i: int| 0 <= i < line.len() implies 0 <= #[trigger] line[i] <= m by {
                    lemma_row_element(shape, shape.row(p), shape.channel(p), i);
                }
            }
            lemma_swept_in_range(along, r, line, m);
            lemma_swept_len(along, r, line);
        }
    }
}

/// Every pixel of the image has the same colour: two elements of the same
/// channel hold the same level.
pub open spec fn one_colour(img: Seq<int>, shape: Shape) -> bool {
    forall|p: int, q: int|
        shape.covers(p) && shape.covers(q) && shape.channel(p) == shape.channel(q) ==> img[p]
            == img[q]
}

/// An image of one colour is a fixed point of both blurs, whatever the radius
/// and the edge policy.
pub proof fn lemma_one_colour_is_fixed(
    img: Seq<int>,
    shape: Shape,
    down: Kernel,
    along: Kernel,
    r: int,
)
    requires
        shape.fits(img.len() as int),
        1 <= r,
        one_colour(img, shape),
    ensures
        blur(img, shape, down, along, r) == img,
{
    let mid = vertical_pass(img, shape, down, r, 0, shape.width);
    assert forall|p: int| 0 <= p < mid.len() implies mid[p] == img[p] by {
        if shape.covers(p) {
            let line = line_of(img, shape.column_base(p), shape.stride, shape.height);
            assert forall|i: int| 0 <= i < line.len() implies line[i] == img[p] by {
                lemma_column_element(shape, shape.lane(p), i);
            }
            lemma_swept_of_constant(down, r, line, img[p]);
        }
    }
    let out = horizontal_pass(mid, shape, along, r, 0, shape.height);
    assert forall|p: int| 0 <= p < out.len() implies out[p] == img[p] by {
        if shape.covers(p) {
            lemma_on_row(shape, p);
            let line = line_of(mid, shape.row_base(p), shape.channels, shape.width);
            assert forall|i: int| 0 <= i < line.len() implies line[i] == img[p] by {
                lemma_row_element(shape, shape.row(p), shape.channel(p), i);
            }
            lemma_swept_of_constant(along, r, line, img[p]);
        }
    }
}

/// The samples that a first-order sweep of radius `r` takes in where the edge
/// of the line repeats: it starts two radii before the line, reads one radius
/// ahead of where it stands, and reads the nearest element where that falls
/// outside the line.
pub open spec fn stream_gauss(line: Seq<int>, r: int) -> Seq<int> {
    Seq::new(
        (line.len() + 2 * r) as nat,
        |k: int| line[edge_index(EdgeMode::Clamp, k - r, 0, line.len() - 1)],
    )
}

/// The level that a first-order sweep of radius `r` gives element `i` of a
/// line where the edge of the line repeats: half the weight and the double
/// box sum of the `2 * r - 1` elements around `i`, divided by the weight.
pub open spec fn gauss_value(line: Seq<int>, r: int, i: int) -> int {
    gauss_sum_at(stream_gauss(line, r), r as nat, i + 2 * r - 1) / (r * r)
}

/// Where the edge repeats, the sweep never reads what it has written: up to
/// the last step it takes in the elements of the line as they were, and what
/// it has written so far are the levels of `gauss_value`.
pub proof fn lemma_gauss_run_clamped(line: Seq<int>, r: int, k: nat)
    requires
        1 <= r,
        1 <= line.len(),
        k <= line.len() + 2 * r,
    ensures
        forall|j: int|
            0 <= j < k && j < line.len() + 2 * r - 1 ==> gauss_run(
                line,
                r,
                EdgeMode::Clamp,
                k,
            ).taken[j] == stream_gauss(line, r)[j],
        forall|i: int|
            0 <= i < line.len() && i < k - 2 * r ==> gauss_run(line, r, EdgeMode::Clamp, k).line[i]
                == gauss_value(line, r, i),
        forall|i: int|
            0 <= i < line.len() && k - 2 * r <= i ==> gauss_run(line, r, EdgeMode::Clamp, k).line[i]
                == line[i],
    decreases k,
{
    if k > 0 {
        let mode = EdgeMode::Clamp;
        let before = gauss_run(line, r, mode, (k - 1) as nat);
        let model = stream_gauss(line, r);
        lemma_gauss_run_clamped(line, r, (k - 1) as nat);
        lemma_gauss_run_shape(line, r, mode, (k - 1) as nat);
        let x = k - 1 - 2 * r;
        if 0 <= x {
            lemma_gauss_agree(before.taken, model, r as nat, k - 2);
        }
    }
}

/// Where the edge of the line repeats, the first-order sweep gives every
/// element the level of `gauss_value`.
pub proof fn lemma_gauss_line_clamped(line: Seq<int>, r: int, i: int)
    requires
        1 <= r,
        0 <= i < line.len(),
    ensures
        gauss_line(line, r, EdgeMode::Clamp)[i] == gauss_value(line, r, i),
{
    lemma_gauss_run_clamped(line, r, (line.len() + 2 * r) as nat);
}

/// With a radius of one the window of the first-order sweep is a single
/// element: at every step the line is as it was, and each sample taken in is
/// the element that the edge policy gave for it.
pub proof fn lemma_gauss_run_of_radius_one(line: Seq<int>, mode: EdgeMode, k: nat)
    requires
        1 <= line.len(),
    ensures
        gauss_run(line, 1, mode, k).line == line,
        forall|j: int|
            0 <= j < k ==> gauss_run(line, 1, mode, k).taken[j] == line[edge_index(
                mode,
                j - 1,
                0,
                line.len() - 1,
            )],
    decreases k,
{
    if k > 0 {
        let before = gauss_run(line, 1, mode, (k - 1) as nat);
        lemma_gauss_run_of_radius_one(line, mode, (k - 1) as nat);
        lemma_gauss_run_shape(line, 1, mode, (k - 1) as nat);
        let x = k - 3;
        lemma_edge_index(mode, x + 1, 0, line.len() - 1);
        if 0 <= x < line.len() {
            lemma_edge_index(mode, x, 0, line.len() - 1);
            let s = before.taken;
            assert(box2(s, 1, k - 2, 1) == at(s, k - 2)) by {
                reveal_with_fuel(box2, 2);
                reveal_with_fuel(box1, 2);
            }
            assert(gauss_level(s, 1) == line[x]);
            assert(before.line.update(x, line[x]) =~= line);
        }
    }
}

/// A sweep of radius one leaves every line as it is, whichever the recurrence
/// and the edge policy: a window of one element holds nothing but the element
/// itself.
pub proof fn lemma_swept_of_radius_one(kernel: Kernel, line: Seq<int>)
    requires
        1 <= line.len(),
    ensures
        swept(kernel, 1, line) == line,
{
    match kernel {
        Kernel::Next { rounded } => {
            let out = swept(kernel, 1, line);
            let s = stream_next(line, 1);
            assert forall|i: int| 0 <= i < out.len() implies out[i] == line[i] by {
                lemma_edge_index(EdgeMode::Clamp, i, 0, line.len() - 1);
                assert(sum_at(s, 1, i + 2) == at(s, i + 2)) by {
                    reveal_with_fuel(box3, 2);
                    reveal_with_fuel(box2, 2);
                    reveal_with_fuel(box1, 2);
                }
                assert(cube(1) == 1);
                lemma_normalised_exact(line[i], 1, rounded);
            }
            assert(out =~= line);
        },
        Kernel::Gauss { mode } => {
            lemma_gauss_run_of_radius_one(line, mode, (line.len() + 2) as nat);
        },
    }
}

/// A blur of radius one leaves every image as it is.
pub proof fn lemma_blur_of_radius_one(img: Seq<int>, shape: Shape, down: Kernel, along: Kernel)
    requires
        shape.fits(img.len() as int),
    ensures
        blur(img, shape, down, along, 1) == img,
{
    let mid = vertical_pass(img, shape, down, 1, 0, shape.width);
    assert forall|p: int| 0 <= p < mid.len() implies mid[p] == img[p] by {
        if shape.covers(p) {
            let line = line_of(img, shape.column_base(p), shape.stride, shape.height);
            lemma_swept_of_radius_one(down, line);
            lemma_on_column(shape, p);
        }
    }
    assert(mid =~= img);
    let out = horizontal_pass(mid, shape, along, 1, 0, shape.height);
    assert forall|p: int| 0 <= p < out.len() implies out[p] == img[p] by {
        if shape.covers(p) {
            lemma_on_row(shape, p);
            let line = line_of(mid, shape.row_base(p), shape.channels, shape.width);
            lemma_swept_of_radius_one(along, line);
        }
    }
    assert(out =~= img);
}

} // verus!

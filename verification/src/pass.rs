//! The two passes of the second-order blur over a range of columns or rows.

use vstd::prelude::*;
use crate::history::window_fits;
use crate::lane::Lane;
use crate::kernel::{swept, Kernel};
use crate::layout::{horizontal_pass, horizontal_pass_upto, lemma_column_element, lemma_on_column,
    lemma_on_row, lemma_row_element, vertical_pass, vertical_pass_lanes, Shape};
use crate::line::{lemma_position, line_of, on_line, position};
use crate::recurrence::headroom;
use crate::sample::{levels, Sample};
use crate::sweep::sweep_next;

verus! {

/// The geometry that the arguments of a pass describe.
pub open spec fn shape_of(stride: u32, width: u32, height: u32, channels: usize) -> Shape {
    Shape {
        stride: stride as int,
        width: width as int,
        height: height as int,
        channels: channels as int,
    }
}

/// One column sweep turns the image with the lanes `lo <= q' < q` swept into
/// the image with the lanes `lo <= q' <= q` swept.
pub proof fn lemma_vertical_step(
    img: Seq<int>,
    before: Seq<int>,
    after: Seq<int>,
    shape: Shape,
    kernel: Kernel,
    r: int,
    lo: int,
    q: int,
)
    requires
        shape.fits(img.len() as int),
        1 <= shape.height,
        0 <= lo <= q < shape.width * shape.channels,
        0 <= r,
        before == vertical_pass_lanes(img, shape, kernel, r, lo, q),
        after.len() == before.len(),
        forall|i: int|
            0 <= i < shape.height ==> #[trigger] after[position(q, shape.stride, i)] == swept(
                kernel,
                r,
                line_of(before, q, shape.stride, shape.height),
            )[i],
        forall|p: int|
            0 <= p < before.len() && !on_line(p, q, shape.stride, shape.height) ==> after[p]
                == before[p],
    ensures
        after == vertical_pass_lanes(img, shape, kernel, r, lo, q + 1),
{
    let target = vertical_pass_lanes(img, shape, kernel, r, lo, q + 1);
    let old_line = line_of(img, q, shape.stride, shape.height);
    let cur_line = line_of(before, q, shape.stride, shape.height);
    assert(cur_line =~= old_line) by {
        assert forall|i: int| 0 <= i < shape.height implies cur_line[i] == old_line[i] by {
            lemma_column_element(shape, q, i);
        }
    }
    assert forall|p: int| 0 <= p < after.len() implies after[p] == target[p] by {
        lemma_on_column(shape, p);
        if !(shape.covers(p) && shape.lane(p) == q) {
            assert(!on_line(p, q, shape.stride, shape.height)) by {
                if on_line(p, q, shape.stride, shape.height) {
                    let i = choose|i: int|
                        0 <= i < shape.height && p == #[trigger] position(q, shape.stride, i);
                    lemma_column_element(shape, q, i);
                }
            }
        }
    }
}

/// Runs the vertical pass of the second-order blur over the pixel columns
/// `start <= x < end` of the image, as far as the image has them.
///
/// `T` is the element type of the image and `A` the accumulator width;
/// `CHANNEL_CONFIGURATION` is the number of elements of a pixel.
pub fn fast_gaussian_next_vertical_pass<T: Sample, A: Lane, const CHANNEL_CONFIGURATION: usize>(
    bytes: &mut [T],
    stride: u32,
    width: u32,
    height: u32,
    radius: u32,
    start: u32,
    end: u32,
)
    requires
        1 <= radius,
        window_fits(3 * radius),
        1 <= CHANNEL_CONFIGURATION <= 4,
        shape_of(stride, width, height, CHANNEL_CONFIGURATION).fits(old(bytes)@.len() as int),
        headroom(radius as int, T::max_level()) <= A::limit(),
    ensures
        final(bytes)@.len() == old(bytes)@.len(),
        levels(final(bytes)@) == vertical_pass(
            levels(old(bytes)@),
            shape_of(stride, width, height, CHANNEL_CONFIGURATION),
            Kernel::Next { rounded: false },
            radius as int,
            start as int,
            if end < width {
                end as int
            } else {
                width as int
            },
        ),
{
    let ghost shape = shape_of(stride, width, height, CHANNEL_CONFIGURATION);
    let ghost img = levels(old(bytes)@);
    let ghost kernel = Kernel::Next { rounded: false };
    let last: u32 = if end < width {
        end
    } else {
        width
    };
    proof {
        assert(last * CHANNEL_CONFIGURATION <= width * CHANNEL_CONFIGURATION
            && (start <= last ==> start * CHANNEL_CONFIGURATION <= last * CHANNEL_CONFIGURATION)
            && (start > last ==> start * CHANNEL_CONFIGURATION >= last * CHANNEL_CONFIGURATION))
            by (nonlinear_arith)
            requires
                last <= width,
                1 <= CHANNEL_CONFIGURATION,
        ;
    }
    if height == 0 || start >= last {
        return ;
    }
    let first_lane: usize = (start as usize) * CHANNEL_CONFIGURATION;
    let end_lane: usize = (last as usize) * CHANNEL_CONFIGURATION;
    let mut q: usize = first_lane;
    while q < end_lane
        invariant
            1 <= radius,
            window_fits(3 * radius),
            headroom(radius as int, T::max_level()) <= A::limit(),
            shape == shape_of(stride, width, height, CHANNEL_CONFIGURATION),
            shape.fits(img.len() as int),
            1 <= height,
            img == levels(old(bytes)@),
            bytes@.len() == old(bytes)@.len(),
            first_lane <= q <= end_lane <= width * CHANNEL_CONFIGURATION,
            kernel == (Kernel::Next { rounded: false }),
            levels(bytes@) == vertical_pass_lanes(
                img,
                shape,
                kernel,
                radius as int,
                first_lane as int,
                q as int,
            ),
        decreases end_lane - q,
    {
        let ghost before = levels(bytes@);
        proof {
            lemma_column_element(shape, q as int, height - 1);
        }
        sweep_next::<T, A>(bytes, q, stride as usize, height as usize, radius, false);
        proof {
            let after = levels(bytes@);
            assert forall|i: int| 0 <= i < shape.height implies #[trigger] after[position(
                q as int,
                shape.stride,
                i,
            )] == swept(
                kernel,
                radius as int,
                line_of(before, q as int, shape.stride, shape.height),
            )[i] by {
                lemma_column_element(shape, q as int, i);
            }
            lemma_vertical_step(
                img,
                before,
                after,
                shape,
                kernel,
                radius as int,
                first_lane as int,
                q as int,
            );
        }
        q = q + 1;
    }
}

/// One row sweep turns the image with the channels below `c` of row `y`
/// swept into the image with the channels up to `c` of that row swept.
pub proof fn lemma_horizontal_step(
    img: Seq<int>,
    before: Seq<int>,
    after: Seq<int>,
    shape: Shape,
    kernel: Kernel,
    r: int,
    lo: int,
    y: int,
    c: int,
)
    requires
        shape.fits(img.len() as int),
        1 <= shape.width,
        0 <= lo <= y < shape.height,
        0 <= c < shape.channels,
        0 <= r,
        before == horizontal_pass_upto(img, shape, kernel, r, lo, y, c),
        after.len() == before.len(),
        forall|i: int|
            0 <= i < shape.width ==> #[trigger] after[position(
                y * shape.stride + c,
                shape.channels,
                i,
            )] == swept(
                kernel,
                r,
                line_of(before, y * shape.stride + c, shape.channels, shape.width),
            )[i],
        forall|p: int|
            0 <= p < before.len() && !on_line(p, y * shape.stride + c, shape.channels, shape.width)
                ==> after[p] == before[p],
    ensures
        after == horizontal_pass_upto(img, shape, kernel, r, lo, y, c + 1),
{
    let base = y * shape.stride + c;
    let target = horizontal_pass_upto(img, shape, kernel, r, lo, y, c + 1);
    let old_line = line_of(img, base, shape.channels, shape.width);
    let cur_line = line_of(before, base, shape.channels, shape.width);
    assert(cur_line =~= old_line) by {
        assert forall|i: int| 0 <= i < shape.width implies cur_line[i] == old_line[i] by {
            lemma_row_element(shape, y, c, i);
        }
    }
    assert forall|p: int| 0 <= p < after.len() implies after[p] == target[p] by {
        if shape.covers(p) && shape.row(p) == y && shape.channel(p) == c {
            lemma_on_row(shape, p);
        } else {
            assert(!on_line(p, base, shape.channels, shape.width)) by {
                if on_line(p, base, shape.channels, shape.width) {
                    let i = choose|i: int|
                        0 <= i < shape.width && p == #[trigger] position(base, shape.channels, i);
                    lemma_row_element(shape, y, c, i);
                }
            }
        }
    }
}

/// Runs the horizontal pass of the second-order blur over the rows
/// `start <= y < end` of the image, as far as the image has them.
///
/// `T` is the element type of the image and `A` the accumulator width;
/// `CHANNEL_CONFIGURATION` is the number of elements of a pixel.
pub fn fast_gaussian_next_horizontal_pass<T: Sample, A: Lane, const CHANNEL_CONFIGURATION: usize>(
    bytes: &mut [T],
    stride: u32,
    width: u32,
    height: u32,
    radius: u32,
    start: u32,
    end: u32,
)
    requires
        1 <= radius,
        window_fits(3 * radius),
        1 <= CHANNEL_CONFIGURATION <= 4,
        shape_of(stride, width, height, CHANNEL_CONFIGURATION).fits(old(bytes)@.len() as int),
        headroom(radius as int, T::max_level()) <= A::limit(),
    ensures
        final(bytes)@.len() == old(bytes)@.len(),
        levels(final(bytes)@) == horizontal_pass(
            levels(old(bytes)@),
            shape_of(stride, width, height, CHANNEL_CONFIGURATION),
            Kernel::Next { rounded: true },
            radius as int,
            start as int,
            if end < height {
                end as int
            } else {
                height as int
            },
        ),
{
    let ghost shape = shape_of(stride, width, height, CHANNEL_CONFIGURATION);
    let ghost img = levels(old(bytes)@);
    let ghost kernel = Kernel::Next { rounded: true };
    let last: u32 = if end < height {
        end
    } else {
        height
    };
    if width == 0 || start >= last {
        proof {
            let target = horizontal_pass(img, shape, kernel, radius as int, start as int, last as int);
            assert forall|p: int| 0 <= p < img.len() implies img[p] == target[p] by {
                if shape.covers(p) {
                    lemma_on_row(shape, p);
                }
            }
        }
        return ;
    }
    let mut y: u32 = start;
    let len = bytes.len();
    while y < last
        invariant
            1 <= radius,
            window_fits(3 * radius),
            headroom(radius as int, T::max_level()) <= A::limit(),
            1 <= CHANNEL_CONFIGURATION <= 4,
            shape == shape_of(stride, width, height, CHANNEL_CONFIGURATION),
            shape.fits(img.len() as int),
            1 <= width,
            img == levels(old(bytes)@),
            bytes@.len() == old(bytes)@.len(),
            bytes@.len() == len,
            start <= y <= last <= height,
            kernel == (Kernel::Next { rounded: true }),
            levels(bytes@) == horizontal_pass_upto(
                img,
                shape,
                kernel,
                radius as int,
                start as int,
                y as int,
                0,
            ),
        decreases last - y,
    {
        let mut c: usize = 0;
        while c < CHANNEL_CONFIGURATION
            invariant
                1 <= radius,
                window_fits(3 * radius),
                headroom(radius as int, T::max_level()) <= A::limit(),
                1 <= CHANNEL_CONFIGURATION <= 4,
                shape == shape_of(stride, width, height, CHANNEL_CONFIGURATION),
                shape.fits(img.len() as int),
                1 <= width,
                img == levels(old(bytes)@),
                bytes@.len() == old(bytes)@.len(),
            bytes@.len() == len,
                start <= y < last <= height,
                c <= CHANNEL_CONFIGURATION,
                kernel == (Kernel::Next { rounded: true }),
                levels(bytes@) == horizontal_pass_upto(
                    img,
                    shape,
                    kernel,
                    radius as int,
                    start as int,
                    y as int,
                    c as int,
                ),
            decreases CHANNEL_CONFIGURATION - c,
        {
            let ghost before = levels(bytes@);
            proof {
                lemma_row_element(shape, y as int, c as int, width - 1);
                lemma_row_element(shape, y as int, c as int, 0);
                lemma_position(y * stride + c, CHANNEL_CONFIGURATION as int, 0);
            }
            let base: usize = (y as usize) * (stride as usize) + c;
            sweep_next::<T, A>(bytes, base, CHANNEL_CONFIGURATION, width as usize, radius, true);
            proof {
                let after = levels(bytes@);
                assert forall|i: int| 0 <= i < shape.width implies #[trigger] after[position(
                    y * shape.stride + c,
                    shape.channels,
                    i,
                )] == swept(
                    kernel,
                    radius as int,
                    line_of(before, y * shape.stride + c, shape.channels, shape.width),
                )[i] by {
                    lemma_row_element(shape, y as int, c as int, i);
                }
                lemma_horizontal_step(
                    img,
                    before,
                    after,
                    shape,
                    kernel,
                    radius as int,
                    start as int,
                    y as int,
                    c as int,
                );
            }
            c = c + 1;
        }
        y = y + 1;
    }
}

} // verus!

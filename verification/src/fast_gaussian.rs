//! The first-order blur of an 8-bit image: its two passes, and both together.
//!
//! The arithmetic is integer throughout, and it is the one that the four
//! 32-bit lanes of an SSE register offer: accumulators of 32 bits, the
//! division by the weight of the window done as a multiplication and a shift,
//! the result narrowed to 8 bits with saturation. Here it is written out one
//! channel after the other, so that it runs on every machine.

use vstd::prelude::*;
use crate::edge::EdgeMode;
use crate::gauss::sweep_gauss;
use crate::history::window_fits;
use crate::kernel::Kernel;
use crate::layout::{blur_gauss, horizontal_pass, horizontal_pass_upto, lemma_column_element,
    lemma_on_row, lemma_row_element, vertical_pass, vertical_pass_lanes};
use crate::line::lemma_position;
use crate::pass::{lemma_horizontal_step, lemma_vertical_step, shape_of};
use crate::reciprocal::Reciprocal;
use crate::sample::levels;
use crate::scheduler::{horizontal_by_segments, lemma_horizontal_segments,
    lemma_vertical_segments, segment, vertical_by_segments, FastBlurChannels, ThreadingPolicy};

verus! {

/// The largest radius that the 8-bit first-order blur uses.
pub const MAX_RADIUS_FAST_GAUSSIAN: u32 = 319;

/// Runs the vertical pass of the first-order blur over the pixel columns
/// `start <= x < end` of the image, as far as the image has them.
pub fn fast_gaussian_vertical_pass_sse_u8<const CHANNELS_COUNT: usize>(
    bytes: &mut [u8],
    stride: u32,
    width: u32,
    height: u32,
    radius: u32,
    start: u32,
    end: u32,
    edge_mode: EdgeMode,
)
    requires
        1 <= radius,
        window_fits(2 * radius),
        1 <= CHANNELS_COUNT <= 4,
        shape_of(stride, width, height, CHANNELS_COUNT).fits(old(bytes)@.len() as int),
    ensures
        final(bytes)@.len() == old(bytes)@.len(),
        levels(final(bytes)@) == vertical_pass(
            levels(old(bytes)@),
            shape_of(stride, width, height, CHANNELS_COUNT),
            Kernel::Gauss { mode: edge_mode },
            radius as int,
            start as int,
            if end < width {
                end as int
            } else {
                width as int
            },
        ),
{
    let ghost shape = shape_of(stride, width, height, CHANNELS_COUNT);
    let ghost img = levels(old(bytes)@);
    let ghost kernel = Kernel::Gauss { mode: edge_mode };
    let last: u32 = if end < width {
        end
    } else {
        width
    };
    proof {
        assert(last * CHANNELS_COUNT <= width * CHANNELS_COUNT && (start <= last ==> start
            * CHANNELS_COUNT <= last * CHANNELS_COUNT) && (start > last ==> start * CHANNELS_COUNT
            >= last * CHANNELS_COUNT)) by (nonlinear_arith)
            requires
                last <= width,
                1 <= CHANNELS_COUNT,
        ;
    }
    if height == 0 || start >= last {
        return ;
    }
    let reciprocal = Reciprocal::of_square(radius);
    let first_lane: usize = (start as usize) * CHANNELS_COUNT;
    let end_lane: usize = (last as usize) * CHANNELS_COUNT;
    let mut q: usize = first_lane;
    while q < end_lane
        invariant
            1 <= radius,
            window_fits(2 * radius),
            reciprocal.inverts(radius * radius),
            shape == shape_of(stride, width, height, CHANNELS_COUNT),
            shape.fits(img.len() as int),
            1 <= height,
            img == levels(old(bytes)@),
            bytes@.len() == old(bytes)@.len(),
            first_lane <= q <= end_lane <= width * CHANNELS_COUNT,
            kernel == (Kernel::Gauss { mode: edge_mode }),
            levels(bytes@) == vertical_pass_lanes(
                img,
                shape,
                kernel,
                radius as int,
                first_lane as int,
                q as int,
            ),
        decreases end_lane - q,
    {
        let ghost before = levels(bytes@);
        proof {
            lemma_column_element(shape, q as int, height - 1);
        }
        sweep_gauss(bytes, q, stride as usize, height as usize, radius, edge_mode, reciprocal);
        proof {
            let after = levels(bytes@);
            lemma_vertical_step(
                img,
                before,
                after,
                shape,
                kernel,
                radius as int,
                first_lane as int,
                q as int,
            );
        }
        q = q + 1;
    }
}

/// Runs the horizontal pass of the first-order blur over the rows
/// `start <= y < end` of the image, as far as the image has them.
pub fn fast_gaussian_horizontal_pass_sse_u8<const CHANNELS_COUNT: usize>(
    bytes: &mut [u8],
    stride: u32,
    width: u32,
    height: u32,
    radius: u32,
    start: u32,
    end: u32,
    edge_mode: EdgeMode,
)
    requires
        1 <= radius,
        window_fits(2 * radius),
        1 <= CHANNELS_COUNT <= 4,
        shape_of(stride, width, height, CHANNELS_COUNT).fits(old(bytes)@.len() as int),
    ensures
        final(bytes)@.len() == old(bytes)@.len(),
        levels(final(bytes)@) == horizontal_pass(
            levels(old(bytes)@),
            shape_of(stride, width, height, CHANNELS_COUNT),
            Kernel::Gauss { mode: edge_mode },
            radius as int,
            start as int,
            if end < height {
                end as int
            } else {
                height as int
            },
        ),
{
    let ghost shape = shape_of(stride, width, height, CHANNELS_COUNT);
    let ghost img = levels(old(bytes)@);
    let ghost kernel = Kernel::Gauss { mode: edge_mode };
    let last: u32 = if end < height {
        end
    } else {
        height
    };
    if width == 0 || start >= last {
        proof {
            let target = horizontal_pass(
                img,
                shape,
                kernel,
                radius as int,
                start as int,
                last as int,
            );
            assert forall|p: int| 0 <= p < img.len() implies img[p] == target[p] by {
                if shape.covers(p) {
                    lemma_on_row(shape, p);
                }
            }
        }
        return ;
    }
    let reciprocal = Reciprocal::of_square(radius);
    let mut y: u32 = start;
    let len = bytes.len();
    while y < last
        invariant
            1 <= radius,
            window_fits(2 * radius),
            reciprocal.inverts(radius * radius),
            1 <= CHANNELS_COUNT <= 4,
            shape == shape_of(stride, width, height, CHANNELS_COUNT),
            shape.fits(img.len() as int),
            1 <= width,
            img == levels(old(bytes)@),
            bytes@.len() == old(bytes)@.len(),
            bytes@.len() == len,
            start <= y <= last <= height,
            kernel == (Kernel::Gauss { mode: edge_mode }),
            levels(bytes@) == horizontal_pass_upto(
                img,
                shape,
                kernel,
                radius as int,
                start as int,
                y as int,
                0,
            ),
        decreases last - y,
    {
        let mut c: usize = 0;
        while c < CHANNELS_COUNT
            invariant
                1 <= radius,
                window_fits(2 * radius),
                reciprocal.inverts(radius * radius),
                1 <= CHANNELS_COUNT <= 4,
                shape == shape_of(stride, width, height, CHANNELS_COUNT),
                shape.fits(img.len() as int),
                1 <= width,
                img == levels(old(bytes)@),
                bytes@.len() == old(bytes)@.len(),
                bytes@.len() == len,
                start <= y < last <= height,
                c <= CHANNELS_COUNT,
                kernel == (Kernel::Gauss { mode: edge_mode }),
                levels(bytes@) == horizontal_pass_upto(
                    img,
                    shape,
                    kernel,
                    radius as int,
                    start as int,
                    y as int,
                    c as int,
                ),
            decreases CHANNELS_COUNT - c,
        {
            let ghost before = levels(bytes@);
            proof {
                lemma_row_element(shape, y as int, c as int, width - 1);
                lemma_row_element(shape, y as int, c as int, 0);
                lemma_position(y * stride + c, CHANNELS_COUNT as int, 0);
            }
            let base: usize = (y as usize) * (stride as usize) + c;
            sweep_gauss(bytes, base, CHANNELS_COUNT, width as usize, radius, edge_mode, reciprocal);
            proof {
                let after = levels(bytes@);
                lemma_horizontal_step(
                    img,
                    before,
                    after,
                    shape,
                    kernel,
                    radius as int,
                    start as int,
                    y as int,
                    c as int,
                );
            }
            c = c + 1;
        }
        y = y + 1;
    }
}

/// Blurs the image in place with the first-order recurrence: the vertical
/// pass over all columns, then the horizontal pass over all rows, each divided
/// among as many workers as the policy gives and run one share after the
/// other.
pub fn fast_gaussian_impl<const CHANNELS_COUNT: usize>(
    bytes: &mut [u8],
    stride: u32,
    width: u32,
    height: u32,
    radius: u32,
    threading_policy: ThreadingPolicy,
    edge_mode: EdgeMode,
)
    requires
        1 <= radius,
        window_fits(2 * radius),
        1 <= CHANNELS_COUNT <= 4,
        shape_of(stride, width, height, CHANNELS_COUNT).fits(old(bytes)@.len() as int),
    ensures
        final(bytes)@.len() == old(bytes)@.len(),
        levels(final(bytes)@) == blur_gauss(
            levels(old(bytes)@),
            shape_of(stride, width, height, CHANNELS_COUNT),
            radius as int,
            edge_mode,
        ),
{
    let ghost shape = shape_of(stride, width, height, CHANNELS_COUNT);
    let ghost img = levels(old(bytes)@);
    let ghost kernel = Kernel::Gauss { mode: edge_mode };
    let wanted = threading_policy.get_threads_count(width, height);
    let thread_count: u32 = if wanted > 0xffff_ffff {
        0xffff_ffff
    } else {
        wanted as u32
    };
    let mut i: u32 = 0;
    while i < thread_count
        invariant
            1 <= radius,
            window_fits(2 * radius),
            1 <= CHANNELS_COUNT <= 4,
            shape == shape_of(stride, width, height, CHANNELS_COUNT),
            shape.fits(img.len() as int),
            kernel == (Kernel::Gauss { mode: edge_mode }),
            bytes@.len() == img.len(),
            1 <= thread_count,
            i <= thread_count,
            levels(bytes@) == vertical_by_segments(
                img,
                shape,
                kernel,
                radius as int,
                thread_count as int,
                i as nat,
            ),
        decreases thread_count - i,
    {
        let (start_x, end_x) = segment(width, thread_count, i);
        fast_gaussian_vertical_pass_sse_u8::<CHANNELS_COUNT>(
            bytes,
            stride,
            width,
            height,
            radius,
            start_x,
            end_x,
            edge_mode,
        );
        i = i + 1;
    }
    let ghost mid = levels(bytes@);
    proof {
        lemma_vertical_segments(
            img,
            shape,
            kernel,
            radius as int,
            thread_count as int,
            thread_count as nat,
        );
    }
    let mut j: u32 = 0;
    while j < thread_count
        invariant
            1 <= radius,
            window_fits(2 * radius),
            1 <= CHANNELS_COUNT <= 4,
            shape == shape_of(stride, width, height, CHANNELS_COUNT),
            shape.fits(mid.len() as int),
            kernel == (Kernel::Gauss { mode: edge_mode }),
            bytes@.len() == mid.len(),
            1 <= thread_count,
            j <= thread_count,
            levels(bytes@) == horizontal_by_segments(
                mid,
                shape,
                kernel,
                radius as int,
                thread_count as int,
                j as nat,
            ),
        decreases thread_count - j,
    {
        let (start_y, end_y) = segment(height, thread_count, j);
        fast_gaussian_horizontal_pass_sse_u8::<CHANNELS_COUNT>(
            bytes,
            stride,
            width,
            height,
            radius,
            start_y,
            end_y,
            edge_mode,
        );
        j = j + 1;
    }
    proof {
        lemma_horizontal_segments(
            mid,
            shape,
            kernel,
            radius as int,
            thread_count as int,
            thread_count as nat,
        );
    }
}

/// Blurs an 8-bit image in place with the first-order approximation of a
/// Gaussian blur.
///
/// The image has `height` rows of `width` pixels, rows `stride` elements
/// apart. A radius above 319 counts as 319. Every channel of every pixel gets
/// the level that `blur_gauss` gives it; padding is left as it is.
pub fn fast_gaussian(
    bytes: &mut [u8],
    stride: u32,
    width: u32,
    height: u32,
    radius: u32,
    channels: FastBlurChannels,
    threading_policy: ThreadingPolicy,
    edge_mode: EdgeMode,
)
    requires
        1 <= radius,
        width * channels.count() <= stride,
        stride * height <= old(bytes)@.len(),
    ensures
        final(bytes)@.len() == old(bytes)@.len(),
        levels(final(bytes)@) == blur_gauss(
            levels(old(bytes)@),
            shape_of(stride, width, height, channels.count() as usize),
            if radius < 319 {
                radius as int
            } else {
                319
            },
            edge_mode,
        ),
{
    let acq_radius: u32 = if radius < MAX_RADIUS_FAST_GAUSSIAN {
        radius
    } else {
        MAX_RADIUS_FAST_GAUSSIAN
    };
    match channels {
        FastBlurChannels::Channels3 => {
            fast_gaussian_impl::<3>(
                bytes,
                stride,
                width,
                height,
                acq_radius,
                threading_policy,
                edge_mode,
            );
        },
        FastBlurChannels::Channels4 => {
            fast_gaussian_impl::<4>(
                bytes,
                stride,
                width,
                height,
                acq_radius,
                threading_policy,
                edge_mode,
            );
        },
    }
}

} // verus!

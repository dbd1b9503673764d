//! The second-order blur of a whole image.

use vstd::prelude::*;
use crate::history::window_fits;
use crate::kernel::Kernel;
use crate::layout::blur_next;
use crate::pass::{fast_gaussian_next_horizontal_pass, fast_gaussian_next_vertical_pass, shape_of};
use crate::recurrence::{cube, headroom};
use crate::sample::{levels, Sample};
use crate::scheduler::{horizontal_by_segments, lemma_horizontal_segments,
    lemma_vertical_segments, segment, vertical_by_segments, FastBlurChannels, ThreadingPolicy};

verus! {

/// From this radius on the accumulators are 64 bits wide whatever the element
/// type.
pub const BASE_RADIUS_I64_CUTOFF: u32 = 125;

/// The largest radius that the 8-bit blur uses.
pub const MAX_RADIUS_U8: u32 = 280;

/// The largest radius that the 16-bit blur uses.
pub const MAX_RADIUS_U16: u32 = 152;

/// Accumulators of 32 bits are wide enough for this radius and these levels,
/// and the radius is below the cutoff.
pub open spec fn narrow_suffices(radius: int, max_level: int) -> bool {
    radius < 125 && headroom(radius, max_level) <= 0x7fff_ffff
}

/// Decides `narrow_suffices` for the element type `T`.
pub fn narrow_accumulators<T: Sample>(radius: u32) -> (narrow: bool)
    requires
        1 <= radius,
    ensures
        narrow == narrow_suffices(radius as int, T::max_level()),
{
    if radius >= BASE_RADIUS_I64_CUTOFF {
        return false;
    }
    let r: u64 = radius as u64;
    let m: u64 = T::ceiling() as u64;
    assert(1 <= r * r <= 124 * 124 && 1 <= r * r * r <= 124 * 124 * 124) by (nonlinear_arith)
        requires
            1 <= r <= 124,
    ;
    let weight: u64 = r * r * r;
    assert(m * weight <= 0xffff * (124 * 124 * 124)) by (nonlinear_arith)
        requires
            0 <= m <= 0xffff,
            0 <= weight <= 124 * 124 * 124,
    ;
    let most: u64 = if radius >= 2 {
        m * weight
    } else {
        4 * m
    };
    most <= 0x7fff_ffff
}

/// Accumulators of 64 bits are wide enough for every radius that a history
/// can serve.
proof fn lemma_wide_suffices(radius: int, max_level: int)
    requires
        1 <= radius,
        window_fits(3 * radius),
        0 <= max_level <= 0xffff,
    ensures
        headroom(radius, max_level) <= 0x7fff_ffff_ffff_ffff,
{
    assert(max_level * cube(radius) <= 0xffff * (341 * 341 * 341)) by (nonlinear_arith)
        requires
            1 <= radius <= 341,
            0 <= max_level <= 0xffff,
            cube(radius) == radius * radius * radius,
    ;
}

fn vertical_share<T: Sample, const CHANNEL_CONFIGURATION: usize>(
    bytes: &mut [T],
    stride: u32,
    width: u32,
    height: u32,
    radius: u32,
    start: u32,
    end: u32,
    narrow: bool,
)
    requires
        1 <= radius,
        window_fits(3 * radius),
        1 <= CHANNEL_CONFIGURATION <= 4,
        shape_of(stride, width, height, CHANNEL_CONFIGURATION).fits(old(bytes)@.len() as int),
        narrow ==> narrow_suffices(radius as int, T::max_level()),
        end <= width,
    ensures
        final(bytes)@.len() == old(bytes)@.len(),
        levels(final(bytes)@) == crate::layout::vertical_pass(
            levels(old(bytes)@),
            shape_of(stride, width, height, CHANNEL_CONFIGURATION),
            Kernel::Next { rounded: false },
            radius as int,
            start as int,
            end as int,
        ),
{
    if narrow {
        fast_gaussian_next_vertical_pass::<T, i32, CHANNEL_CONFIGURATION>(
            bytes,
            stride,
            width,
            height,
            radius,
            start,
            end,
        );
    } else {
        proof {
            T::lemma_max_level();
            lemma_wide_suffices(radius as int, T::max_level());
        }
        fast_gaussian_next_vertical_pass::<T, i64, CHANNEL_CONFIGURATION>(
            bytes,
            stride,
            width,
            height,
            radius,
            start,
            end,
        );
    }
}

fn horizontal_share<T: Sample, const CHANNEL_CONFIGURATION: usize>(
    bytes: &mut [T],
    stride: u32,
    width: u32,
    height: u32,
    radius: u32,
    start: u32,
    end: u32,
    narrow: bool,
)
    requires
        1 <= radius,
        window_fits(3 * radius),
        1 <= CHANNEL_CONFIGURATION <= 4,
        shape_of(stride, width, height, CHANNEL_CONFIGURATION).fits(old(bytes)@.len() as int),
        narrow ==> narrow_suffices(radius as int, T::max_level()),
        end <= height,
    ensures
        final(bytes)@.len() == old(bytes)@.len(),
        levels(final(bytes)@) == crate::layout::horizontal_pass(
            levels(old(bytes)@),
            shape_of(stride, width, height, CHANNEL_CONFIGURATION),
            Kernel::Next { rounded: true },
            radius as int,
            start as int,
            end as int,
        ),
{
    if narrow {
        fast_gaussian_next_horizontal_pass::<T, i32, CHANNEL_CONFIGURATION>(
            bytes,
            stride,
            width,
            height,
            radius,
            start,
            end,
        );
    } else {
        proof {
            T::lemma_max_level();
            lemma_wide_suffices(radius as int, T::max_level());
        }
        fast_gaussian_next_horizontal_pass::<T, i64, CHANNEL_CONFIGURATION>(
            bytes,
            stride,
            width,
            height,
            radius,
            start,
            end,
        );
    }
}

/// Blurs the image in place with the second-order recurrence: the vertical
/// pass over all columns, then the horizontal pass over all rows, each divided
/// among as many workers as the policy gives and run one share after the
/// other.
pub fn fast_gaussian_next_impl<T: Sample, const CHANNEL_CONFIGURATION: usize>(
    bytes: &mut [T],
    stride: u32,
    width: u32,
    height: u32,
    radius: u32,
    threading_policy: ThreadingPolicy,
)
    requires
        1 <= radius,
        window_fits(3 * radius),
        1 <= CHANNEL_CONFIGURATION <= 4,
        shape_of(stride, width, height, CHANNEL_CONFIGURATION).fits(old(bytes)@.len() as int),
    ensures
        final(bytes)@.len() == old(bytes)@.len(),
        levels(final(bytes)@) == blur_next(
            levels(old(bytes)@),
            shape_of(stride, width, height, CHANNEL_CONFIGURATION),
            radius as int,
        ),
{
    let ghost shape = shape_of(stride, width, height, CHANNEL_CONFIGURATION);
    let ghost img = levels(old(bytes)@);
    let narrow = narrow_accumulators::<T>(radius);
    let wanted = threading_policy.get_threads_count(width, height);
    let thread_count: u32 = if wanted > 0xffff_ffff {
        0xffff_ffff
    } else {
        wanted as u32
    };
    let mut i: u32 = 0;
    while i < thread_count
        invariant
            1 <= radius,
            window_fits(3 * radius),
            1 <= CHANNEL_CONFIGURATION <= 4,
            shape == shape_of(stride, width, height, CHANNEL_CONFIGURATION),
            shape.fits(img.len() as int),
            narrow ==> narrow_suffices(radius as int, T::max_level()),
            bytes@.len() == img.len(),
            1 <= thread_count,
            i <= thread_count,
            levels(bytes@) == vertical_by_segments(
                img,
                shape,
                Kernel::Next { rounded: false },
                radius as int,
                thread_count as int,
                i as nat,
            ),
        decreases thread_count - i,
    {
        let (start_x, end_x) = segment(width, thread_count, i);
        vertical_share::<T, CHANNEL_CONFIGURATION>(
            bytes,
            stride,
            width,
            height,
            radius,
            start_x,
            end_x,
            narrow,
        );
        i = i + 1;
    }
    let ghost mid = levels(bytes@);
    proof {
        lemma_vertical_segments(
            img,
            shape,
            Kernel::Next { rounded: false },
            radius as int,
            thread_count as int,
            thread_count as nat,
        );
    }
    let mut j: u32 = 0;
    while j < thread_count
        invariant
            1 <= radius,
            window_fits(3 * radius),
            1 <= CHANNEL_CONFIGURATION <= 4,
            shape == shape_of(stride, width, height, CHANNEL_CONFIGURATION),
            shape.fits(mid.len() as int),
            narrow ==> narrow_suffices(radius as int, T::max_level()),
            bytes@.len() == mid.len(),
            1 <= thread_count,
            j <= thread_count,
            levels(bytes@) == horizontal_by_segments(
                mid,
                shape,
                Kernel::Next { rounded: true },
                radius as int,
                thread_count as int,
                j as nat,
            ),
        decreases thread_count - j,
    {
        let (start_y, end_y) = segment(height, thread_count, j);
        horizontal_share::<T, CHANNEL_CONFIGURATION>(
            bytes,
            stride,
            width,
            height,
            radius,
            start_y,
            end_y,
            narrow,
        );
        j = j + 1;
    }
    proof {
        lemma_horizontal_segments(
            mid,
            shape,
            Kernel::Next { rounded: true },
            radius as int,
            thread_count as int,
            thread_count as nat,
        );
    }
}

/// Blurs an 8-bit image in place with the second-order approximation of a
/// Gaussian blur.
///
/// The image has `height` rows of `width` pixels, rows `stride` elements
/// apart. A radius above 280 counts as 280. Every channel of every pixel gets
/// the level that `blur_next` gives it; padding is left as it is.
pub fn fast_gaussian_next(
    bytes: &mut [u8],
    stride: u32,
    width: u32,
    height: u32,
    radius: u32,
    channels: FastBlurChannels,
    threading_policy: ThreadingPolicy,
)
    requires
        1 <= radius,
        width * channels.count() <= stride,
        stride * height <= old(bytes)@.len(),
    ensures
        final(bytes)@.len() == old(bytes)@.len(),
        levels(final(bytes)@) == blur_next(
            levels(old(bytes)@),
            shape_of(stride, width, height, channels.count() as usize),
            if radius < 280 {
                radius as int
            } else {
                280
            },
        ),
{
    let acq_radius: u32 = if radius < MAX_RADIUS_U8 {
        radius
    } else {
        MAX_RADIUS_U8
    };
    match channels {
        FastBlurChannels::Channels3 => {
            fast_gaussian_next_impl::<u8, 3>(
                bytes,
                stride,
                width,
                height,
                acq_radius,
                threading_policy,
            );
        },
        FastBlurChannels::Channels4 => {
            fast_gaussian_next_impl::<u8, 4>(
                bytes,
                stride,
                width,
                height,
                acq_radius,
                threading_policy,
            );
        },
    }
}

/// Blurs a 16-bit image in place with the second-order approximation of a
/// Gaussian blur.
///
/// As `fast_gaussian_next`; a radius above 152 counts as 152.
pub fn fast_gaussian_next_u16(
    bytes: &mut [u16],
    stride: u32,
    width: u32,
    height: u32,
    radius: u32,
    channels: FastBlurChannels,
    threading_policy: ThreadingPolicy,
)
    requires
        1 <= radius,
        width * channels.count() <= stride,
        stride * height <= old(bytes)@.len(),
    ensures
        final(bytes)@.len() == old(bytes)@.len(),
        levels(final(bytes)@) == blur_next(
            levels(old(bytes)@),
            shape_of(stride, width, height, channels.count() as usize),
            if radius < 152 {
                radius as int
            } else {
                152
            },
        ),
{
    let acq_radius: u32 = if radius < MAX_RADIUS_U16 {
        radius
    } else {
        MAX_RADIUS_U16
    };
    match channels {
        FastBlurChannels::Channels3 => {
            fast_gaussian_next_impl::<u16, 3>(
                bytes,
                stride,
                width,
                height,
                acq_radius,
                threading_policy,
            );
        },
        FastBlurChannels::Channels4 => {
            fast_gaussian_next_impl::<u16, 4>(
                bytes,
                stride,
                width,
                height,
                acq_radius,
                threading_policy,
            );
        },
    }
}

} // verus!

//! How the work of one pass is divided among workers.

use vstd::prelude::*;
use crate::kernel::Kernel;
use crate::layout::{blur, horizontal_pass, lemma_horizontal_compose, lemma_vertical_compose,
    vertical_pass, Shape};

verus! {

/// How many elements a pixel has.
#[derive(Clone, Copy, Debug, PartialEq, Eq)]
pub enum FastBlurChannels {
    /// Three colour channels.
    Channels3,
    /// Three colour channels and alpha, which is blurred like a colour.
    Channels4,
}

impl FastBlurChannels {
    /// The number of elements of a pixel.
    pub open spec fn count(self) -> int {
        match self {
            FastBlurChannels::Channels3 => 3,
            FastBlurChannels::Channels4 => 4,
        }
    }

    /// Computes `count`.
    pub fn get_channels(&self) -> (n: usize)
        ensures
            n == self.count(),
    {
        match self {
            FastBlurChannels::Channels3 => 3,
            FastBlurChannels::Channels4 => 4,
        }
    }
}

/// How many workers a pass is divided among.
#[derive(Clone, Copy, Debug, PartialEq, Eq)]
pub enum ThreadingPolicy {
    /// One worker.
    Single,
    /// As many workers as given, and one where none is given.
    Fixed(usize),
    /// One worker for every 256 by 256 pixels of the image, at least one and
    /// at most twelve.
    Adaptive,
}

impl ThreadingPolicy {
    /// The number of workers for an image of `width` by `height` pixels.
    pub open spec fn threads(self, width: int, height: int) -> int {
        match self {
            ThreadingPolicy::Single => 1,
            ThreadingPolicy::Fixed(n) => if n == 0 {
                1
            } else {
                n as int
            },
            ThreadingPolicy::Adaptive => {
                let by_area = (width * height) / 65536;
                if by_area < 1 {
                    1
                } else if by_area > 12 {
                    12
                } else {
                    by_area
                }
            },
        }
    }

    /// Computes `threads`.
    pub fn get_threads_count(&self, width: u32, height: u32) -> (n: usize)
        ensures
            n == self.threads(width as int, height as int),
            n >= 1,
    {
        match self {
            ThreadingPolicy::Single => 1,
            ThreadingPolicy::Fixed(n) => if *n == 0 {
                1
            } else {
                *n
            },
            ThreadingPolicy::Adaptive => {
                assert(0 <= width * height <= 0xffff_ffff * 0xffff_ffff) by (nonlinear_arith)
                    requires
                        0 <= width <= 0xffff_ffff,
                        0 <= height <= 0xffff_ffff,
                ;
                let area: u64 = (width as u64) * (height as u64);
                let by_area: u64 = area / 65536;
                if by_area < 1 {
                    1
                } else if by_area > 12 {
                    12
                } else {
                    by_area as usize
                }
            },
        }
    }
}

/// Where the share of worker `i` out of `threads` starts in a dimension of
/// `dimension` columns or rows.
pub open spec fn segment_start(dimension: int, threads: int, i: int) -> int {
    i * (dimension / threads)
}

/// Where the share of worker `i` ends: where the next one starts, and at the
/// end of the dimension for the last worker, who takes what is left over.
pub open spec fn segment_end(dimension: int, threads: int, i: int) -> int {
    if i == threads - 1 {
        dimension
    } else {
        (i + 1) * (dimension / threads)
    }
}

/// The shares lie one behind the other, in order, inside the dimension: the
/// first starts at zero, each starts where the one before ended, and the last
/// ends at the end of the dimension. So they cover the dimension, and no two
/// of them overlap.
pub proof fn lemma_segments_partition(dimension: int, threads: int, i: int)
    requires
        0 <= dimension,
        1 <= threads,
        0 <= i < threads,
    ensures
        segment_start(dimension, threads, 0) == 0,
        0 <= segment_start(dimension, threads, i) <= segment_end(dimension, threads, i)
            <= dimension,
        i + 1 < threads ==> segment_end(dimension, threads, i) == segment_start(
            dimension,
            threads,
            i + 1,
        ),
        i + 1 == threads ==> segment_end(dimension, threads, i) == dimension,
{
    let size = dimension / threads;
    assert(0 <= size && size * threads <= dimension) by (nonlinear_arith)
        requires
            size == dimension / threads,
            0 <= dimension,
            1 <= threads,
    ;
    assert(0 <= i * size <= (i + 1) * size && (i + 1) * size <= threads * size)
        by (nonlinear_arith)
        requires
            0 <= size,
            0 <= i < threads,
    ;
}

/// The share of worker `i` out of `thread_count`: where it starts and where
/// it ends.
pub fn segment(dimension: u32, thread_count: u32, i: u32) -> (share: (u32, u32))
    requires
        1 <= thread_count,
        i < thread_count,
    ensures
        share.0 == segment_start(dimension as int, thread_count as int, i as int),
        share.1 == segment_end(dimension as int, thread_count as int, i as int),
        share.0 <= share.1 <= dimension,
{
    proof {
        lemma_segments_partition(dimension as int, thread_count as int, i as int);
    }
    let segment_size: u32 = dimension / thread_count;
    let start: u32 = i * segment_size;
    let end: u32 = if i == thread_count - 1 {
        dimension
    } else {
        (i + 1) * segment_size
    };
    (start, end)
}

/// The image after the first `done` of `threads` workers have run their share
/// of the vertical pass, one after the other.
pub open spec fn vertical_by_segments(
    img: Seq<int>,
    shape: Shape,
    kernel: Kernel,
    r: int,
    threads: int,
    done: nat,
) -> Seq<int>
    decreases done,
{
    if done == 0 {
        img
    } else {
        vertical_pass(
            vertical_by_segments(img, shape, kernel, r, threads, (done - 1) as nat),
            shape,
            kernel,
            r,
            segment_start(shape.width, threads, done - 1),
            segment_end(shape.width, threads, done - 1),
        )
    }
}

/// The image after the first `done` of `threads` workers have run their share
/// of the horizontal pass, one after the other.
pub open spec fn horizontal_by_segments(
    img: Seq<int>,
    shape: Shape,
    kernel: Kernel,
    r: int,
    threads: int,
    done: nat,
) -> Seq<int>
    decreases done,
{
    if done == 0 {
        img
    } else {
        horizontal_pass(
            horizontal_by_segments(img, shape, kernel, r, threads, (done - 1) as nat),
            shape,
            kernel,
            r,
            segment_start(shape.height, threads, done - 1),
            segment_end(shape.height, threads, done - 1),
        )
    }
}

/// The image after both passes, each divided among `threads` workers.
pub open spec fn blur_by_segments(
    img: Seq<int>,
    shape: Shape,
    down: Kernel,
    along: Kernel,
    r: int,
    threads: int,
) -> Seq<int> {
    horizontal_by_segments(
        vertical_by_segments(img, shape, down, r, threads, threads as nat),
        shape,
        along,
        r,
        threads,
        threads as nat,
    )
}

/// What the first `done` workers leave is the vertical pass over the columns
/// of their shares.
pub proof fn lemma_vertical_segments(
    img: Seq<int>,
    shape: Shape,
    kernel: Kernel,
    r: int,
    threads: int,
    done: nat,
)
    requires
        shape.fits(img.len() as int),
        1 <= threads,
        done <= threads,
    ensures
        vertical_by_segments(img, shape, kernel, r, threads, done) == vertical_pass(
            img,
            shape,
            kernel,
            r,
            0,
            if done == 0 {
                0
            } else {
                segment_end(shape.width, threads, done - 1)
            },
        ),
    decreases done,
{
    if done > 0 {
        lemma_vertical_segments(img, shape, kernel, r, threads, (done - 1) as nat);
        lemma_segments_partition(shape.width, threads, done - 1);
        lemma_vertical_compose(
            img,
            shape,
            kernel,
            r,
            0,
            segment_start(shape.width, threads, done - 1),
            segment_end(shape.width, threads, done - 1),
        );
    }
}

/// What the first `done` workers leave is the horizontal pass over the rows
/// of their shares.
pub proof fn lemma_horizontal_segments(
    img: Seq<int>,
    shape: Shape,
    kernel: Kernel,
    r: int,
    threads: int,
    done: nat,
)
    requires
        shape.fits(img.len() as int),
        1 <= threads,
        done <= threads,
    ensures
        horizontal_by_segments(img, shape, kernel, r, threads, done) == horizontal_pass(
            img,
            shape,
            kernel,
            r,
            0,
            if done == 0 {
                0
            } else {
                segment_end(shape.height, threads, done - 1)
            },
        ),
    decreases done,
{
    if done > 0 {
        lemma_horizontal_segments(img, shape, kernel, r, threads, (done - 1) as nat);
        lemma_segments_partition(shape.height, threads, done - 1);
        lemma_horizontal_compose(
            img,
            shape,
            kernel,
            r,
            0,
            segment_start(shape.height, threads, done - 1),
            segment_end(shape.height, threads, done - 1),
        );
    }
}

/// However many workers the two passes are divided among, the image that
/// comes out is the same: the one that a single worker leaves.
pub proof fn lemma_thread_count_is_immaterial(
    img: Seq<int>,
    shape: Shape,
    down: Kernel,
    along: Kernel,
    r: int,
    threads: int,
)
    requires
        shape.fits(img.len() as int),
        1 <= threads,
    ensures
        blur_by_segments(img, shape, down, along, r, threads) == blur(img, shape, down, along, r),
{
    lemma_vertical_segments(img, shape, down, r, threads, threads as nat);
    let mid = vertical_by_segments(img, shape, down, r, threads, threads as nat);
    lemma_horizontal_segments(mid, shape, along, r, threads, threads as nat);
}

} // verus!

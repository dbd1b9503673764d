//! How an image lies in its buffer, and what the two passes of a blur make
//! of it.

use vstd::prelude::*;
use vstd::arithmetic::div_mod::{lemma_fundamental_div_mod, lemma_fundamental_div_mod_converse};
use crate::edge::EdgeMode;
use crate::kernel::{swept, Kernel};
use crate::line::{lemma_position, line_of, position};

verus! {

/// The geometry of an interleaved image: `height` rows that start `stride`
/// elements apart, each of `width` pixels of `channels` elements.
pub struct Shape {
    pub stride: int,
    pub width: int,
    pub height: int,
    pub channels: int,
}

impl Shape {
    /// The geometry is one that a buffer of `len` elements can hold.
    pub open spec fn fits(self, len: int) -> bool {
        &&& 1 <= self.channels
        &&& 0 <= self.width
        &&& 0 <= self.height
        &&& self.width * self.channels <= self.stride
        &&& self.stride * self.height <= len
    }

    /// The row in which buffer position `p` lies.
    pub open spec fn row(self, p: int) -> int {
        p / self.stride
    }

    /// How far into its row buffer position `p` lies.
    pub open spec fn lane(self, p: int) -> int {
        p % self.stride
    }

    /// The pixel column of buffer position `p`.
    pub open spec fn column(self, p: int) -> int {
        self.lane(p) / self.channels
    }

    /// The channel of buffer position `p`.
    pub open spec fn channel(self, p: int) -> int {
        self.lane(p) % self.channels
    }

    /// Buffer position `p` holds a channel of a pixel, and not padding at the
    /// end of a row or behind the last row.
    pub open spec fn covers(self, p: int) -> bool {
        &&& 0 < self.stride
        &&& 0 <= p
        &&& self.row(p) < self.height
        &&& self.lane(p) < self.width * self.channels
    }

    /// Where the column line through `p` starts.
    pub open spec fn column_base(self, p: int) -> int {
        self.lane(p)
    }

    /// Where the row line through `p` starts.
    pub open spec fn row_base(self, p: int) -> int {
        self.row(p) * self.stride + self.channel(p)
    }
}

/// The image after a vertical pass over the pixel columns `lo <= x < hi`:
/// every element of those columns has the level that the sweep down its
/// column gives it, every other element is as it was.
pub open spec fn vertical_pass(
    img: Seq<int>,
    shape: Shape,
    kernel: Kernel,
    r: int,
    lo: int,
    hi: int,
) -> Seq<int> {
    vertical_pass_lanes(img, shape, kernel, r, lo * shape.channels, hi * shape.channels)
}

/// As `vertical_pass`, over the columns of single elements `lo <= q < hi` of
/// each row.
pub open spec fn vertical_pass_lanes(
    img: Seq<int>,
    shape: Shape,
    kernel: Kernel,
    r: int,
    lo: int,
    hi: int,
) -> Seq<int> {
    Seq::new(
        img.len(),
        |p: int|
            if shape.covers(p) && lo <= shape.lane(p) < hi {
                swept(kernel, r, line_of(img, shape.column_base(p), shape.stride, shape.height))[shape.row(
                    p,
                )]
            } else {
                img[p]
            },
    )
}

/// The image after a horizontal pass over the rows `lo <= y < hi`: every
/// element of those rows has the level that the sweep along its row gives it,
/// every other element is as it was.
pub open spec fn horizontal_pass(
    img: Seq<int>,
    shape: Shape,
    kernel: Kernel,
    r: int,
    lo: int,
    hi: int,
) -> Seq<int> {
    horizontal_pass_upto(img, shape, kernel, r, lo, hi, 0)
}

/// As `horizontal_pass` over the rows `lo <= y < row`, and over the channels
/// below `channel` of row `row` besides.
pub open spec fn horizontal_pass_upto(
    img: Seq<int>,
    shape: Shape,
    kernel: Kernel,
    r: int,
    lo: int,
    row: int,
    channel: int,
) -> Seq<int> {
    Seq::new(
        img.len(),
        |p: int|
            if shape.covers(p) && lo <= shape.row(p) && (shape.row(p) < row || (shape.row(p)
                == row && shape.channel(p) < channel)) {
                swept(kernel, r, line_of(img, shape.row_base(p), shape.channels, shape.width))[shape.column(
                    p,
                )]
            } else {
                img[p]
            },
    )
}

/// The image after both passes: down every column, then along every row of
/// what that gave.
pub open spec fn blur(img: Seq<int>, shape: Shape, down: Kernel, along: Kernel, r: int) -> Seq<
    int,
> {
    horizontal_pass(
        vertical_pass(img, shape, down, r, 0, shape.width),
        shape,
        along,
        r,
        0,
        shape.height,
    )
}

/// The image after the second-order blur: levels are rounded down on the way
/// down the columns, and to the nearest on the way along the rows.
pub open spec fn blur_next(img: Seq<int>, shape: Shape, r: int) -> Seq<int> {
    blur(img, shape, Kernel::Next { rounded: false }, Kernel::Next { rounded: true }, r)
}

/// The image after the first-order blur under an edge policy.
pub open spec fn blur_gauss(img: Seq<int>, shape: Shape, r: int, mode: EdgeMode) -> Seq<int> {
    blur(img, shape, Kernel::Gauss { mode: mode }, Kernel::Gauss { mode: mode }, r)
}

/// Element `i` of the column line of lane `q` lies in row `i`, lane `q`.
pub proof fn lemma_column_element(shape: Shape, q: int, i: int)
    requires
        0 <= q < shape.stride,
        0 <= i,
    ensures
        shape.row(position(q, shape.stride, i)) == i,
        shape.lane(position(q, shape.stride, i)) == q,
        0 <= position(q, shape.stride, i),
        i < shape.height ==> position(q, shape.stride, i) < shape.stride * shape.height,
{
    lemma_position(q, shape.stride, i);
    let p = q + i * shape.stride;
    assert(p == shape.stride * i + q) by (nonlinear_arith)
        requires
            p == q + i * shape.stride,
    ;
    lemma_fundamental_div_mod_converse(p, shape.stride, i, q);
    assert(0 <= i * shape.stride) by (nonlinear_arith)
        requires
            0 <= i,
            0 <= shape.stride,
    ;
    if i < shape.height {
        assert(q + i * shape.stride < shape.stride * shape.height) by (nonlinear_arith)
            requires
                0 <= q < shape.stride,
                0 <= i < shape.height,
        ;
    }
}

/// A position of row `i < height` and lane `q` is element `i` of the column
/// line of lane `q`.
pub proof fn lemma_on_column(shape: Shape, p: int)
    requires
        0 < shape.stride,
        0 <= p,
    ensures
        p == position(shape.lane(p), shape.stride, shape.row(p)),
        0 <= shape.lane(p) < shape.stride,
        0 <= shape.row(p),
{
    lemma_fundamental_div_mod(p, shape.stride);
    lemma_position(shape.lane(p), shape.stride, shape.row(p));
}

/// Element `i` of the row line of row `y` and channel `c` lies in row `y`,
/// column `i`, channel `c`.
pub proof fn lemma_row_element(shape: Shape, y: int, c: int, i: int)
    requires
        1 <= shape.channels,
        shape.width * shape.channels <= shape.stride,
        0 <= y,
        0 <= c < shape.channels,
        0 <= i < shape.width,
    ensures
        shape.row(position(y * shape.stride + c, shape.channels, i)) == y,
        shape.lane(position(y * shape.stride + c, shape.channels, i)) == c + i * shape.channels,
        shape.column(position(y * shape.stride + c, shape.channels, i)) == i,
        shape.channel(position(y * shape.stride + c, shape.channels, i)) == c,
        0 <= position(y * shape.stride + c, shape.channels, i),
        shape.lane(position(y * shape.stride + c, shape.channels, i)) < shape.width
            * shape.channels,
        y < shape.height ==> position(y * shape.stride + c, shape.channels, i) < shape.stride
            * shape.height,
{
    let ch = shape.channels;
    let base = y * shape.stride + c;
    lemma_position(base, ch, i);
    let p = base + i * ch;
    let lane = c + i * ch;
    assert(0 <= lane < shape.width * ch) by (nonlinear_arith)
        requires
            lane == c + i * ch,
            0 <= c < ch,
            0 <= i < shape.width,
    ;
    assert(p == shape.stride * y + lane) by (nonlinear_arith)
        requires
            p == y * shape.stride + c + i * ch,
            lane == c + i * ch,
    ;
    lemma_fundamental_div_mod_converse(p, shape.stride, y, lane);
    lemma_fundamental_div_mod_converse(lane, ch, i, c);
    if y < shape.height {
        assert(shape.stride * y + lane < shape.stride * shape.height) by (nonlinear_arith)
            requires
                0 <= lane < shape.stride,
                0 <= y < shape.height,
        ;
    }
}

/// A position that holds a channel of a pixel is the element of its column
/// on the row line of its row and channel.
pub proof fn lemma_on_row(shape: Shape, p: int)
    requires
        1 <= shape.channels,
        shape.covers(p),
    ensures
        p == position(shape.row_base(p), shape.channels, shape.column(p)),
        0 <= shape.row(p),
        0 <= shape.channel(p) < shape.channels,
        0 <= shape.column(p) < shape.width,
{
    lemma_on_column(shape, p);
    let lane = shape.lane(p);
    let ch = shape.channels;
    lemma_position(shape.row_base(p), ch, shape.column(p));
    lemma_position(lane, shape.stride, shape.row(p));
    assert(0 <= lane / ch < shape.width) by (nonlinear_arith)
        requires
            0 <= lane < shape.width * ch,
            1 <= ch,
    ;
}

/// Columns do not touch one another: the vertical pass over one range of
/// columns, and then over the range that follows it, is the vertical pass
/// over both.
pub proof fn lemma_vertical_compose(
    img: Seq<int>,
    shape: Shape,
    kernel: Kernel,
    r: int,
    a: int,
    b: int,
    c: int,
)
    requires
        shape.fits(img.len() as int),
        0 <= a <= b <= c,
    ensures
        vertical_pass(vertical_pass(img, shape, kernel, r, a, b), shape, kernel, r, b, c)
            == vertical_pass(img, shape, kernel, r, a, c),
{
    let ch = shape.channels;
    let mid = vertical_pass(img, shape, kernel, r, a, b);
    let both = vertical_pass(mid, shape, kernel, r, b, c);
    let whole = vertical_pass(img, shape, kernel, r, a, c);
    assert(a * ch <= b * ch <= c * ch) by (nonlinear_arith)
        requires
            a <= b <= c,
            1 <= ch,
    ;
    assert forall|p: int| 0 <= p < img.len() implies both[p] == whole[p] by {
        if shape.covers(p) && b * ch <= shape.lane(p) < c * ch {
            let q = shape.lane(p);
            let mid_line = line_of(mid, q, shape.stride, shape.height);
            let img_line = line_of(img, q, shape.stride, shape.height);
            assert(mid_line =~= img_line) by {
                assert forall|i: int| 0 <= i < shape.height implies mid_line[i] == img_line[i] by {
                    lemma_column_element(shape, q, i);
                }
            }
        }
    }
}

/// Rows do not touch one another: the horizontal pass over one range of rows,
/// and then over the range that follows it, is the horizontal pass over both.
pub proof fn lemma_horizontal_compose(
    img: Seq<int>,
    shape: Shape,
    kernel: Kernel,
    r: int,
    a: int,
    b: int,
    c: int,
)
    requires
        shape.fits(img.len() as int),
        0 <= a <= b <= c,
    ensures
        horizontal_pass(horizontal_pass(img, shape, kernel, r, a, b), shape, kernel, r, b, c)
            == horizontal_pass(img, shape, kernel, r, a, c),
{
    let mid = horizontal_pass(img, shape, kernel, r, a, b);
    let both = horizontal_pass(mid, shape, kernel, r, b, c);
    let whole = horizontal_pass(img, shape, kernel, r, a, c);
    assert forall|p: int| 0 <= p < img.len() implies both[p] == whole[p] by {
        if shape.covers(p) && b <= shape.row(p) < c {
            let base = shape.row_base(p);
            let mid_line = line_of(mid, base, shape.channels, shape.width);
            let img_line = line_of(img, base, shape.channels, shape.width);
            assert(mid_line =~= img_line) by {
                assert forall|i: int| 0 <= i < shape.width implies mid_line[i] == img_line[i] by {
                    lemma_row_element(shape, shape.row(p), shape.channel(p), i);
                }
            }
        }
    }
}

} // verus!

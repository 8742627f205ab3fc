//! Whole frames: BGRA to planar and back, and the split into two 4:2:0
//! frames.

use super::pixel::{
    blue, blue_of, cb_of, chroma_blue, chroma_red, cr_of, green, green_of, luma, luma_of, red, red_of,
};
use super::plane::{at, lemma_append_row, lemma_no_rows, lemma_rows_fit};
use vstd::prelude::*;
use vstd::slice::slice_subrange;

verus! {

/// A planar I420 frame, tightly packed: Y is `w*h`, U and V are `w/2*h/2`.
#[derive(Debug, Clone, PartialEq, Eq)]
pub struct I420 {
    pub width: usize,
    pub height: usize,
    pub y: Vec<u8>,
    pub u: Vec<u8>,
    pub v: Vec<u8>,
}

/// A planar frame with full chroma: each plane is `w*h`.
#[derive(Debug, Clone, PartialEq, Eq)]
pub struct Yuv444 {
    pub width: usize,
    pub height: usize,
    pub y: Vec<u8>,
    pub u: Vec<u8>,
    pub v: Vec<u8>,
}

fn zeros(n: usize) -> (v: Vec<u8>)
    ensures
        v@ == Seq::new(n as nat, |i: int| 0u8),
{
    let v: Vec<u8> = vec![0u8; n];
    assert(v@ =~= Seq::new(n as nat, |i: int| 0u8));
    v
}

impl I420 {
    /// Even dimensions, and planes of the sizes they call for.
    pub open spec fn wf(&self) -> bool {
        &&& self.width > 0
        &&& self.width % 2 == 0
        &&& self.height % 2 == 0
        &&& self.y@.len() == self.height * self.width
        &&& self.u@.len() == (self.height / 2) * (self.width / 2)
        &&& self.v@.len() == (self.height / 2) * (self.width / 2)
    }

    pub fn new(width: usize, height: usize) -> (f: Self)
        requires
            width * height <= usize::MAX,
        ensures
            f.width == width,
            f.height == height,
            f.y@ == Seq::new((width * height) as nat, |i: int| 0u8),
            f.u@ == Seq::new((width * height / 4) as nat, |i: int| 0u8),
            f.v@ == Seq::new((width * height / 4) as nat, |i: int| 0u8),
    {
        let n: usize = width * height;
        Self { width, height, y: zeros(n), u: zeros(n / 4), v: zeros(n / 4) }
    }
}

impl Yuv444 {
    /// Planes of the sizes the dimensions call for.
    pub open spec fn wf(&self) -> bool {
        &&& self.width > 0
        &&& self.y@.len() == self.height * self.width
        &&& self.u@.len() == self.height * self.width
        &&& self.v@.len() == self.height * self.width
    }

    pub fn new(width: usize, height: usize) -> (f: Self)
        requires
            width * height <= usize::MAX,
        ensures
            f.width == width,
            f.height == height,
            f.y@ == Seq::new((width * height) as nat, |i: int| 0u8),
            f.u@ == Seq::new((width * height) as nat, |i: int| 0u8),
            f.v@ == Seq::new((width * height) as nat, |i: int| 0u8),
    {
        let n: usize = width * height;
        Self { width, height, y: zeros(n), u: zeros(n), v: zeros(n) }
    }
}

/// Whether `bgra` holds `height` rows of `width` pixels, `stride` bytes apart.
pub open spec fn holds_pixels(bgra: Seq<u8>, stride: int, width: int, height: int) -> bool {
    height > 0 ==> (height - 1) * stride + 4 * width <= bgra.len()
}

/// Luma of the pixel at column `x` of row `row`.
pub open spec fn pixel_luma(bgra: Seq<u8>, stride: int, row: int, x: int) -> u8 {
    let i = row * stride + 4 * x;
    luma_of(bgra[i], bgra[i + 1], bgra[i + 2])
}

/// Blue-difference chroma of the pixel at column `x` of row `row`.
pub open spec fn pixel_cb(bgra: Seq<u8>, stride: int, row: int, x: int) -> u8 {
    let i = row * stride + 4 * x;
    cb_of(bgra[i], bgra[i + 1], bgra[i + 2])
}

/// Red-difference chroma of the pixel at column `x` of row `row`.
pub open spec fn pixel_cr(bgra: Seq<u8>, stride: int, row: int, x: int) -> u8 {
    let i = row * stride + 4 * x;
    cr_of(bgra[i], bgra[i + 1], bgra[i + 2])
}

/// Luma of one row: `width` pixels from `line`.
pub fn row_y(line: &[u8], width: usize) -> (y: Vec<u8>)
    requires
        4 * width <= line@.len(),
    ensures
        y@.len() == width,
        forall|x: int|
            0 <= x < width ==> #[trigger] y@[x] == luma_of(line@[4 * x], line@[4 * x + 1], line@[4 * x + 2]),
{
    let mut y: Vec<u8> = Vec::with_capacity(width);
    let len: usize = line.len();
    for x in 0..width
        invariant
            4 * width <= line@.len() == len,
            y@.len() == x,
            forall|k: int|
                0 <= k < x ==> #[trigger] y@[k] == luma_of(line@[4 * k], line@[4 * k + 1], line@[4 * k + 2]),
    {
        y.push(luma(line[4 * x], line[4 * x + 1], line[4 * x + 2]));
    }
    y
}

/// Chroma of one row: `n` samples, one per `step` pixels of `line`.
pub fn row_uv(line: &[u8], n: usize, step: usize) -> (uv: (Vec<u8>, Vec<u8>))
    requires
        step == 1 || step == 2,
        4 * step * n <= line@.len(),
    ensures
        uv.0@.len() == n,
        uv.1@.len() == n,
        forall|x: int|
            0 <= x < n ==> #[trigger] uv.0@[x] == cb_of(
                line@[4 * (step * x)],
                line@[4 * (step * x) + 1],
                line@[4 * (step * x) + 2],
            ),
        forall|x: int|
            0 <= x < n ==> #[trigger] uv.1@[x] == cr_of(
                line@[4 * (step * x)],
                line@[4 * (step * x) + 1],
                line@[4 * (step * x) + 2],
            ),
{
    let mut u: Vec<u8> = Vec::with_capacity(n);
    let mut v: Vec<u8> = Vec::with_capacity(n);
    let len: usize = line.len();
    for x in 0..n
        invariant
            step == 1 || step == 2,
            4 * step * n <= line@.len() == len,
            u@.len() == x,
            v@.len() == x,
            forall|k: int|
                0 <= k < x ==> #[trigger] u@[k] == cb_of(
                    line@[4 * (step * k)],
                    line@[4 * (step * k) + 1],
                    line@[4 * (step * k) + 2],
                ),
            forall|k: int|
                0 <= k < x ==> #[trigger] v@[k] == cr_of(
                    line@[4 * (step * k)],
                    line@[4 * (step * k) + 1],
                    line@[4 * (step * k) + 2],
                ),
    {
        proof {
            assert(4 * step * n == 4 * n || 4 * step * n == 8 * n) by (nonlinear_arith)
                requires
                    step == 1 || step == 2,
            ;
            assert(step * x == x || step * x == 2 * x);
        }
        let i: usize = if step == 1 { 4 * x } else { 8 * x };
        let (b, g, r): (u8, u8, u8) = (line[i], line[i + 1], line[i + 2]);
        u.push(chroma_blue(b, g, r));
        v.push(chroma_red(b, g, r));
    }
    (u, v)
}

/// One row of BGRA from luma and chroma rows. With `upsample`, each chroma
/// sample covers two pixels.
pub fn row_bgra(y: &[u8], u: &[u8], v: &[u8], upsample: bool) -> (out: Vec<u8>)
    requires
        upsample ==> y@.len() % 2 == 0 && u@.len() >= y@.len() / 2 && v@.len() >= y@.len() / 2,
        !upsample ==> u@.len() >= y@.len() && v@.len() >= y@.len(),
        4 * y@.len() <= usize::MAX,
    ensures
        out@.len() == 4 * y@.len(),
        forall|x: int|
            0 <= x < y@.len() ==> #[trigger] pixel_made(out@, y@, u@, v@, upsample, x),
{
    let mut out: Vec<u8> = Vec::with_capacity(4 * y.len());
    for x in 0..y.len()
        invariant
            upsample ==> y@.len() % 2 == 0 && u@.len() >= y@.len() / 2 && v@.len() >= y@.len() / 2,
            !upsample ==> u@.len() >= y@.len() && v@.len() >= y@.len(),
            4 * y@.len() <= usize::MAX,
            out@.len() == 4 * x,
            forall|k: int|
                0 <= k < x ==> #[trigger] pixel_made(out@, y@, u@, v@, upsample, k),
    {
        let c: usize = if upsample { x / 2 } else { x };
        let ghost before = out@;
        out.push(blue(y[x], u[c]));
        out.push(green(y[x], u[c], v[c]));
        out.push(red(y[x], v[c]));
        out.push(255);
        proof {
            assert forall|k: int| 0 <= k < x + 1 implies #[trigger] pixel_made(out@, y@, u@, v@, upsample, k) by {
                if k < x {
                    assert(pixel_made(before, y@, u@, v@, upsample, k));
                }
            }
        }
    }
    out
}

/// Whether the four bytes at `i` are the opaque pixel of these samples.
pub open spec fn pixel_is(bgra: Seq<u8>, i: int, y: u8, cb: u8, cr: u8) -> bool {
    &&& bgra[i] == blue_of(y, cb)
    &&& bgra[i + 1] == green_of(y, cb, cr)
    &&& bgra[i + 2] == red_of(y, cr)
    &&& bgra[i + 3] == 255
}

/// Whether pixel `x` of a row is the one of its samples, where each chroma
/// sample covers two pixels when `upsample`.
pub open spec fn pixel_made(out: Seq<u8>, y: Seq<u8>, u: Seq<u8>, v: Seq<u8>, upsample: bool, x: int) -> bool {
    let c = if upsample {
        x / 2
    } else {
        x
    };
    pixel_is(out, 4 * x, y[x], u[c], v[c])
}

/// Append a line to a plane.
pub(crate) fn push_row(plane: &mut Vec<u8>, line: Vec<u8>, Ghost(width): Ghost<int>, Ghost(rows): Ghost<int>)
    requires
        0 <= rows,
        0 < width,
        old(plane)@.len() == rows * width,
        line@.len() == width,
    ensures
        final(plane)@ == old(plane)@ + line@,
        final(plane)@.len() == (rows + 1) * width,
        forall|row: int, x: int|
            0 <= row < rows && 0 <= x < width ==> #[trigger] at(final(plane)@, width, row, x) == at(
                old(plane)@,
                width,
                row,
                x,
            ),
        forall|x: int| 0 <= x < width ==> #[trigger] at(final(plane)@, width, rows, x) == line@[x],
{
    let mut line = line;
    proof {
        lemma_append_row(plane@, line@, width, rows);
    }
    plane.append(&mut line);
}

/// Pack BGRA to I420 with the chroma of each 2x2 block taken from its
/// top-left pixel. Width and height must be even; `stride` is bytes per
/// source row.
pub fn bgra_to_i420(bgra: &[u8], stride: usize, width: usize, height: usize) -> (out: I420)
    requires
        width > 0,
        width % 2 == 0,
        height % 2 == 0,
        width * height <= usize::MAX,
        4 * width <= usize::MAX,
        holds_pixels(bgra@, stride as int, width as int, height as int),
    ensures
        out.wf(),
        out.width == width,
        out.height == height,
        forall|row: int, x: int|
            0 <= row < height && 0 <= x < width ==> #[trigger] at(out.y@, width as int, row, x) == pixel_luma(
                bgra@,
                stride as int,
                row,
                x,
            ),
        forall|row: int, x: int|
            0 <= row < height / 2 && 0 <= x < width / 2 ==> #[trigger] at(out.u@, (width / 2) as int, row, x)
                == pixel_cb(bgra@, stride as int, 2 * row, 2 * x),
        forall|row: int, x: int|
            0 <= row < height / 2 && 0 <= x < width / 2 ==> #[trigger] at(out.v@, (width / 2) as int, row, x)
                == pixel_cr(bgra@, stride as int, 2 * row, 2 * x),
{
    let cw: usize = width / 2;
    let mut y: Vec<u8> = Vec::new();
    let mut u: Vec<u8> = Vec::new();
    let mut v: Vec<u8> = Vec::new();
    let len: usize = bgra.len();
    proof {
        lemma_no_rows(width as int);
        lemma_no_rows((width / 2) as int);
    }
    for row in 0..height
        invariant
            bgra@.len() == len,
            width > 0,
            width % 2 == 0,
            height % 2 == 0,
            cw == width / 2,
            4 * width <= usize::MAX,
            holds_pixels(bgra@, stride as int, width as int, height as int),
            y@.len() == row * width,
            u@.len() == ((row + 1) / 2) * cw,
            v@.len() == ((row + 1) / 2) * cw,
            forall|r: int, x: int|
                0 <= r < row && 0 <= x < width ==> #[trigger] at(y@, width as int, r, x) == pixel_luma(
                    bgra@,
                    stride as int,
                    r,
                    x,
                ),
            forall|r: int, x: int|
                0 <= r < (row + 1) / 2 && 0 <= x < cw ==> #[trigger] at(u@, cw as int, r, x) == pixel_cb(
                    bgra@,
                    stride as int,
                    2 * r,
                    2 * x,
                ),
            forall|r: int, x: int|
                0 <= r < (row + 1) / 2 && 0 <= x < cw ==> #[trigger] at(v@, cw as int, r, x) == pixel_cr(
                    bgra@,
                    stride as int,
                    2 * r,
                    2 * x,
                ),
    {
        proof {
            lemma_rows_fit(stride as int, 4 * width, row as int, height as int, bgra@.len() as int);
        }
        let start: usize = row * stride;
        let line = slice_subrange(bgra, start, start + 4 * width);
        push_row(&mut y, row_y(line, width), Ghost(width as int), Ghost(row as int));
        if row % 2 == 0 {
            let (us, vs) = row_uv(line, cw, 2);
            let ghost pair = (row / 2) as int;
            assert((row + 1) / 2 == pair && (row + 2) / 2 == pair + 1);
            push_row(&mut u, us, Ghost(cw as int), Ghost(pair));
            push_row(&mut v, vs, Ghost(cw as int), Ghost(pair));
        }
    }
    I420 { width, height, y, u, v }
}

/// Convert BGRA to planar 4:4:4, for the dual-stream split.
pub fn bgra_to_yuv444(bgra: &[u8], stride: usize, width: usize, height: usize) -> (out: Yuv444)
    requires
        width > 0,
        width * height <= usize::MAX,
        4 * width <= usize::MAX,
        holds_pixels(bgra@, stride as int, width as int, height as int),
    ensures
        out.wf(),
        out.width == width,
        out.height == height,
        forall|row: int, x: int|
            0 <= row < height && 0 <= x < width ==> #[trigger] at(out.y@, width as int, row, x) == pixel_luma(
                bgra@,
                stride as int,
                row,
                x,
            ),
        forall|row: int, x: int|
            0 <= row < height && 0 <= x < width ==> #[trigger] at(out.u@, width as int, row, x) == pixel_cb(
                bgra@,
                stride as int,
                row,
                x,
            ),
        forall|row: int, x: int|
            0 <= row < height && 0 <= x < width ==> #[trigger] at(out.v@, width as int, row, x) == pixel_cr(
                bgra@,
                stride as int,
                row,
                x,
            ),
{
    let mut y: Vec<u8> = Vec::new();
    let mut u: Vec<u8> = Vec::new();
    let mut v: Vec<u8> = Vec::new();
    let len: usize = bgra.len();
    proof {
        lemma_no_rows(width as int);
        lemma_no_rows((width / 2) as int);
    }
    for row in 0..height
        invariant
            bgra@.len() == len,
            width > 0,
            4 * width <= usize::MAX,
            holds_pixels(bgra@, stride as int, width as int, height as int),
            y@.len() == row * width,
            u@.len() == row * width,
            v@.len() == row * width,
            forall|r: int, x: int|
                0 <= r < row && 0 <= x < width ==> #[trigger] at(y@, width as int, r, x) == pixel_luma(
                    bgra@,
                    stride as int,
                    r,
                    x,
                ),
            forall|r: int, x: int|
                0 <= r < row && 0 <= x < width ==> #[trigger] at(u@, width as int, r, x) == pixel_cb(
                    bgra@,
                    stride as int,
                    r,
                    x,
                ),
            forall|r: int, x: int|
                0 <= r < row && 0 <= x < width ==> #[trigger] at(v@, width as int, r, x) == pixel_cr(
                    bgra@,
                    stride as int,
                    r,
                    x,
                ),
    {
        proof {
            lemma_rows_fit(stride as int, 4 * width, row as int, height as int, bgra@.len() as int);
        }
        let start: usize = row * stride;
        let line = slice_subrange(bgra, start, start + 4 * width);
        let (us, vs) = row_uv(line, width, 1);
        push_row(&mut y, row_y(line, width), Ghost(width as int), Ghost(row as int));
        push_row(&mut u, us, Ghost(width as int), Ghost(row as int));
        push_row(&mut v, vs, Ghost(width as int), Ghost(row as int));
    }
    Yuv444 { width, height, y, u, v }
}

/// A pixel that is made has blue, green, red and a full last byte, from its own
/// luma and the chroma that it has for itself or shares with its neighbour.
pub proof fn law_pixels_are_made_of_their_samples(
    out: Seq<u8>,
    y: Seq<u8>,
    u: Seq<u8>,
    v: Seq<u8>,
    upsample: bool,
    x: int,
)
    requires
        0 <= x,
        4 * x + 4 <= out.len(),
        pixel_made(out, y, u, v, upsample, x),
    ensures
        ({
            let (cb, cr) = if upsample {
                (u[x / 2], v[x / 2])
            } else {
                (u[x], v[x])
            };
            out.subrange(4 * x, 4 * x + 4) == seq![
                blue_of(y[x], cb),
                green_of(y[x], cb, cr),
                red_of(y[x], cr),
                255u8,
            ]
        }),
{
    let c = if upsample {
        x / 2
    } else {
        x
    };
    assert(out.subrange(4 * x, 4 * x + 4) =~= seq![
        blue_of(y[x], u[c]),
        green_of(y[x], u[c], v[c]),
        red_of(y[x], v[c]),
        255u8,
    ]);
}

/// The samples of pixels that stand one after another follow them.
pub proof fn law_samples_follow_the_pixels(bgra: Seq<u8>, width: int, row: int, x: int)
    ensures
        ({
            let i = 4 * (row * width + x);
            let (b, g, r) = (bgra[i], bgra[i + 1], bgra[i + 2]);
            &&& pixel_luma(bgra, 4 * width, row, x) == luma_of(b, g, r)
            &&& pixel_cb(bgra, 4 * width, row, x) == cb_of(b, g, r)
            &&& pixel_cr(bgra, 4 * width, row, x) == cr_of(b, g, r)
        }),
{
    assert(row * (4 * width) + 4 * x == 4 * (row * width + x)) by (nonlinear_arith);
}

} // verus!

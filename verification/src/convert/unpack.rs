//! Planar frames back to BGRA.

use super::frame::{pixel_is, pixel_made, row_bgra, Yuv444};
use super::plane::{at, lemma_cell, lemma_next_row, lemma_no_rows, lemma_rows_fit};
use vstd::prelude::*;
use vstd::slice::slice_subrange;

verus! {

/// Whether a plane holds `rows` rows of `width` samples, `stride` apart.
pub open spec fn holds_rows(plane: Seq<u8>, stride: int, width: int, rows: int) -> bool {
    rows > 0 ==> (rows - 1) * stride + width <= plane.len()
}

/// Whether a pixel of a frame is the one of its samples.
pub open spec fn pixel_at(bgra: Seq<u8>, width: int, row: int, x: int, y: u8, cb: u8, cr: u8) -> bool {
    pixel_is(bgra, row * (4 * width) + 4 * x, y, cb, cr)
}

/// Appending a row of pixels leaves the pixels before it.
proof fn lemma_append_pixels(before: Seq<u8>, line: Seq<u8>, width: int, rows: int)
    requires
        0 < width,
        0 <= rows,
        before.len() == rows * (4 * width),
        line.len() == 4 * width,
    ensures
        (before + line).len() == (rows + 1) * (4 * width),
        forall|row: int, x: int, y: u8, cb: u8, cr: u8|
            0 <= row < rows && 0 <= x < width ==> #[trigger] pixel_at(before + line, width, row, x, y, cb, cr)
                == pixel_at(before, width, row, x, y, cb, cr),
        forall|x: int, y: u8, cb: u8, cr: u8|
            0 <= x < width ==> #[trigger] pixel_at(before + line, width, rows, x, y, cb, cr) == pixel_is(
                line,
                4 * x,
                y,
                cb,
                cr,
            ),
{
    lemma_next_row(4 * width, rows);
    assert forall|row: int, x: int, y: u8, cb: u8, cr: u8| 0 <= row < rows && 0 <= x < width implies #[trigger] pixel_at(
        before + line,
        width,
        row,
        x,
        y,
        cb,
        cr,
    ) == pixel_at(before, width, row, x, y, cb, cr) by {
        lemma_cell(4 * width, rows, row, 4 * x + 3);
        lemma_cell(4 * width, rows, row, 4 * x);
    }
}

/// Unpack I420 (strides may exceed the width) to BGRA, each chroma sample
/// repeated over its 2x2 block. Width and height must be even.
pub fn i420_to_bgra(
    y: &[u8],
    u: &[u8],
    v: &[u8],
    strides: (usize, usize, usize),
    width: usize,
    height: usize,
) -> (out: Vec<u8>)
    requires
        width > 0,
        width % 2 == 0,
        height % 2 == 0,
        height * (4 * width) <= usize::MAX,
        4 * width <= usize::MAX,
        holds_rows(y@, strides.0 as int, width as int, height as int),
        holds_rows(u@, strides.1 as int, (width / 2) as int, (height / 2) as int),
        holds_rows(v@, strides.2 as int, (width / 2) as int, (height / 2) as int),
    ensures
        out@.len() == height * (4 * width),
        forall|row: int, x: int|
            0 <= row < height && 0 <= x < width ==> pixel_at(
                out@,
                width as int,
                row,
                x,
                #[trigger] at(y@, strides.0 as int, row, x),
                at(u@, strides.1 as int, row / 2, x / 2),
                at(v@, strides.2 as int, row / 2, x / 2),
            ),
{
    let cw: usize = width / 2;
    let (sy, su, sv) = strides;
    let mut out: Vec<u8> = Vec::new();
    let (ylen, ulen, vlen): (usize, usize, usize) = (y.len(), u.len(), v.len());
    proof {
        lemma_no_rows(4 * width);
    }
    for row in 0..height
        invariant
            width > 0,
            width % 2 == 0,
            height % 2 == 0,
            cw == width / 2,
            (sy, su, sv) == strides,
            4 * width <= usize::MAX,
            y@.len() == ylen,
            u@.len() == ulen,
            v@.len() == vlen,
            holds_rows(y@, sy as int, width as int, height as int),
            holds_rows(u@, su as int, cw as int, (height / 2) as int),
            holds_rows(v@, sv as int, cw as int, (height / 2) as int),
            out@.len() == row * (4 * width),
            forall|r: int, x: int|
                0 <= r < row && 0 <= x < width ==> pixel_at(
                    out@,
                    width as int,
                    r,
                    x,
                    #[trigger] at(y@, sy as int, r, x),
                    at(u@, su as int, r / 2, x / 2),
                    at(v@, sv as int, r / 2, x / 2),
                ),
    {
        let half: usize = row / 2;
        proof {
            lemma_rows_fit(sy as int, width as int, row as int, height as int, ylen as int);
            lemma_rows_fit(su as int, cw as int, half as int, (height / 2) as int, ulen as int);
            lemma_rows_fit(sv as int, cw as int, half as int, (height / 2) as int, vlen as int);
        }
        let yl = slice_subrange(y, row * sy, row * sy + width);
        let ul = slice_subrange(u, half * su, half * su + cw);
        let vl = slice_subrange(v, half * sv, half * sv + cw);
        let ghost before = out@;
        let mut line: Vec<u8> = row_bgra(yl, ul, vl, true);
        let ghost got = line@;
        out.append(&mut line);
        proof {
            lemma_append_pixels(before, got, width as int, row as int);
            assert forall|r: int, x: int| 0 <= r < row + 1 && 0 <= x < width implies pixel_at(
                out@,
                width as int,
                r,
                x,
                #[trigger] at(y@, sy as int, r, x),
                at(u@, su as int, r / 2, x / 2),
                at(v@, sv as int, r / 2, x / 2),
            ) by {
                if r == row {
                    assert(pixel_made(got, yl@, ul@, vl@, true, x));
                    assert(yl@[x] == at(y@, sy as int, r, x));
                    assert(ul@[x / 2] == at(u@, su as int, r / 2, x / 2));
                    assert(vl@[x / 2] == at(v@, sv as int, r / 2, x / 2));
                }
            }
        }
    }
    out
}

/// Convert planar 4:4:4 back to BGRA.
pub fn yuv444_to_bgra(src: &Yuv444) -> (out: Vec<u8>)
    requires
        src.wf(),
        src.height * (4 * src.width) <= usize::MAX,
        4 * src.width <= usize::MAX,
    ensures
        out@.len() == src.height * (4 * src.width),
        forall|row: int, x: int|
            0 <= row < src.height && 0 <= x < src.width ==> pixel_at(
                out@,
                src.width as int,
                row,
                x,
                #[trigger] at(src.y@, src.width as int, row, x),
                at(src.u@, src.width as int, row, x),
                at(src.v@, src.width as int, row, x),
            ),
{
    let w: usize = src.width;
    let h: usize = src.height;
    let mut out: Vec<u8> = Vec::new();
    let len: usize = src.y.len();
    proof {
        lemma_no_rows(4 * w);
    }
    for row in 0..h
        invariant
            src.wf(),
            w == src.width,
            h == src.height,
            len == src.y@.len(),
            4 * w <= usize::MAX,
            out@.len() == row * (4 * w),
            forall|r: int, x: int|
                0 <= r < row && 0 <= x < w ==> pixel_at(
                    out@,
                    w as int,
                    r,
                    x,
                    #[trigger] at(src.y@, w as int, r, x),
                    at(src.u@, w as int, r, x),
                    at(src.v@, w as int, r, x),
                ),
    {
        proof {
            lemma_cell(w as int, h as int, row as int, 0);
        }
        let start: usize = row * w;
        let yl = slice_subrange(src.y.as_slice(), start, start + w);
        let ul = slice_subrange(src.u.as_slice(), start, start + w);
        let vl = slice_subrange(src.v.as_slice(), start, start + w);
        let ghost before = out@;
        let mut line: Vec<u8> = row_bgra(yl, ul, vl, false);
        let ghost got = line@;
        out.append(&mut line);
        proof {
            lemma_append_pixels(before, got, w as int, row as int);
            assert forall|r: int, x: int| 0 <= r < row + 1 && 0 <= x < w implies pixel_at(
                out@,
                w as int,
                r,
                x,
                #[trigger] at(src.y@, w as int, r, x),
                at(src.u@, w as int, r, x),
                at(src.v@, w as int, r, x),
            ) by {
                if r == row {
                    assert(pixel_made(got, yl@, ul@, vl@, false, x));
                    assert(yl@[x] == at(src.y@, w as int, r, x));
                    assert(ul@[x] == at(src.u@, w as int, r, x));
                    assert(vl@[x] == at(src.v@, w as int, r, x));
                }
            }
        }
    }
    out
}

} // verus!

//! The split of a frame with full chroma into two 4:2:0 frames, and back.

use super::frame::{push_row, I420, Yuv444};
use super::plane::{at, lemma_cell, lemma_no_rows, lemma_planes_equal};
use vstd::prelude::*;
use vstd::slice::{slice_subrange, slice_to_vec};

verus! {

/// Whether `main` and `aux` are the two frames `src` is split into: luma and
/// the even chroma samples of even rows in `main`; in `aux` the odd chroma
/// samples of even rows as chroma, and the odd rows as luma, U above V.
pub open spec fn is_split(src: Yuv444, main: I420, aux: I420) -> bool {
    let w = src.width as int;
    let h = src.height as int;
    &&& main.wf() && aux.wf()
    &&& main.width == w && main.height == h
    &&& aux.width == w && aux.height == h
    &&& main.y@ == src.y@
    &&& forall|row: int, x: int|
        0 <= row < h / 2 && 0 <= x < w / 2 ==> #[trigger] at(main.u@, w / 2, row, x) == at(src.u@, w, 2 * row, 2 * x)
    &&& forall|row: int, x: int|
        0 <= row < h / 2 && 0 <= x < w / 2 ==> #[trigger] at(main.v@, w / 2, row, x) == at(src.v@, w, 2 * row, 2 * x)
    &&& forall|row: int, x: int|
        0 <= row < h / 2 && 0 <= x < w / 2 ==> #[trigger] at(aux.u@, w / 2, row, x) == at(
            src.u@,
            w,
            2 * row,
            2 * x + 1,
        )
    &&& forall|row: int, x: int|
        0 <= row < h / 2 && 0 <= x < w / 2 ==> #[trigger] at(aux.v@, w / 2, row, x) == at(
            src.v@,
            w,
            2 * row,
            2 * x + 1,
        )
    &&& forall|row: int, x: int|
        0 <= row < h / 2 && 0 <= x < w ==> #[trigger] at(aux.y@, w, row, x) == at(src.u@, w, 2 * row + 1, x)
    &&& forall|row: int, x: int|
        h / 2 <= row < h && 0 <= x < w ==> #[trigger] at(aux.y@, w, row, x) == at(
            src.v@,
            w,
            2 * (row - h / 2) + 1,
            x,
        )
}

/// The even and the odd samples of a line.
fn deinterleave(line: &[u8], n: usize) -> (pair: (Vec<u8>, Vec<u8>))
    requires
        2 * n <= line@.len(),
    ensures
        pair.0@.len() == n,
        pair.1@.len() == n,
        forall|x: int| 0 <= x < n ==> #[trigger] pair.0@[x] == line@[2 * x],
        forall|x: int| 0 <= x < n ==> #[trigger] pair.1@[x] == line@[2 * x + 1],
{
    let mut even: Vec<u8> = Vec::with_capacity(n);
    let mut odd: Vec<u8> = Vec::with_capacity(n);
    let len: usize = line.len();
    for x in 0..n
        invariant
            2 * n <= line@.len() == len,
            even@.len() == x,
            odd@.len() == x,
            forall|k: int| 0 <= k < x ==> #[trigger] even@[k] == line@[2 * k],
            forall|k: int| 0 <= k < x ==> #[trigger] odd@[k] == line@[2 * k + 1],
    {
        even.push(line[2 * x]);
        odd.push(line[2 * x + 1]);
    }
    (even, odd)
}

/// Row `row` of a plane of `width` columns and `height` rows.
fn line_of(plane: &Vec<u8>, width: usize, height: usize, row: usize) -> (line: Vec<u8>)
    requires
        0 < width,
        row < height,
        plane@.len() == height * width,
    ensures
        line@.len() == width,
        forall|x: int| 0 <= x < width ==> #[trigger] line@[x] == at(plane@, width as int, row as int, x),
{
    proof {
        lemma_cell(width as int, height as int, row as int, 0);
    }
    let len: usize = plane.len();
    let start: usize = row * width;
    slice_to_vec(slice_subrange(plane.as_slice(), start, start + width))
}

/// The chroma of a frame's even rows: even samples, then odd ones.
fn even_rows(plane: &Vec<u8>, width: usize, height: usize) -> (pair: (Vec<u8>, Vec<u8>))
    requires
        width > 0,
        width % 2 == 0,
        height % 2 == 0,
        plane@.len() == height * width,
    ensures
        pair.0@.len() == (height / 2) * (width / 2),
        pair.1@.len() == (height / 2) * (width / 2),
        forall|row: int, x: int|
            0 <= row < height / 2 && 0 <= x < width / 2 ==> #[trigger] at(pair.0@, (width / 2) as int, row, x) == at(
                plane@,
                width as int,
                2 * row,
                2 * x,
            ),
        forall|row: int, x: int|
            0 <= row < height / 2 && 0 <= x < width / 2 ==> #[trigger] at(pair.1@, (width / 2) as int, row, x) == at(
                plane@,
                width as int,
                2 * row,
                2 * x + 1,
            ),
{
    let cw: usize = width / 2;
    let half: usize = height / 2;
    let mut even: Vec<u8> = Vec::new();
    let mut odd: Vec<u8> = Vec::new();
    proof {
        lemma_no_rows(cw as int);
    }
    for row in 0..half
        invariant
            width > 0,
            width % 2 == 0,
            height % 2 == 0,
            cw == width / 2,
            half == height / 2,
            plane@.len() == height * width,
            even@.len() == row * cw,
            odd@.len() == row * cw,
            forall|r: int, x: int|
                0 <= r < row && 0 <= x < cw ==> #[trigger] at(even@, cw as int, r, x) == at(
                    plane@,
                    width as int,
                    2 * r,
                    2 * x,
                ),
            forall|r: int, x: int|
                0 <= r < row && 0 <= x < cw ==> #[trigger] at(odd@, cw as int, r, x) == at(
                    plane@,
                    width as int,
                    2 * r,
                    2 * x + 1,
                ),
    {
        let line: Vec<u8> = line_of(plane, width, height, 2 * row);
        let (e, o) = deinterleave(line.as_slice(), cw);
        push_row(&mut even, e, Ghost(cw as int), Ghost(row as int));
        push_row(&mut odd, o, Ghost(cw as int), Ghost(row as int));
    }
    (even, odd)
}

/// Append the odd rows of a plane to `out`, which holds `rows` rows.
fn push_odd_rows(out: &mut Vec<u8>, plane: &Vec<u8>, width: usize, height: usize, Ghost(rows): Ghost<int>)
    requires
        width > 0,
        height % 2 == 0,
        plane@.len() == height * width,
        0 <= rows,
        old(out)@.len() == rows * width,
    ensures
        final(out)@.len() == (rows + height / 2) * width,
        forall|row: int, x: int|
            0 <= row < rows && 0 <= x < width ==> #[trigger] at(final(out)@, width as int, row, x) == at(
                old(out)@,
                width as int,
                row,
                x,
            ),
        forall|row: int, x: int|
            rows <= row < rows + height / 2 && 0 <= x < width ==> #[trigger] at(final(out)@, width as int, row, x)
                == at(plane@, width as int, 2 * (row - rows) + 1, x),
{
    let half: usize = height / 2;
    for r in 0..half
        invariant
            width > 0,
            height % 2 == 0,
            half == height / 2,
            plane@.len() == height * width,
            0 <= rows,
            out@.len() == (rows + r) * width,
            forall|row: int, x: int|
                0 <= row < rows && 0 <= x < width ==> #[trigger] at(out@, width as int, row, x) == at(
                    old(out)@,
                    width as int,
                    row,
                    x,
                ),
            forall|row: int, x: int|
                rows <= row < rows + r && 0 <= x < width ==> #[trigger] at(out@, width as int, row, x) == at(
                    plane@,
                    width as int,
                    2 * (row - rows) + 1,
                    x,
                ),
    {
        let line: Vec<u8> = line_of(plane, width, height, 2 * r + 1);
        push_row(out, line, Ghost(width as int), Ghost(rows + r));
    }
}

/// Split 4:4:4 into the main and auxiliary I420 frames of AVC444.
pub fn split_yuv444(src: &Yuv444) -> (pair: (I420, I420))
    requires
        src.wf(),
        src.width % 2 == 0,
        src.height % 2 == 0,
    ensures
        is_split(*src, pair.0, pair.1),
{
    let w: usize = src.width;
    let h: usize = src.height;
    let (main_u, aux_u) = even_rows(&src.u, w, h);
    let (main_v, aux_v) = even_rows(&src.v, w, h);
    // Odd rows: U in the top half of aux luma, V in the bottom half.
    let mut aux_y: Vec<u8> = Vec::new();
    proof {
        lemma_no_rows(w as int);
    }
    push_odd_rows(&mut aux_y, &src.u, w, h, Ghost(0));
    push_odd_rows(&mut aux_y, &src.v, w, h, Ghost((h / 2) as int));
    let main = I420 { width: w, height: h, y: slice_to_vec(src.y.as_slice()), u: main_u, v: main_v };
    let aux = I420 { width: w, height: h, y: aux_y, u: aux_u, v: aux_v };
    (main, aux)
}

/// Whether `out` is what the two frames of a split recombine to.
pub open spec fn is_recombined(main: I420, aux: I420, out: Yuv444) -> bool {
    let w = main.width as int;
    let h = main.height as int;
    &&& out.wf()
    &&& out.width == w && out.height == h
    &&& out.y@ == main.y@
    &&& forall|row: int, x: int|
        0 <= row < h && 0 <= x < w ==> #[trigger] at(out.u@, w, row, x) == (if row % 2 == 1 {
            at(aux.y@, w, row / 2, x)
        } else if x % 2 == 0 {
            at(main.u@, w / 2, row / 2, x / 2)
        } else {
            at(aux.u@, w / 2, row / 2, x / 2)
        })
    &&& forall|row: int, x: int|
        0 <= row < h && 0 <= x < w ==> #[trigger] at(out.v@, w, row, x) == (if row % 2 == 1 {
            at(aux.y@, w, h / 2 + row / 2, x)
        } else if x % 2 == 0 {
            at(main.v@, w / 2, row / 2, x / 2)
        } else {
            at(aux.v@, w / 2, row / 2, x / 2)
        })
}

/// Two lines in turns: even samples from one, odd ones from the other.
fn interleave(even: &Vec<u8>, odd: &Vec<u8>) -> (line: Vec<u8>)
    requires
        even@.len() == odd@.len(),
        2 * even@.len() <= usize::MAX,
    ensures
        line@.len() == 2 * even@.len(),
        forall|x: int|
            0 <= x < line@.len() ==> #[trigger] line@[x] == (if x % 2 == 0 {
                even@[x / 2]
            } else {
                odd@[x / 2]
            }),
{
    let mut line: Vec<u8> = Vec::with_capacity(2 * even.len());
    for i in 0..even.len()
        invariant
            even@.len() == odd@.len(),
            line@.len() == 2 * i,
            forall|x: int|
                0 <= x < line@.len() ==> #[trigger] line@[x] == (if x % 2 == 0 {
                    even@[x / 2]
                } else {
                    odd@[x / 2]
                }),
    {
        line.push(even[i]);
        line.push(odd[i]);
    }
    line
}

/// A chroma plane back from its even and odd samples and its odd rows, which
/// start at row `first` of `rows`.
fn merge(even: &Vec<u8>, odd: &Vec<u8>, rows: &Vec<u8>, first: usize, width: usize, height: usize) -> (plane: Vec<
    u8,
>)
    requires
        width > 0,
        width % 2 == 0,
        height % 2 == 0,
        even@.len() == (height / 2) * (width / 2),
        odd@.len() == (height / 2) * (width / 2),
        rows@.len() == height * width,
        first + height / 2 <= height,
    ensures
        plane@.len() == height * width,
        forall|row: int, x: int|
            0 <= row < height && 0 <= x < width ==> #[trigger] at(plane@, width as int, row, x) == (if row % 2 == 1 {
                at(rows@, width as int, first + row / 2, x)
            } else if x % 2 == 0 {
                at(even@, (width / 2) as int, row / 2, x / 2)
            } else {
                at(odd@, (width / 2) as int, row / 2, x / 2)
            }),
{
    let cw: usize = width / 2;
    let half: usize = height / 2;
    let mut plane: Vec<u8> = Vec::new();
    proof {
        lemma_no_rows(width as int);
    }
    for row in 0..height
        invariant
            width > 0,
            width % 2 == 0,
            height % 2 == 0,
            cw == width / 2,
            half == height / 2,
            even@.len() == half * cw,
            odd@.len() == half * cw,
            rows@.len() == height * width,
            first + half <= height,
            plane@.len() == row * width,
            forall|r: int, x: int|
                0 <= r < row && 0 <= x < width ==> #[trigger] at(plane@, width as int, r, x) == (if r % 2 == 1 {
                    at(rows@, width as int, first + r / 2, x)
                } else if x % 2 == 0 {
                    at(even@, cw as int, r / 2, x / 2)
                } else {
                    at(odd@, cw as int, r / 2, x / 2)
                }),
    {
        let line: Vec<u8> = if row % 2 == 1 {
            line_of(rows, width, height, first + row / 2)
        } else {
            let e: Vec<u8> = line_of(even, cw, half, row / 2);
            let o: Vec<u8> = line_of(odd, cw, half, row / 2);
            interleave(&e, &o)
        };
        push_row(&mut plane, line, Ghost(width as int), Ghost(row as int));
    }
    plane
}

/// Put the main and auxiliary frames of a split back together.
pub fn recombine_yuv444(main: &I420, aux: &I420) -> (out: Yuv444)
    requires
        main.wf(),
        aux.wf(),
        aux.width == main.width,
        aux.height == main.height,
    ensures
        is_recombined(*main, *aux, out),
{
    let w: usize = main.width;
    let h: usize = main.height;
    let u: Vec<u8> = merge(&main.u, &aux.u, &aux.y, 0, w, h);
    let v: Vec<u8> = merge(&main.v, &aux.v, &aux.y, h / 2, w, h);
    Yuv444 { width: w, height: h, y: slice_to_vec(main.y.as_slice()), u, v }
}

/// The split loses nothing: recombined, its two frames are the frame.
pub proof fn law_split_recombines(src: Yuv444, main: I420, aux: I420, out: Yuv444)
    requires
        src.wf(),
        src.width % 2 == 0,
        src.height % 2 == 0,
        is_split(src, main, aux),
        is_recombined(main, aux, out),
    ensures
        out.width == src.width,
        out.height == src.height,
        out.y@ == src.y@,
        out.u@ == src.u@,
        out.v@ == src.v@,
{
    let w = src.width as int;
    let h = src.height as int;
    assert forall|row: int, x: int| 0 <= row < h && 0 <= x < w implies #[trigger] at(out.u@, w, row, x) == at(
        src.u@,
        w,
        row,
        x,
    ) by {
        if row % 2 == 1 {
            assert(at(aux.y@, w, row / 2, x) == at(src.u@, w, 2 * (row / 2) + 1, x));
        } else if x % 2 == 0 {
            assert(at(main.u@, w / 2, row / 2, x / 2) == at(src.u@, w, 2 * (row / 2), 2 * (x / 2)));
        } else {
            assert(at(aux.u@, w / 2, row / 2, x / 2) == at(src.u@, w, 2 * (row / 2), 2 * (x / 2) + 1));
        }
    }
    assert forall|row: int, x: int| 0 <= row < h && 0 <= x < w implies #[trigger] at(out.v@, w, row, x) == at(
        src.v@,
        w,
        row,
        x,
    ) by {
        if row % 2 == 1 {
            assert(at(aux.y@, w, h / 2 + row / 2, x) == at(src.v@, w, 2 * ((h / 2 + row / 2) - h / 2) + 1, x));
        } else if x % 2 == 0 {
            assert(at(main.v@, w / 2, row / 2, x / 2) == at(src.v@, w, 2 * (row / 2), 2 * (x / 2)));
        } else {
            assert(at(aux.v@, w / 2, row / 2, x / 2) == at(src.v@, w, 2 * (row / 2), 2 * (x / 2) + 1));
        }
    }
    lemma_planes_equal(out.u@, src.u@, w, h);
    lemma_planes_equal(out.v@, src.v@, w, h);
}

/// The odd rows of both chroma planes travel whole, one after another, as the
/// luma of the second frame.
pub proof fn law_odd_rows_travel_whole(src: Yuv444, main: I420, aux: I420, row: int)
    requires
        src.wf(),
        is_split(src, main, aux),
        0 <= row < src.height / 2,
    ensures
        ({
            let w = src.width as int;
            let (k, o) = (row * w, (2 * row + 1) * w);
            let half = (src.height / 2) * w;
            &&& aux.y@.subrange(k, k + w) == src.u@.subrange(o, o + w)
            &&& aux.y@.subrange(half + k, half + k + w) == src.v@.subrange(o, o + w)
        }),
{
    let w = src.width as int;
    let h = src.height as int;
    let (k, o) = (row * w, (2 * row + 1) * w);
    let half = (h / 2) * w;
    lemma_cell(w, h, row, 0);
    lemma_cell(w, h, 2 * row + 1, 0);
    lemma_cell(w, h, h / 2 + row, 0);
    assert((h / 2 + row) * w == half + k) by (nonlinear_arith)
        requires
            half == (h / 2) * w,
            k == row * w,
    ;
    let (us, vs) = (aux.y@.subrange(k, k + w), aux.y@.subrange(half + k, half + k + w));
    assert forall|x: int| 0 <= x < w implies us[x] == src.u@.subrange(o, o + w)[x] && #[trigger] vs[x]
        == src.v@.subrange(o, o + w)[x] by {
        assert(at(aux.y@, w, row, x) == at(src.u@, w, 2 * row + 1, x));
        assert(at(aux.y@, w, h / 2 + row, x) == at(src.v@, w, 2 * row + 1, x));
    }
    assert forall|x: int| 0 <= x < w implies #[trigger] us[x] == src.u@.subrange(o, o + w)[x] by {
        assert(at(aux.y@, w, row, x) == at(src.u@, w, 2 * row + 1, x));
    }
    assert(aux.y@.subrange(k, k + w) =~= src.u@.subrange(o, o + w));
    assert(aux.y@.subrange(half + k, half + k + w) =~= src.v@.subrange(o, o + w));
}

} // verus!

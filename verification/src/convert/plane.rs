//! Planes stored row by row.

use vstd::prelude::*;

verus! {

/// The sample at column `x` of row `row` in a plane of `width` columns.
pub open spec fn at(plane: Seq<u8>, width: int, row: int, x: int) -> u8 {
    plane[row * width + x]
}

/// A cell of the first `rows` rows stands before their end.
pub proof fn lemma_cell(width: int, rows: int, row: int, x: int)
    requires
        0 <= row < rows,
        0 <= x < width,
    ensures
        0 <= row * width + x < rows * width,
        row * width + width <= rows * width,
{
    assert(row * width + width <= rows * width) by (nonlinear_arith)
        requires
            0 <= row < rows,
            0 <= width,
    ;
    assert(0 <= row * width) by (nonlinear_arith)
        requires
            0 <= row,
            0 <= width,
    ;
}

/// `rows` rows fit where `height` rows of `stride` bytes do.
pub proof fn lemma_rows_fit(stride: int, width: int, rows: int, height: int, len: int)
    requires
        0 <= rows < height,
        0 <= stride,
        0 <= width,
        (height - 1) * stride + width <= len,
    ensures
        0 <= rows * stride,
        rows * stride + width <= len,
{
    assert(rows * stride <= (height - 1) * stride) by (nonlinear_arith)
        requires
            0 <= rows <= height - 1,
            0 <= stride,
    ;
    assert(0 <= rows * stride) by (nonlinear_arith)
        requires
            0 <= rows,
            0 <= stride,
    ;
}

/// No rows have no cells.
pub proof fn lemma_no_rows(width: int)
    ensures
        0 * width == 0,
{
}

/// One more row: `n + 1` rows are `n` rows and one.
pub proof fn lemma_next_row(width: int, n: int)
    ensures
        (n + 1) * width == n * width + width,
{
    assert((n + 1) * width == n * width + width) by (nonlinear_arith);
}

/// Appending a row leaves the cells before it, and its own cells follow.
pub proof fn lemma_append_row(plane: Seq<u8>, line: Seq<u8>, width: int, rows: int)
    requires
        0 <= rows,
        0 < width,
        plane.len() == rows * width,
        line.len() == width,
    ensures
        (plane + line).len() == (rows + 1) * width,
        forall|row: int, x: int|
            0 <= row < rows && 0 <= x < width ==> #[trigger] at(plane + line, width, row, x) == at(
                plane,
                width,
                row,
                x,
            ),
        forall|x: int| 0 <= x < width ==> #[trigger] at(plane + line, width, rows, x) == line[x],
{
    lemma_next_row(width, rows);
    assert forall|row: int, x: int| 0 <= row < rows && 0 <= x < width implies #[trigger] at(
        plane + line,
        width,
        row,
        x,
    ) == at(plane, width, row, x) by {
        lemma_cell(width, rows, row, x);
    }
}

/// Two planes of the same size with the same cells are the same.
pub proof fn lemma_planes_equal(a: Seq<u8>, b: Seq<u8>, width: int, height: int)
    requires
        0 < width,
        0 <= height,
        a.len() == height * width,
        b.len() == height * width,
        forall|row: int, x: int|
            0 <= row < height && 0 <= x < width ==> #[trigger] at(a, width, row, x) == at(b, width, row, x),
    ensures
        a == b,
{
    assert forall|i: int| 0 <= i < a.len() implies a[i] == b[i] by {
        let row = i / width;
        let x = i % width;
        vstd::arithmetic::div_mod::lemma_fundamental_div_mod(i, width);
        vstd::arithmetic::div_mod::lemma_mod_bound(i, width);
        assert(width * row == row * width) by (nonlinear_arith);
        assert(0 <= row < height) by (nonlinear_arith)
            requires
                0 <= i < height * width,
                i == row * width + x,
                0 <= x < width,
                0 < width,
        ;
        assert(at(a, width, row, x) == at(b, width, row, x));
    }
    assert(a =~= b);
}

} // verus!

//! Bands of quads between consecutive rings of vertices. A band of `rows`
//! quad rows joins `rows + 1` rings of `cols` vertices each; the rings are
//! numbered one after another from vertex `first`. Each quad is split into
//! two triangles; a quad's last column wraps round to the ring's first
//! vertex. The vase and the outer part of the disc are such bands.

use vstd::prelude::*;
use vstd::arithmetic::div_mod::{lemma_fundamental_div_mod, lemma_mod_pos_bound, lemma_div_pos_is_pos};
use crate::topology::{tri, has_edge, buffer_has_edge, distinct3, push_triangle};
use crate::wrap::lemma_wrap_next;

verus! {

/// Vertex number of column `col` of ring `row`, rings of `cols` vertices
/// being numbered one after another from vertex `first`.
pub open spec fn band_vertex(first: int, cols: int, row: int, col: int) -> int {
    first + row * cols + col
}

/// The two triangles of the quad that spans columns `col` and `col + 1`
/// (wrapping round) from ring `row` to ring `row + 1`. With `a`, `b` on
/// ring `row` and `c`, `d` above them on ring `row + 1`, they are
/// `(a, c, b)` and `(b, c, d)`.
pub open spec fn band_quad(first: int, cols: int, row: int, col: int) -> ((int, int, int), (int, int, int)) {
    let next = (col + 1) % cols;
    let a = band_vertex(first, cols, row, col);
    let b = band_vertex(first, cols, row, next);
    let c = band_vertex(first, cols, row + 1, col);
    let d = band_vertex(first, cols, row + 1, next);
    ((a, c, b), (b, c, d))
}

/// Triangle number of the first triangle of quad (`row`, `col`) in a band
/// whose triangles start at triangle `start`: quads come row by row, each
/// row column by column, two triangles each.
pub open spec fn band_tri(start: int, cols: int, row: int, col: int) -> int {
    start + 2 * (row * cols + col)
}

/// Two consecutive triangles of an index buffer, from triangle `t` on.
pub open spec fn quad(idx: Seq<u16>, t: int) -> ((int, int, int), (int, int, int)) {
    (tri(idx, t), tri(idx, t + 1))
}

/// From triangle `start` on, `idx` holds a band of `rows` rows of `cols`
/// quads over vertices numbered from `first`.
pub open spec fn is_band(idx: Seq<u16>, start: int, first: int, rows: int, cols: int) -> bool {
    forall|row: int, col: int|
        0 <= row < rows && 0 <= col < cols ==> #[trigger] quad(idx, band_tri(start, cols, row, col))
            == band_quad(first, cols, row, col)
}

/// Quad (`r`, `c`) comes before quad (`row`, `col`) when it lies in an
/// earlier row, or earlier in the same row.
pub proof fn lemma_cell_order(r: int, c: int, row: int, col: int, cols: int)
    requires
        0 <= r <= row,
        0 <= c < cols,
        0 <= col,
        r < row || c < col,
    ensures
        r * cols + c < row * cols + col,
{
    if r < row {
        assert(r * cols + c < row * cols + col) by (nonlinear_arith)
            requires
                0 <= r < row,
                0 <= c < cols,
                0 <= col,
        ;
    }
}

/// Splits a triangle number of a band into its quad and its place (first
/// or second triangle) in that quad.
pub proof fn lemma_band_cell(start: int, rows: int, cols: int, t: int) -> (cell: (int, int, int))
    requires
        rows >= 0,
        cols >= 0,
        start <= t < start + 2 * (rows * cols),
    ensures
        0 <= cell.0 < rows,
        0 <= cell.1 < cols,
        0 <= cell.2 < 2,
        t == band_tri(start, cols, cell.0, cell.1) + cell.2,
{
    let q = (t - start) / 2;
    let p = (t - start) % 2;
    assert(q * 2 + p == t - start && 0 <= p < 2);
    assert(0 <= q < rows * cols);
    let point = lemma_band_point(0, cols, rows, q);
    (point.0, point.1, p)
}

/// Every vertex number of `rings` rings of `cols` vertices, numbered from
/// `first`, is a column of one of those rings.
pub proof fn lemma_band_point(first: int, cols: int, rings: int, k: int) -> (point: (int, int))
    requires
        rings >= 0,
        cols >= 0,
        first <= k < first + rings * cols,
    ensures
        0 <= point.0 < rings,
        0 <= point.1 < cols,
        k == band_vertex(first, cols, point.0, point.1),
{
    let q = k - first;
    assert(cols > 0) by (nonlinear_arith)
        requires
            0 <= q < rings * cols,
            rings >= 0,
            cols >= 0,
    ;
    lemma_fundamental_div_mod(q, cols);
    lemma_mod_pos_bound(q, cols);
    lemma_div_pos_is_pos(q, cols);
    let row = q / cols;
    let col = q % cols;
    assert(row < rings) by (nonlinear_arith)
        requires
            q == cols * row + col,
            q < rings * cols,
            0 <= col,
            cols > 0,
    ;
    assert(q == row * cols + col) by (nonlinear_arith)
        requires
            q == cols * row + col,
    ;
    (row, col)
}

/// With at least two columns, no triangle of a band quad repeats a vertex.
pub proof fn lemma_band_quad_distinct(first: int, cols: int, row: int, col: int)
    requires
        cols >= 2,
        0 <= col < cols,
    ensures
        distinct3(band_quad(first, cols, row, col).0),
        distinct3(band_quad(first, cols, row, col).1),
{
    lemma_wrap_next(col, cols);
    assert((row + 1) * cols == row * cols + cols) by (nonlinear_arith);
}

/// Each edge of a band triangle is walked the other way by another band
/// triangle, unless it runs along the first ring (from column `col + 1`
/// back to column `col`) or along the last ring (from column `col` on to
/// column `col + 1`).
pub proof fn lemma_band_edge(
    idx: Seq<u16>,
    start: int,
    first: int,
    rows: int,
    cols: int,
    t: int,
    u: int,
    v: int,
)
    requires
        is_band(idx, start, first, rows, cols),
        start >= 0,
        rows >= 0,
        cols >= 0,
        start <= t < start + 2 * (rows * cols),
        start + 2 * (rows * cols) <= idx.len() / 3,
        has_edge(tri(idx, t), u, v),
    ensures
        buffer_has_edge(idx, v, u) || (first <= v < first + cols && u == first + (v - first + 1)
            % cols) || (first + rows * cols <= u < first + rows * cols + cols && v == first + rows
            * cols + (u - first - rows * cols + 1) % cols),
{
    let cell = lemma_band_cell(start, rows, cols, t);
    let row = cell.0;
    let col = cell.1;
    let prev = if col == 0 { cols - 1 } else { col - 1 };
    let next = (col + 1) % cols;
    lemma_wrap_next(col, cols);
    lemma_wrap_next(prev, cols);
    lemma_wrap_next(next, cols);
    let here = band_tri(start, cols, row, col);
    assert(quad(idx, here) == band_quad(first, cols, row, col));
    assert(band_tri(start, cols, row, col) + 1 < start + 2 * (rows * cols)) by {
        lemma_band_last(start, rows, cols, row, col);
    }
    let tr = tri(idx, t);
    let a = band_vertex(first, cols, row, col);
    let b = band_vertex(first, cols, row, next);
    let c = band_vertex(first, cols, row + 1, col);
    let d = band_vertex(first, cols, row + 1, next);
    if cell.2 == 0 {
        assert(tr == (a, c, b));
        if tr.0 == u && tr.1 == v {
            let s = band_tri(start, cols, row, prev);
            lemma_band_last(start, rows, cols, row, prev);
            assert(quad(idx, s) == band_quad(first, cols, row, prev));
            assert(has_edge(tri(idx, s + 1), v, u));
        } else if tr.1 == u && tr.2 == v {
            assert(has_edge(tri(idx, here + 1), v, u));
        } else {
            if row > 0 {
                let s = band_tri(start, cols, row - 1, col);
                assert(band_vertex(first, cols, row - 1 + 1, col) == a);
                assert(band_vertex(first, cols, row - 1 + 1, next) == b);
                lemma_band_last(start, rows, cols, row - 1, col);
                assert(quad(idx, s) == band_quad(first, cols, row - 1, col));
                assert(has_edge(tri(idx, s + 1), v, u));
            } else {
                assert(row * cols == 0) by (nonlinear_arith)
                    requires
                        row == 0,
                ;
                assert(u == b && v == a);
            }
        }
    } else {
        assert(tr == (b, c, d));
        if tr.0 == u && tr.1 == v {
            assert(has_edge(tri(idx, here), v, u));
        } else if tr.1 == u && tr.2 == v {
            if row + 1 < rows {
                let s = band_tri(start, cols, row + 1, col);
                assert(band_vertex(first, cols, row + 1, col) == c);
                lemma_band_last(start, rows, cols, row + 1, col);
                assert(quad(idx, s) == band_quad(first, cols, row + 1, col));
                assert(has_edge(tri(idx, s), v, u));
            } else {
                assert((row + 1) * cols == rows * cols) by (nonlinear_arith)
                    requires
                        row + 1 == rows,
                ;
                assert(u == c && v == d);
            }
        } else {
            let s = band_tri(start, cols, row, next);
            lemma_band_last(start, rows, cols, row, next);
            assert(quad(idx, s) == band_quad(first, cols, row, next));
            assert(has_edge(tri(idx, s), v, u));
        }
    }
}

/// The second triangle of any quad of the band lies inside the band.
proof fn lemma_band_last(start: int, rows: int, cols: int, row: int, col: int)
    requires
        0 <= row < rows,
        0 <= col < cols,
    ensures
        start <= band_tri(start, cols, row, col),
        band_tri(start, cols, row, col) + 1 < start + 2 * (rows * cols),
{
    assert(0 <= row * cols + col < rows * cols) by (nonlinear_arith)
        requires
            0 <= row < rows,
            0 <= col < cols,
    ;
}

/// Appends a band of `rows` rows of `cols` quads over vertices numbered
/// from `first` to an index buffer that holds whole triangles.
pub fn push_band(idx: &mut Vec<u16>, first: u32, rows: u32, cols: u32)
    requires
        old(idx)@.len() % 3 == 0,
        first + (rows + 1) * cols <= 65536,
    ensures
        final(idx)@.len() == old(idx)@.len() + 6 * (rows * cols),
        forall|k: int| 0 <= k < old(idx)@.len() ==> #[trigger] final(idx)@[k] == old(idx)@[k],
        is_band(final(idx)@, old(idx)@.len() as int / 3, first as int, rows as int, cols as int),
        forall|k: int|
            old(idx)@.len() <= k < final(idx)@.len() ==> #[trigger] final(idx)@[k] < first + (rows + 1)
                * cols,
{
    let ghost orig = idx@;
    let ghost start: int = orig.len() as int / 3;
    let ghost bound = first + (rows + 1) * cols;
    let mut row: u32 = 0;
    while row < rows
        invariant
            row <= rows,
            orig.len() % 3 == 0,
            start == orig.len() / 3,
            bound == first + (rows + 1) * cols,
            bound <= 65536,
            idx@.len() == orig.len() + 6 * (row * cols),
            forall|k: int| 0 <= k < orig.len() ==> #[trigger] idx@[k] == orig[k],
            forall|r: int, c: int|
                0 <= r < row && 0 <= c < cols ==> #[trigger] quad(idx@, band_tri(start, cols as int, r, c))
                    == band_quad(first as int, cols as int, r, c),
            forall|k: int| orig.len() <= k < idx@.len() ==> #[trigger] idx@[k] < bound,
        decreases rows - row,
    {
        let mut col: u32 = 0;
        while col < cols
            invariant
                row < rows,
                col <= cols,
                orig.len() % 3 == 0,
                start == orig.len() / 3,
                bound == first + (rows + 1) * cols,
                bound <= 65536,
                idx@.len() == orig.len() + 6 * (row * cols + col),
                forall|k: int| 0 <= k < orig.len() ==> #[trigger] idx@[k] == orig[k],
                forall|r: int, c: int|
                    0 <= r <= row && 0 <= c < cols && (r < row || c < col) ==> #[trigger] quad(
                        idx@,
                        band_tri(start, cols as int, r, c),
                    ) == band_quad(first as int, cols as int, r, c),
                forall|k: int| orig.len() <= k < idx@.len() ==> #[trigger] idx@[k] < bound,
            decreases cols - col,
        {
            proof {
                lemma_wrap_next(col as int, cols as int);
                assert(first + (row + 2) * cols <= bound && (row + 2) * cols == (row + 1) * cols + cols
                    && (row + 1) * cols == row * cols + cols) by (nonlinear_arith)
                    requires
                        row < rows,
                        bound == first + (rows + 1) * cols,
                ;
            }
            let next = (col + 1) % cols;
            let lower = first + row * cols;
            let upper = lower + cols;
            let a = lower + col;
            let b = lower + next;
            let c = upper + col;
            let d = upper + next;
            let ghost before = idx@;
            push_triangle(idx, a as u16, c as u16, b as u16);
            let ghost mid = idx@;
            push_triangle(idx, b as u16, c as u16, d as u16);
            proof {
                let here = band_tri(start, cols as int, row as int, col as int);
                assert(before.len() / 3 == here);
                assert(quad(idx@, here) == band_quad(first as int, cols as int, row as int, col as int));
                assert forall|r: int, c: int|
                    0 <= r <= row && 0 <= c < cols && (r < row || c < col + 1) implies #[trigger] quad(
                        idx@,
                        band_tri(start, cols as int, r, c),
                    ) == band_quad(first as int, cols as int, r, c) by {
                    if r < row || c < col {
                        lemma_cell_order(r, c, row as int, col as int, cols as int);
                        let s = band_tri(start, cols as int, r, c);
                        assert(quad(before, s) == band_quad(first as int, cols as int, r, c));
                        assert(tri(mid, s) == tri(before, s));
                        assert(tri(mid, s + 1) == tri(before, s + 1));
                        assert(tri(idx@, s) == tri(mid, s));
                        assert(tri(idx@, s + 1) == tri(mid, s + 1));
                    }
                }
                assert forall|k: int| orig.len() <= k < idx@.len() implies #[trigger] idx@[k] < bound by {
                    if k < before.len() {
                        assert(idx@[k] == before[k]);
                    }
                }
            }
            col = col + 1;
        }
        proof {
            assert(row * cols + cols == (row + 1) * cols) by (nonlinear_arith);
        }
        row = row + 1;
    }
}

} // verus!

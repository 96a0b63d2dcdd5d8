use crate::grid::{extent, lemma_coord_in_rect, GridView};
use vstd::arithmetic::div_mod::{lemma_fundamental_div_mod, lemma_fundamental_div_mod_converse};
use vstd::prelude::*;

verus! {

/// Row-major order: after the cell at position `k`, a walk visits the next
/// cell of the same row, or, at the end of a row, the first cell of the next
/// row.
pub proof fn lemma_row_major_step(v: GridView, k: int)
    requires
        0 <= k,
        k + 1 < v.total(),
    ensures
        v.coord(k).1 + 1 < v.x_end ==> v.coord(k + 1) == (v.coord(k).0, v.coord(k).1 + 1),
        v.coord(k).1 + 1 == v.x_end ==> v.coord(k + 1) == (v.coord(k).0 + 1, v.x_start),
{
    lemma_coord_in_rect(v, k);
    lemma_coord_in_rect(v, k + 1);
    let w = v.width();
    let q = k / w;
    let r = k % w;
    lemma_fundamental_div_mod(k, w);
    assert(k == q * w + r) by (nonlinear_arith)
        requires
            k == w * q + r,
    ;
    if r + 1 < w {
        lemma_fundamental_div_mod_converse(k + 1, w, q, r + 1);
    } else {
        assert(k + 1 == (q + 1) * w + 0) by (nonlinear_arith)
            requires
                k == q * w + r,
                r + 1 == w,
        ;
        lemma_fundamental_div_mod_converse(k + 1, w, q + 1, 0);
    }
}

/// Every cell of the rectangle has a position in the row-by-row numbering:
/// the cell `(y, x)` sits at `(y - y_start) * width + (x - x_start)`.
pub proof fn lemma_cell_position(v: GridView, y: int, x: int)
    requires
        v.y_start <= y < v.y_end,
        v.x_start <= x < v.x_end,
    ensures
        0 <= (y - v.y_start) * v.width() + (x - v.x_start) < v.total(),
        v.coord((y - v.y_start) * v.width() + (x - v.x_start)) == (y, x),
{
    let w = v.width();
    let h = v.height();
    let q = y - v.y_start;
    let r = x - v.x_start;
    let k = q * w + r;
    assert(0 <= k < h * w) by (nonlinear_arith)
        requires
            0 <= q < h,
            0 <= r < w,
            k == q * w + r,
    ;
    lemma_fundamental_div_mod_converse(k, w, q, r);
}

/// Distinct positions of the numbering name distinct cells: a walk visits
/// no cell twice.
pub proof fn lemma_coord_injective(v: GridView, j: int, k: int)
    requires
        0 <= j < v.total(),
        0 <= k < v.total(),
        v.coord(j) == v.coord(k),
    ensures
        j == k,
{
    lemma_coord_in_rect(v, j);
    let w = v.width();
    lemma_fundamental_div_mod(j, w);
    lemma_fundamental_div_mod(k, w);
}

/// Rewinding a walk gives the walk that a fresh construction over the same
/// rectangle gives.
pub proof fn lemma_restart_is_fresh(v: GridView)
    ensures
        v.restarted() == GridView::fresh(v.y_start, v.y_end, v.x_start, v.x_end),
{
}

/// A fresh walk visits every cell of its rectangle: as many cells as the
/// rectangle holds, each of them in the rectangle.
pub proof fn lemma_fresh_covers_rect(y_start: int, y_end: int, x_start: int, x_end: int)
    ensures
        ({
            let v = GridView::fresh(y_start, y_end, x_start, x_end);
            &&& v.remaining().len() == extent(y_start, y_end) * extent(x_start, x_end)
            &&& forall|i: int|
                0 <= i < v.remaining().len() ==> {
                    &&& y_start <= (#[trigger] v.remaining()[i]).0 < y_end
                    &&& x_start <= v.remaining()[i].1 < x_end
                }
        }),
{
    let v = GridView::fresh(y_start, y_end, x_start, x_end);
    assert(v.total() >= 0) by (nonlinear_arith)
        requires
            v.total() == v.height() * v.width(),
            v.height() >= 0,
            v.width() >= 0,
    ;
    assert forall|i: int| 0 <= i < v.remaining().len() implies {
        &&& y_start <= (#[trigger] v.remaining()[i]).0 < y_end
        &&& x_start <= v.remaining()[i].1 < x_end
    } by {
        lemma_coord_in_rect(v, i);
    }
}

} // verus!

//! Vertices of a rectangular grid, numbered row by row.

use vstd::prelude::*;

verus! {

pub open spec fn col(i: int, w: int) -> int {
    i % w
}

pub open spec fn row(i: int, w: int) -> int {
    i / w
}

/// The vertex in column `x` of row `y`.
pub open spec fn at(x: int, y: int, w: int) -> int {
    y * w + x
}

/// Whether vertex `i` lies on the edge of a grid of `w` columns and `ht` rows.
pub open spec fn on_border(i: int, w: int, ht: int) -> bool {
    col(i, w) == 0 || row(i, w) == 0 || col(i, w) == w - 1 || row(i, w) == ht - 1
}

/// The eight directions in reading order: columns.
pub open spec fn step_x(k: int) -> int {
    if k == 0 || k == 3 || k == 5 {
        -1
    } else if k == 1 || k == 6 {
        0
    } else {
        1
    }
}

/// The eight directions in reading order: rows.
pub open spec fn step_y(k: int) -> int {
    if k < 3 {
        -1
    } else if k < 5 {
        0
    } else {
        1
    }
}

/// The vertex next to `i` in direction `k`, if the grid has it.
pub open spec fn neighbour(i: int, k: int, w: int, ht: int) -> Option<int> {
    let x = col(i, w) + step_x(k);
    let y = row(i, w) + step_y(k);
    if 0 <= x < w && 0 <= y < ht {
        Some(at(x, y, w))
    } else {
        None
    }
}

/// Whether `j` is one of the up to eight vertices next to `i`.
pub open spec fn adjacent(i: int, j: int, w: int, ht: int) -> bool {
    exists|k: int| 0 <= k < 8 && #[trigger] neighbour(i, k, w, ht) == Some(j)
}

pub proof fn lemma_at(x: int, y: int, w: int, ht: int)
    requires
        0 <= x < w,
        0 <= y < ht,
    ensures
        0 <= at(x, y, w) < w * ht,
        col(at(x, y, w), w) == x,
        row(at(x, y, w), w) == y,
{
    assert(0 <= y * w) by (nonlinear_arith)
        requires
            0 <= y,
            0 < w,
    ;
    assert(y * w + x < w * ht) by (nonlinear_arith)
        requires
            0 <= x < w,
            0 <= y < ht,
    ;
    vstd::arithmetic::div_mod::lemma_fundamental_div_mod_converse(at(x, y, w), w, y, x);
}

pub proof fn lemma_col_row(i: int, w: int, ht: int)
    requires
        0 <= i < w * ht,
        0 <= w,
        0 <= ht,
    ensures
        0 < w,
        0 < ht,
        0 <= col(i, w) < w,
        0 <= row(i, w) < ht,
        i == at(col(i, w), row(i, w), w),
{
    assert(0 < w && 0 < ht) by (nonlinear_arith)
        requires
            0 < w * ht,
            0 <= w,
            0 <= ht,
    ;
    vstd::arithmetic::div_mod::lemma_fundamental_div_mod(i, w);
    assert(w * (i / w) == (i / w) * w) by (nonlinear_arith);
    assert(0 <= i % w < w);
    assert(i / w >= 0) by (nonlinear_arith)
        requires
            i == w * (i / w) + i % w,
            0 <= i,
            i % w < w,
            0 < w,
    ;
    assert(i / w < ht) by (nonlinear_arith)
        requires
            i == w * (i / w) + i % w,
            i < w * ht,
            0 <= i % w,
            0 < w,
    ;
}

/// A step in direction `k` leads to another vertex of the grid.
pub proof fn lemma_neighbour(i: int, k: int, w: int, ht: int)
    requires
        0 <= i < w * ht,
        0 <= w,
        0 <= ht,
        0 <= k < 8,
        neighbour(i, k, w, ht) is Some,
    ensures
        ({
            let j = neighbour(i, k, w, ht)->0;
            &&& 0 <= j < w * ht
            &&& j != i
            &&& col(j, w) == col(i, w) + step_x(k)
            &&& row(j, w) == row(i, w) + step_y(k)
            &&& neighbour(j, 7 - k, w, ht) == Some(i)
        }),
{
    lemma_col_row(i, w, ht);
    let x = col(i, w) + step_x(k);
    let y = row(i, w) + step_y(k);
    lemma_at(x, y, w, ht);
}

/// Being next to each other is mutual.
pub proof fn lemma_adjacent_symmetric(i: int, j: int, w: int, ht: int)
    requires
        0 <= i < w * ht,
        0 <= w,
        0 <= ht,
        adjacent(i, j, w, ht),
    ensures
        0 <= j < w * ht,
        i != j,
        adjacent(j, i, w, ht),
{
    let k = choose|k: int| 0 <= k < 8 && #[trigger] neighbour(i, k, w, ht) == Some(j);
    lemma_neighbour(i, k, w, ht);
    assert(neighbour(j, 7 - k, w, ht) == Some(i));
}

/// The directions lead to vertices in increasing order.
pub proof fn lemma_reading_order(i: int, k: int, l: int, w: int, ht: int)
    requires
        0 <= i < w * ht,
        0 <= w,
        0 <= ht,
        0 <= k < l < 8,
        neighbour(i, k, w, ht) is Some,
        neighbour(i, l, w, ht) is Some,
    ensures
        neighbour(i, k, w, ht)->0 < neighbour(i, l, w, ht)->0,
{
    lemma_col_row(i, w, ht);
    let (xk, yk) = (col(i, w) + step_x(k), row(i, w) + step_y(k));
    let (xl, yl) = (col(i, w) + step_x(l), row(i, w) + step_y(l));
    if yk < yl {
        assert(yk * w + w <= yl * w) by (nonlinear_arith)
            requires
                yk + 1 <= yl,
                0 < w,
        ;
    }
}

/// The vertex next to `i` in direction `k`, if the grid has it.
pub fn neighbour_of(i: usize, k: usize, w: usize, ht: usize) -> (j: Option<usize>)
    requires
        i < w * ht <= u32::MAX,
        k < 8,
    ensures
        j is Some <==> neighbour(i as int, k as int, w as int, ht as int) is Some,
        j matches Some(v) ==> neighbour(i as int, k as int, w as int, ht as int) == Some(v as int),
{
    proof {
        lemma_col_row(i as int, w as int, ht as int);
    }
    let (x, y): (usize, usize) = (i % w, i / w);
    let left: bool = k == 0 || k == 3 || k == 5;
    let right: bool = k == 2 || k == 4 || k == 7;
    if left && x == 0 || right && x + 1 == w || k < 3 && y == 0 || k >= 5 && y + 1 == ht {
        return None;
    }
    let nx: usize = if left {
        x - 1
    } else if right {
        x + 1
    } else {
        x
    };
    let ny: usize = if k < 3 {
        y - 1
    } else if k >= 5 {
        y + 1
    } else {
        y
    };
    proof {
        lemma_neighbour(i as int, k as int, w as int, ht as int);
        assert(0 <= ny * w) by (nonlinear_arith);
    }
    Some(ny * w + nx)
}

/// Vertices are numbered row by row, and within a row by column.
pub proof fn lemma_numbered_in_reading_order(i: int, j: int, w: int, ht: int)
    requires
        0 <= i < w * ht,
        0 <= j < w * ht,
        0 <= w,
        0 <= ht,
        row(i, w) < row(j, w) || row(i, w) == row(j, w) && col(i, w) < col(j, w),
    ensures
        i < j,
{
    lemma_col_row(i, w, ht);
    lemma_col_row(j, w, ht);
    if row(i, w) < row(j, w) {
        assert((row(i, w) + 1) * w <= row(j, w) * w) by (nonlinear_arith)
            requires
                row(i, w) < row(j, w),
                0 < w,
        ;
        assert((row(i, w) + 1) * w == row(i, w) * w + w) by (nonlinear_arith);
    }
}

/// Vertices lie next to each other exactly if they differ, by at most one column and one row.
pub proof fn lemma_adjacent_vertices(x: int, y: int, a: int, b: int, w: int, ht: int)
    requires
        0 <= x < w,
        0 <= y < ht,
        0 <= a < w,
        0 <= b < ht,
    ensures
        adjacent(at(x, y, w), at(a, b, w), w, ht) <==> (a != x || b != y) && -1 <= a - x <= 1 && -1 <= b - y <= 1,
{
    lemma_at(x, y, w, ht);
    lemma_at(a, b, w, ht);
    let (i, j) = (at(x, y, w), at(a, b, w));
    if adjacent(i, j, w, ht) {
        let k = choose|k: int| 0 <= k < 8 && #[trigger] neighbour(i, k, w, ht) == Some(j);
        lemma_at(x + step_x(k), y + step_y(k), w, ht);
    }
    if (a != x || b != y) && -1 <= a - x <= 1 && -1 <= b - y <= 1 {
        let k: int = if b < y {
            1 + (a - x)
        } else if b == y {
            if a < x {
                3
            } else {
                4
            }
        } else {
            6 + (a - x)
        };
        assert(step_x(k) == a - x && step_y(k) == b - y);
        assert(neighbour(i, k, w, ht) == Some(j));
    }
}

/// A vertex lies on the edge exactly if it is in the first or last column or row: where some direction
/// leads off the grid.
pub proof fn lemma_border_vertices(x: int, y: int, w: int, ht: int)
    requires
        0 <= x < w,
        0 <= y < ht,
    ensures
        on_border(at(x, y, w), w, ht) <==> x == 0 || y == 0 || x == w - 1 || y == ht - 1,
        on_border(at(x, y, w), w, ht) <==> exists|k: int|
            0 <= k < 8 && (#[trigger] neighbour(at(x, y, w), k, w, ht)) is None,
{
    lemma_at(x, y, w, ht);
    let i = at(x, y, w);
    if on_border(i, w, ht) {
        let k: int = if x == 0 {
            3
        } else if x == w - 1 {
            4
        } else if y == 0 {
            1
        } else {
            6
        };
        assert(neighbour(i, k, w, ht) is None);
    }
}

} // verus!

//! The water near each cell of a map.

use vstd::prelude::*;

use crate::grid;
use crate::ieee;

verus! {

/// The entry in column `x` of row `y`.
pub open spec fn cell(s: Seq<Option<u32>>, x: int, y: int, w: int) -> Option<u32> {
    s[grid::at(x, y, w)]
}

/// Whether every level is a number.
pub open spec fn numbers(s: Seq<Option<u32>>) -> bool {
    forall|i: int| 0 <= i < s.len() && (#[trigger] s[i]) is Some ==> !ieee::nan32(s[i]->0)
}

/// Whether `l` is the highest level in columns `x0..=x1` of rows `y0..=y1`.
pub open spec fn highest(
    s: Seq<Option<u32>>,
    x0: int,
    x1: int,
    y0: int,
    y1: int,
    w: int,
    l: Option<u32>,
) -> bool {
    &&& l is Some ==> exists|x: int, y: int|
        x0 <= x <= x1 && y0 <= y <= y1 && #[trigger] cell(s, x, y, w) == l
    &&& forall|x: int, y: int|
        x0 <= x <= x1 && y0 <= y <= y1 && (#[trigger] cell(s, x, y, w)) is Some ==> l is Some
            && ieee::rank32(cell(s, x, y, w)->0) <= ieee::rank32(l->0)
}

/// The lowest and the highest of `0..n` at most `r` away from `x`.
pub open spec fn first_near(x: int, r: int) -> int {
    if x < r {
        0
    } else {
        x - r
    }
}

pub open spec fn last_near(x: int, r: int, n: int) -> int {
    if x + r < n {
        x + r
    } else {
        n - 1
    }
}

/// Whether `near` holds for every cell the highest level at most `r` columns and `r` rows away.
pub open spec fn nearby(s: Seq<Option<u32>>, near: Seq<Option<u32>>, w: int, h: int, r: int) -> bool {
    forall|x: int, y: int|
        0 <= x < w && 0 <= y < h ==> highest(
            s,
            first_near(x, r),
            last_near(x, r, w),
            first_near(y, r),
            last_near(y, r, h),
            w,
            #[trigger] cell(near, x, y, w),
        )
}

fn higher(a: Option<u32>, b: Option<u32>) -> (r: Option<u32>)
    requires
        a is Some ==> !ieee::nan32(a->0),
        b is Some ==> !ieee::nan32(b->0),
    ensures
        r == a || r == b,
        a is Some ==> r is Some && ieee::rank32(a->0) <= ieee::rank32(r->0),
        b is Some ==> r is Some && ieee::rank32(b->0) <= ieee::rank32(r->0),
{
    match (a, b) {
        (Some(x), Some(y)) => if ieee::is_lt32(x, y) {
            b
        } else {
            a
        },
        (None, _) => b,
        _ => a,
    }
}

fn lowest_near(x: usize, r: usize) -> (a: usize)
    ensures
        a == first_near(x as int, r as int),
{
    if x < r {
        0
    } else {
        x - r
    }
}

fn highest_near(x: usize, r: usize, n: usize) -> (b: usize)
    requires
        x < n,
    ensures
        b == last_near(x as int, r as int, n as int),
        x <= b < n,
{
    if r < n - x {
        x + r
    } else {
        n - 1
    }
}

/// The highest level in columns `x0..=x1` of row `y`.
fn in_row(s: &Vec<Option<u32>>, w: usize, h: usize, y: usize, x0: usize, x1: usize) -> (l: Option<u32>)
    requires
        s@.len() == w * h,
        numbers(s@),
        y < h,
        x0 <= x1 < w,
    ensures
        highest(s@, x0 as int, x1 as int, y as int, y as int, w as int, l),
        l is Some ==> !ieee::nan32(l->0),
{
    let total: usize = s.len();
    let mut l: Option<u32> = None;
    let mut x: usize = x0;
    while x <= x1
        invariant
            total == s@.len() == w * h,
            numbers(s@),
            y < h,
            x0 <= x <= x1 + 1,
            x1 < w,
            highest(s@, x0 as int, x - 1, y as int, y as int, w as int, l),
            l is Some ==> !ieee::nan32(l->0),
        decreases x1 + 1 - x,
    {
        proof {
            grid::lemma_at(x as int, y as int, w as int, h as int);
            assert(0 <= y * w) by (nonlinear_arith);
        }
        let here: Option<u32> = s[y * w + x];
        assert(here == cell(s@, x as int, y as int, w as int));
        l = higher(l, here);
        x += 1;
    }
    l
}

/// The highest level in rows `y0..=y1` of column `x`.
fn in_column(s: &Vec<Option<u32>>, w: usize, h: usize, x: usize, y0: usize, y1: usize) -> (l: Option<u32>)
    requires
        s@.len() == w * h,
        numbers(s@),
        x < w,
        y0 <= y1 < h,
    ensures
        highest(s@, x as int, x as int, y0 as int, y1 as int, w as int, l),
        l is Some ==> !ieee::nan32(l->0),
{
    let total: usize = s.len();
    let mut l: Option<u32> = None;
    let mut y: usize = y0;
    while y <= y1
        invariant
            total == s@.len() == w * h,
            numbers(s@),
            x < w,
            y0 <= y <= y1 + 1,
            y1 < h,
            highest(s@, x as int, x as int, y0 as int, y - 1, w as int, l),
            l is Some ==> !ieee::nan32(l->0),
        decreases y1 + 1 - y,
    {
        proof {
            grid::lemma_at(x as int, y as int, w as int, h as int);
            assert(0 <= y * w) by (nonlinear_arith);
        }
        let here: Option<u32> = s[y * w + x];
        assert(here == cell(s@, x as int, y as int, w as int));
        l = higher(l, here);
        y += 1;
    }
    l
}

proof fn lemma_both_passes(
    s: Seq<Option<u32>>,
    rows: Seq<Option<u32>>,
    w: int,
    x: int,
    x0: int,
    x1: int,
    y0: int,
    y1: int,
    l: Option<u32>,
)
    requires
        forall|y: int|
            y0 <= y <= y1 ==> highest(s, x0, x1, y, y, w, #[trigger] cell(rows, x, y, w)),
        highest(rows, x, x, y0, y1, w, l),
    ensures
        highest(s, x0, x1, y0, y1, w, l),
{
    if l is Some {
        let (a, b) = choose|a: int, b: int|
            x <= a <= x && y0 <= b <= y1 && #[trigger] cell(rows, a, b, w) == l;
        assert(highest(s, x0, x1, b, b, w, cell(rows, x, b, w)));
    }
    assert forall|a: int, b: int|
        x0 <= a <= x1 && y0 <= b <= y1 && (#[trigger] cell(s, a, b, w)) is Some implies l is Some
        && ieee::rank32(cell(s, a, b, w)->0) <= ieee::rank32(l->0) by {
        assert(highest(s, x0, x1, b, b, w, cell(rows, x, b, w)));
    }
}

/// The highest water level at most `r` columns and `r` rows away from each cell, if there is any.
pub fn nearby_water(water: &Vec<Option<u32>>, w: usize, h: usize, r: usize) -> (near: Vec<Option<u32>>)
    requires
        water@.len() == w * h,
        numbers(water@),
    ensures
        near@.len() == water@.len(),
        numbers(near@),
        nearby(water@, near@, w as int, h as int, r as int),
{
    let total: usize = water.len();
    let rows = row_pass(water, w, h, r);
    let mut near: Vec<Option<u32>> = Vec::with_capacity(total);
    let mut y: usize = 0;
    assert(w * 0 == 0) by (nonlinear_arith);
    while y < h
        invariant
            total == water@.len() == rows@.len() == w * h,
            numbers(rows@),
            numbers(near@),
            y <= h,
            near@.len() == w * y,
            row_near(water@, rows@, w as int, h as int, r as int),
            nearby_above(water@, near@, w as int, h as int, y as int, r as int),
        decreases h - y,
    {
        let (y0, y1): (usize, usize) = (lowest_near(y, r), highest_near(y, r, h));
        let ghost above = near@;
        let mut x: usize = 0;
        while x < w
            invariant
                total == water@.len() == rows@.len() == w * h,
                numbers(rows@),
                numbers(near@),
                y < h,
                x <= w,
                near@.len() == w * y + x,
                y0 == first_near(y as int, r as int),
                y1 == last_near(y as int, r as int, h as int),
                y0 <= y <= y1 < h,
                row_near(water@, rows@, w as int, h as int, r as int),
                nearby_above(water@, near@, w as int, h as int, y as int, r as int),
                forall|a: int|
                    0 <= a < x ==> highest(
                        water@,
                        first_near(a, r as int),
                        last_near(a, r as int, w as int),
                        y0 as int,
                        y1 as int,
                        w as int,
                        #[trigger] cell(near@, a, y as int, w as int),
                    ),
            decreases w - x,
        {
            let l: Option<u32> = in_column(&rows, w, h, x, y0, y1);
            let ghost before = near@;
            near.push(l);
            proof {
                let (wi, hi, ri) = (w as int, h as int, r as int);
                assert(y * w == w * y) by (nonlinear_arith);
                assert forall|b: int| y0 <= b <= y1 implies highest(
                    water@,
                    first_near(x as int, ri),
                    last_near(x as int, ri, wi),
                    b,
                    b,
                    wi,
                    #[trigger] cell(rows@, x as int, b, wi),
                ) by {
                }
                lemma_both_passes(
                    water@,
                    rows@,
                    wi,
                    x as int,
                    first_near(x as int, ri),
                    last_near(x as int, ri, wi),
                    y0 as int,
                    y1 as int,
                    l,
                );
                assert(cell(near@, x as int, y as int, wi) == l);
                assert forall|a: int| 0 <= a < x + 1 implies highest(
                    water@,
                    first_near(a, ri),
                    last_near(a, ri, wi),
                    y0 as int,
                    y1 as int,
                    wi,
                    #[trigger] cell(near@, a, y as int, wi),
                ) by {
                    if a < x {
                        assert(cell(near@, a, y as int, wi) == cell(before, a, y as int, wi));
                    }
                }
                lemma_above_kept(water@, before, near@, wi, hi, y as int, ri);
            }
            x += 1;
        }
        proof {
            assert(w * (y + 1) == w * y + w) by (nonlinear_arith);
        }
        y += 1;
    }
    near
}

/// Whether `near` is right in the rows before `y`.
spec fn nearby_above(s: Seq<Option<u32>>, near: Seq<Option<u32>>, w: int, h: int, y: int, r: int) -> bool {
    forall|a: int, b: int|
        0 <= a < w && 0 <= b < y ==> highest(
            s,
            first_near(a, r),
            last_near(a, r, w),
            first_near(b, r),
            last_near(b, r, h),
            w,
            #[trigger] cell(near, a, b, w),
        )
}

proof fn lemma_above_kept(
    s: Seq<Option<u32>>,
    before: Seq<Option<u32>>,
    now: Seq<Option<u32>>,
    w: int,
    h: int,
    y: int,
    r: int,
)
    requires
        nearby_above(s, before, w, h, y, r),
        before.len() >= w * y,
        now == before.push(now.last()),
        now.len() > 0,
    ensures
        nearby_above(s, now, w, h, y, r),
{
    assert forall|a: int, b: int| 0 <= a < w && 0 <= b < y implies highest(
        s,
        first_near(a, r),
        last_near(a, r, w),
        first_near(b, r),
        last_near(b, r, h),
        w,
        #[trigger] cell(now, a, b, w),
    ) by {
        grid::lemma_at(a, b, w, y);
        assert(cell(now, a, b, w) == cell(before, a, b, w));
    }
}

/// Whether `rows` holds for every cell the highest level at most `r` columns away in its row.
spec fn row_near(s: Seq<Option<u32>>, rows: Seq<Option<u32>>, w: int, h: int, r: int) -> bool {
    forall|a: int, b: int|
        0 <= a < w && 0 <= b < h ==> highest(
            s,
            first_near(a, r),
            last_near(a, r, w),
            b,
            b,
            w,
            #[trigger] cell(rows, a, b, w),
        )
}

fn row_pass(water: &Vec<Option<u32>>, w: usize, h: usize, r: usize) -> (rows: Vec<Option<u32>>)
    requires
        water@.len() == w * h,
        numbers(water@),
    ensures
        rows@.len() == water@.len(),
        numbers(rows@),
        row_near(water@, rows@, w as int, h as int, r as int),
{
    let total: usize = water.len();
    let mut rows: Vec<Option<u32>> = Vec::with_capacity(total);
    let mut i: usize = 0;
    while i < total
        invariant
            total == water@.len() == w * h,
            i == rows@.len(),
            i <= total,
            numbers(water@),
            numbers(rows@),
            forall|k: int|
                0 <= k < i ==> highest(
                    water@,
                    first_near(grid::col(k, w as int), r as int),
                    last_near(grid::col(k, w as int), r as int, w as int),
                    grid::row(k, w as int),
                    grid::row(k, w as int),
                    w as int,
                    #[trigger] rows@[k],
                ),
        decreases total - i,
    {
        proof {
            grid::lemma_col_row(i as int, w as int, h as int);
        }
        let (x, y): (usize, usize) = (i % w, i / w);
        let l: Option<u32> = in_row(water, w, h, y, lowest_near(x, r), highest_near(x, r, w));
        rows.push(l);
        i += 1;
    }
    proof {
        assert forall|a: int, b: int| 0 <= a < w && 0 <= b < h implies highest(
            water@,
            first_near(a, r as int),
            last_near(a, r as int, w as int),
            b,
            b,
            w as int,
            #[trigger] cell(rows@, a, b, w as int),
        ) by {
            grid::lemma_at(a, b, w as int, h as int);
        }
    }
    rows
}

/// Water far away does not matter: where no cell within reach is wet, nothing is near.
pub proof fn lemma_dry_without_water(
    s: Seq<Option<u32>>,
    near: Seq<Option<u32>>,
    w: int,
    h: int,
    r: int,
    x: int,
    y: int,
)
    requires
        nearby(s, near, w, h, r),
        0 <= x < w,
        0 <= y < h,
        forall|a: int, b: int|
            first_near(x, r) <= a <= last_near(x, r, w) && first_near(y, r) <= b <= last_near(y, r, h)
                ==> #[trigger] cell(s, a, b, w) is None,
    ensures
        cell(near, x, y, w) is None,
{
}

/// A wet cell is near itself.
pub proof fn lemma_wet_cells_are_near_water(
    s: Seq<Option<u32>>,
    near: Seq<Option<u32>>,
    w: int,
    h: int,
    r: int,
    x: int,
    y: int,
)
    requires
        nearby(s, near, w, h, r),
        0 <= x < w,
        0 <= y < h,
        0 <= r,
        cell(s, x, y, w) is Some,
    ensures
        cell(near, x, y, w) is Some,
        ieee::rank32(cell(s, x, y, w)->0) <= ieee::rank32(cell(near, x, y, w)->0),
{
    assert(cell(near, x, y, w) == cell(near, x, y, w));
}

/// What is near along an axis is what lies in the grid and at most `r` away.
pub proof fn lemma_near_along_an_axis(x: int, a: int, r: int, n: int)
    requires
        0 <= x < n,
        0 <= r,
    ensures
        first_near(x, r) <= a <= last_near(x, r, n) <==> 0 <= a < n && -r <= a - x <= r,
{
}

/// The level near a cell is at least that of every wet cell at most `r` columns and rows away, and is
/// that of one of them; without one there is none.
pub proof fn lemma_nearest_water_is_the_highest(
    s: Seq<Option<u32>>,
    near: Seq<Option<u32>>,
    w: int,
    h: int,
    r: int,
    x: int,
    y: int,
)
    requires
        nearby(s, near, w, h, r),
        0 <= x < w,
        0 <= y < h,
        0 <= r,
    ensures
        forall|a: int, b: int|
            0 <= a < w && 0 <= b < h && -r <= a - x <= r && -r <= b - y <= r && (#[trigger] s[grid::at(a, b, w)]) is Some
                ==> near[grid::at(x, y, w)] is Some && ieee::rank32(s[grid::at(a, b, w)]->0) <= ieee::rank32(
                near[grid::at(x, y, w)]->0,
            ),
        near[grid::at(x, y, w)] is Some ==> exists|a: int, b: int|
            0 <= a < w && 0 <= b < h && -r <= a - x <= r && -r <= b - y <= r && #[trigger] s[grid::at(a, b, w)]
                == near[grid::at(x, y, w)],
{
    let l = cell(near, x, y, w);
    assert(highest(s, first_near(x, r), last_near(x, r, w), first_near(y, r), last_near(y, r, h), w, l));
    assert forall|a: int, b: int|
        0 <= a < w && 0 <= b < h && -r <= a - x <= r && -r <= b - y <= r && (#[trigger] s[grid::at(a, b, w)])
            is Some implies l is Some && ieee::rank32(s[grid::at(a, b, w)]->0) <= ieee::rank32(l->0) by {
        assert(cell(s, a, b, w) is Some);
    }
    if l is Some {
        let (a, b) = choose|a: int, b: int|
            first_near(x, r) <= a <= last_near(x, r, w) && first_near(y, r) <= b <= last_near(y, r, h) && #[trigger] cell(
                s,
                a,
                b,
                w,
            ) == l;
        assert(s[grid::at(a, b, w)] == l);
    }
}

} // verus!

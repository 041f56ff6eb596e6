//! Trees and rocks: where they stand, and which others stand nearby.

use vstd::prelude::*;

use crate::grid;
use crate::ieee;
use crate::material::MaterialId;

verus! {

/// The end of a chain.
pub const END: u32 = 0xffff_ffff;

/// `x` moved into `0..n`.
pub open spec fn clamped(x: int, n: int) -> int {
    if x < 0 {
        0
    } else if x >= n {
        n - 1
    } else {
        x
    }
}

/// Whether `l` is the last point before `n` in bucket `b`, or [`END`] if there is none.
pub open spec fn last_in(bucket: Seq<int>, n: int, b: int, l: u32) -> bool {
    if l == END {
        forall|i: int| 0 <= i < n ==> #[trigger] bucket[i] != b
    } else {
        &&& l < n
        &&& bucket[l as int] == b
        &&& forall|i: int| l < i < n ==> #[trigger] bucket[i] != b
    }
}

/// The points before `n` in bucket `b`, the newest first.
pub open spec fn chain(bucket: Seq<int>, n: int, b: int) -> Seq<u32>
    decreases n,
{
    if n <= 0 {
        Seq::empty()
    } else if bucket[n - 1] == b {
        seq![(n - 1) as u32] + chain(bucket, n - 1, b)
    } else {
        chain(bucket, n - 1, b)
    }
}

/// The points in the buckets of row `y` from column `x0` to before column `x1`, column by column.
pub open spec fn row_of(bucket: Seq<int>, w: int, y: int, x0: int, x1: int) -> Seq<u32>
    decreases x1 - x0,
{
    if x1 <= x0 {
        Seq::empty()
    } else {
        row_of(bucket, w, y, x0, x1 - 1) + chain(bucket, bucket.len() as int, grid::at(x1 - 1, y, w))
    }
}

/// The points in the buckets of such rows from row `y0` to before row `y1`, row by row.
pub open spec fn rows_of(bucket: Seq<int>, w: int, x0: int, x1: int, y0: int, y1: int) -> Seq<u32>
    decreases y1 - y0,
{
    if y1 <= y0 {
        Seq::empty()
    } else {
        rows_of(bucket, w, x0, x1, y0, y1 - 1) + row_of(bucket, w, y1 - 1, x0, x1)
    }
}

/// The points in the buckets of a `w` by `h` grid at most `k` away from bucket `(bx, by)`.
pub open spec fn window(bucket: Seq<int>, w: int, h: int, bx: int, by: int, k: int) -> Seq<u32> {
    let (x0, y0) = (if bx - k < 0 {
        0
    } else {
        bx - k
    }, if by - k < 0 {
        0
    } else {
        by - k
    });
    let (x1, y1) = (if bx + k < w - 1 {
        bx + k + 1
    } else {
        w
    }, if by + k < h - 1 {
        by + k + 1
    } else {
        h
    });
    rows_of(bucket, w, x0, x1, y0, y1)
}

proof fn lemma_chain(bucket: Seq<int>, n: int, b: int, l: u32)
    requires
        0 <= n <= bucket.len() < END,
        last_in(bucket, n, b, l),
    ensures
        chain(bucket, n, b) == if l == END {
            Seq::empty()
        } else {
            seq![l] + chain(bucket, l as int, b)
        },
    decreases n,
{
    if n > 0 {
        if l != n - 1 {
            assert(bucket[n - 1] != b);
            lemma_chain(bucket, n - 1, b, l);
        }
    }
}

/// Points chained by bucket, the newest first.
pub struct SpatialHash {
    w: usize,
    h: usize,
    head: Vec<u32>,
    next: Vec<u32>,
    bucket: Ghost<Seq<int>>,
}

impl SpatialHash {
    /// The bucket of each point.
    pub closed spec fn buckets(&self) -> Seq<int> {
        self.bucket@
    }

    pub closed spec fn width(&self) -> int {
        self.w as int
    }

    pub closed spec fn height(&self) -> int {
        self.h as int
    }

    pub closed spec fn wf(&self) -> bool {
        &&& 0 < self.w
        &&& 0 < self.h
        &&& self.head@.len() == self.w * self.h
        &&& self.next@.len() == self.bucket@.len() < END
        &&& forall|b: int|
            0 <= b < self.head@.len() ==> last_in(
                self.bucket@,
                self.bucket@.len() as int,
                b,
                #[trigger] self.head@[b],
            )
        &&& forall|i: int|
            0 <= i < self.next@.len() ==> last_in(
                self.bucket@,
                i,
                self.bucket@[i],
                #[trigger] self.next@[i],
            )
        &&& forall|i: int| 0 <= i < self.bucket@.len() ==> 0 <= #[trigger] self.bucket@[i] < self.w * self.h
    }

    /// No points in `w` by `h` buckets.
    pub fn new(w: usize, h: usize) -> (r: SpatialHash)
        requires
            0 < w,
            0 < h,
            w * h <= usize::MAX,
        ensures
            r.wf(),
            r.buckets().len() == 0,
            r.width() == w,
            r.height() == h,
    {
        SpatialHash { w, h, head: vec![END; w * h], next: Vec::new(), bucket: Ghost(Seq::empty()) }
    }

    /// How many points there are.
    pub fn len(&self) -> (n: usize)
        requires
            self.wf(),
        ensures
            n == self.buckets().len(),
    {
        self.next.len()
    }

    fn clamp(x: i64, n: usize) -> (r: usize)
        requires
            0 < n,
        ensures
            r == clamped(x as int, n as int),
            r < n,
    {
        if x < 0 {
            0
        } else if x as u64 >= n as u64 {
            n - 1
        } else {
            x as usize
        }
    }

    /// Adds a point in bucket `(bx, by)`, moved into the grid, and returns its number.
    pub fn insert(&mut self, bx: i64, by: i64) -> (id: u32)
        requires
            old(self).wf(),
            old(self).buckets().len() < END - 1,
        ensures
            final(self).wf(),
            final(self).width() == old(self).width(),
            final(self).height() == old(self).height(),
            id == old(self).buckets().len(),
            final(self).buckets() == old(self).buckets().push(
                grid::at(
                    clamped(bx as int, old(self).width()),
                    clamped(by as int, old(self).height()),
                    old(self).width(),
                ),
            ),
    {
        let total: usize = self.head.len();
        let (x, y): (usize, usize) = (SpatialHash::clamp(bx, self.w), SpatialHash::clamp(by, self.h));
        proof {
            grid::lemma_at(x as int, y as int, self.w as int, self.h as int);
            assert(0 <= y * self.w) by (nonlinear_arith);
            assert(y * self.w + x < total);
        }
        let b: usize = y * self.w + x;
        let id: u32 = self.next.len() as u32;
        let ghost before = *self;
        let prev: u32 = self.head[b];
        self.next.push(prev);
        self.head.set(b, id);
        self.bucket = Ghost(self.bucket@.push(b as int));
        proof {
            let (s, t) = (before.bucket@, self.bucket@);
            assert forall|c: int| 0 <= c < self.head@.len() implies last_in(
                t,
                t.len() as int,
                c,
                #[trigger] self.head@[c],
            ) by {
                assert(last_in(s, s.len() as int, c, before.head@[c]));
                if c != b {
                    assert forall|i: int| 0 <= i < t.len() && s.len() <= i implies t[i] != c by {
                    }
                    if self.head@[c] == END {
                        assert forall|i: int| 0 <= i < t.len() implies #[trigger] t[i] != c by {
                            if i < s.len() {
                                assert(s[i] != c);
                            }
                        }
                    } else {
                        assert forall|i: int| self.head@[c] < i < t.len() implies #[trigger] t[i] != c by {
                            if i < s.len() {
                                assert(s[i] != c);
                            }
                        }
                    }
                }
            }
            assert forall|i: int| 0 <= i < self.next@.len() implies last_in(
                t,
                i,
                t[i],
                #[trigger] self.next@[i],
            ) by {
                if i < s.len() {
                    assert(last_in(s, i, s[i], before.next@[i]));
                    lemma_last_in_agrees(s, t, i, s[i], before.next@[i]);
                } else {
                    assert(last_in(s, i, b as int, before.head@[b as int]));
                    lemma_last_in_agrees(s, t, i, b as int, prev);
                }
            }
        }
        id
    }

    /// The points in the buckets at most `k` away from bucket `(bx, by)`: bucket by bucket in
    /// reading order, the newest point of each first.
    pub fn nearby(&self, bx: i64, by: i64, k: i64) -> (ids: Vec<u32>)
        requires
            self.wf(),
            0 <= k <= 0x4000_0000_0000_0000,
            -0x3fff_ffff_ffff_ffff <= bx <= 0x3fff_ffff_ffff_ffff,
            -0x3fff_ffff_ffff_ffff <= by <= 0x3fff_ffff_ffff_ffff,
            self.width() <= 0x3fff_ffff_ffff_ffff,
            self.height() <= 0x3fff_ffff_ffff_ffff,
        ensures
            ids@ == window(
                self.buckets(),
                self.width(),
                self.height(),
                bx as int,
                by as int,
                k as int,
            ),
            forall|i: int|
                0 <= i < self.buckets().len() ==> (#[trigger] ids@.contains(i as u32)
                    <==> in_window(
                    grid::col(self.buckets()[i], self.width()),
                    grid::row(self.buckets()[i], self.width()),
                    bx as int,
                    by as int,
                    k as int,
                )),
            forall|a: int| 0 <= a < ids@.len() ==> #[trigger] ids@[a] < self.buckets().len(),
    {
        let ghost (w, h, bk) = (self.w as int, self.h as int, self.bucket@);
        let total: usize = self.head.len();
        let y0: i64 = if by - k < 0 {
            0
        } else {
            by - k
        };
        let x0: i64 = if bx - k < 0 {
            0
        } else {
            bx - k
        };
        let y1: i64 = if by + k < self.h as i64 - 1 {
            by + k
        } else {
            self.h as i64 - 1
        };
        let x1: i64 = if bx + k < self.w as i64 - 1 {
            bx + k
        } else {
            self.w as i64 - 1
        };
        let mut ids: Vec<u32> = Vec::new();
        let mut y: i64 = y0;
        while y <= y1
            invariant
                self.wf(),
                w == self.w,
                h == self.h,
                bk == self.bucket@,
                total == self.head@.len() == w * h,
                0 <= y0 <= y,
                0 <= x0,
                y1 < h <= 0x3fff_ffff_ffff_ffff,
                x1 < w <= 0x3fff_ffff_ffff_ffff,
                y <= y1 + 1 || y == y0,
                ids@ == rows_of(bk, w, x0 as int, x1 + 1, y0 as int, y as int),
                forall|i: int|
                    0 <= i < bk.len() ==> (#[trigger] ids@.contains(i as u32) <==> x0 <= grid::col(bk[i], w)
                        <= x1 && y0 <= grid::row(bk[i], w) < y && grid::row(bk[i], w) <= y1),
                forall|a: int| 0 <= a < ids@.len() ==> #[trigger] ids@[a] < bk.len(),
            decreases y1 - y + 1,
        {
            let mut x: i64 = x0;
            assert(ids@ =~= ids@ + row_of(bk, w, y as int, x0 as int, x0 as int));
            while x <= x1
                invariant
                    self.wf(),
                    w == self.w,
                    h == self.h,
                    bk == self.bucket@,
                    total == self.head@.len() == w * h,
                    0 <= y0 <= y <= y1 < h,
                    0 <= x0 <= x,
                    x1 < w <= 0x3fff_ffff_ffff_ffff,
                    x <= x1 + 1 || x == x0,
                    ids@ == rows_of(bk, w, x0 as int, x1 + 1, y0 as int, y as int) + row_of(
                        bk,
                        w,
                        y as int,
                        x0 as int,
                        x as int,
                    ),
                    forall|i: int|
                        0 <= i < bk.len() ==> (#[trigger] ids@.contains(i as u32) <==> {
                            ||| x0 <= grid::col(bk[i], w) <= x1 && y0 <= grid::row(bk[i], w) < y
                            ||| x0 <= grid::col(bk[i], w) < x && grid::col(bk[i], w) <= x1 && grid::row(
                                bk[i],
                                w,
                            ) == y
                        }),
                    forall|a: int| 0 <= a < ids@.len() ==> #[trigger] ids@[a] < bk.len(),
                decreases x1 - x + 1,
            {
                proof {
                    grid::lemma_at(x as int, y as int, w, h);
                    assert(0 <= y * self.w) by (nonlinear_arith)
                        requires
                            0 <= y,
                    ;
                    assert(y * self.w + x < total);
                }
                let b: usize = y as usize * self.w + x as usize;
                let ghost before = ids@;
                self.collect(b, &mut ids);
                proof {
                    let above = rows_of(bk, w, x0 as int, x1 + 1, y0 as int, y as int);
                    assert(ids@ =~= above + row_of(bk, w, y as int, x0 as int, x + 1));
                    assert forall|i: int| 0 <= i < bk.len() implies (#[trigger] ids@.contains(i as u32)
                        <==> {
                        ||| x0 <= grid::col(bk[i], w) <= x1 && y0 <= grid::row(bk[i], w) < y
                        ||| x0 <= grid::col(bk[i], w) < x + 1 && grid::col(bk[i], w) <= x1 && grid::row(
                            bk[i],
                            w,
                        ) == y
                    }) by {
                        assert(ids@.contains(i as u32) <==> before.contains(i as u32) || bk[i] == b);
                        grid::lemma_col_row(bk[i], w, h);
                    }
                }
                x += 1;
            }
            proof {
                if x > x1 + 1 {
                    assert(row_of(bk, w, y as int, x0 as int, x as int) =~= row_of(bk, w, y as int, x0 as int, x1 + 1));
                }
            }
            y += 1;
        }
        proof {
            assert forall|i: int| 0 <= i < bk.len() implies (#[trigger] ids@.contains(i as u32)
                <==> in_window(grid::col(bk[i], w), grid::row(bk[i], w), bx as int, by as int, k as int)) by {
                grid::lemma_col_row(bk[i], w, h);
            }
        }
        ids
    }

    /// Appends the points of bucket `b`, the newest first.
    fn collect(&self, b: usize, ids: &mut Vec<u32>)
        requires
            self.wf(),
            b < self.width() * self.height(),
            forall|a: int| 0 <= a < old(ids)@.len() ==> #[trigger] old(ids)@[a] < self.buckets().len(),
        ensures
            final(ids)@ == old(ids)@ + chain(self.buckets(), self.buckets().len() as int, b as int),
            forall|i: int|
                0 <= i < self.buckets().len() ==> (#[trigger] final(ids)@.contains(i as u32)
                    <==> old(ids)@.contains(i as u32) || self.buckets()[i] == b),
            forall|a: int|
                0 <= a < final(ids)@.len() ==> #[trigger] final(ids)@[a] < self.buckets().len(),
    {
        let ghost (bk, start) = (self.bucket@, ids@);
        let mut i: u32 = self.head[b];
        let ghost mut n: int = bk.len() as int;
        while i != END
            invariant
                self.wf(),
                bk == self.bucket@,
                0 <= n <= bk.len(),
                last_in(bk, n, b as int, i),
                ids@ + chain(bk, n, b as int) == start + chain(bk, bk.len() as int, b as int),
                forall|j: int|
                    0 <= j < bk.len() ==> (#[trigger] ids@.contains(j as u32) <==> start.contains(
                        j as u32,
                    ) || bk[j] == b && j >= n),
                forall|a: int| 0 <= a < ids@.len() ==> #[trigger] ids@[a] < bk.len(),
            decreases n,
        {
            let ghost before = ids@;
            ids.push(i);
            proof {
                lemma_chain(bk, n, b as int, i);
                assert(ids@ + chain(bk, i as int, b as int) =~= before + chain(bk, n, b as int));
                assert forall|j: int| 0 <= j < bk.len() implies (#[trigger] ids@.contains(j as u32)
                    <==> start.contains(j as u32) || bk[j] == b && j >= i) by {
                    assert(before.contains(j as u32) <==> start.contains(j as u32) || bk[j] == b && j
                        >= n);
                    if before.contains(j as u32) {
                        let a = choose|a: int| 0 <= a < before.len() && before[a] == j as u32;
                        assert(ids@[a] == j as u32);
                    }
                    assert(ids@[ids@.len() - 1] == i);
                    if i < j < n {
                        assert(bk[j] != b);
                    }
                }
                n = i as int;
                assert(last_in(bk, n, bk[n], self.next@[n]));
            }
            i = self.next[i as usize];
        }
        proof {
            lemma_chain(bk, n, b as int, END);
            assert(ids@ =~= ids@ + chain(bk, n, b as int));
            assert forall|j: int| 0 <= j < bk.len() implies (#[trigger] ids@.contains(j as u32)
                <==> start.contains(j as u32) || bk[j] == b) by {
                if j < n {
                    assert(bk[j] != b);
                }
            }
        }
    }
}

proof fn lemma_last_in_agrees(s: Seq<int>, t: Seq<int>, n: int, b: int, l: u32)
    requires
        last_in(s, n, b, l),
        0 <= n <= s.len(),
        n <= t.len(),
        forall|i: int| 0 <= i < n ==> s[i] == t[i],
    ensures
        last_in(t, n, b, l),
{
    if l == END {
        assert forall|i: int| 0 <= i < n implies #[trigger] t[i] != b by {
            assert(s[i] != b);
        }
    } else {
        assert forall|i: int| l < i < n implies #[trigger] t[i] != b by {
            assert(s[i] != b);
        }
    }
}

/// Whether bucket `(x, y)` is at most `k` away from bucket `(bx, by)`.
pub open spec fn in_window(x: int, y: int, bx: int, by: int, k: int) -> bool {
    bx - k <= x <= bx + k && by - k <= y <= by + k
}

/// The density of trees on a material, given those of forest and meadow: none elsewhere.
pub open spec fn tree_density(m: MaterialId, forest: u64, meadow: u64) -> u64 {
    if m.0 == MaterialId::FOREST_FLOOR {
        forest
    } else if m.0 == MaterialId::GRASS {
        meadow
    } else {
        0
    }
}

/// A candidate place for a tree, with the bits of its numbers.
#[derive(Clone, Copy)]
pub struct TreeSite {
    pub wet: bool,
    pub material: MaterialId,
    pub slope: u64,
    pub z: u64,
    pub treeline: u64,
    /// A uniform draw times the largest density.
    pub draw: u64,
}

impl TreeSite {
    pub open spec fn bears(&self, max_slope: u64, forest: u64, meadow: u64) -> bool {
        &&& !self.wet
        &&& !ieee::lt64(max_slope, self.slope)
        &&& !ieee::le64(tree_density(self.material, forest, meadow), self.draw)
        &&& !ieee::le64(self.treeline, self.z)
    }

    /// Whether a tree grows here: on dry ground that is not too steep, below the treeline, and as
    /// often as the density of the material asks.
    pub fn grows(&self, max_slope: u64, forest: u64, meadow: u64) -> (r: bool)
        ensures
            r == self.bears(max_slope, forest, meadow),
    {
        let density: u64 = if self.material.0 == MaterialId::FOREST_FLOOR {
            forest
        } else if self.material.0 == MaterialId::GRASS {
            meadow
        } else {
            0
        };
        !self.wet && !ieee::is_lt64(max_slope, self.slope) && !ieee::is_le64(density, self.draw)
            && !ieee::is_le64(self.treeline, self.z)
    }
}

/// No tree grows on anything but forest floor and grass.
pub proof fn lemma_trees_grow_on_soil(s: TreeSite, max_slope: u64, forest: u64, meadow: u64)
    requires
        s.bears(max_slope, forest, meadow),
        ieee::le64(0, s.draw),
    ensures
        s.material.0 == MaterialId::FOREST_FLOOR || s.material.0 == MaterialId::GRASS,
{
}

/// The density of rocks on a material, given those of rocky and other ground.
pub open spec fn rock_density(m: MaterialId, rocky: u64, other: u64) -> u64 {
    if m.0 == MaterialId::ROCK || m.0 == MaterialId::SCREE {
        rocky
    } else {
        other
    }
}

/// Whether ground of a material bears a rock for a draw.
pub open spec fn bears_rock(wet: bool, material: MaterialId, rocky: u64, other: u64, draw: u64) -> bool {
    !wet && !ieee::le64(rock_density(material, rocky, other), draw)
}

/// Whether a rock lies on dry ground of a material, for a uniform draw times the largest density.
pub fn rock_lies(wet: bool, material: MaterialId, rocky: u64, other: u64, draw: u64) -> (r: bool)
    ensures
        r == bears_rock(wet, material, rocky, other, draw),
{
    let density: u64 = if material.0 == MaterialId::ROCK || material.0 == MaterialId::SCREE {
        rocky
    } else {
        other
    };
    !wet && !ieee::is_le64(density, draw)
}

/// Places in the grid stay where they are, and others are moved to the nearest one in it.
pub proof fn lemma_clamped_is_nearest(x: int, n: int)
    requires
        0 < n,
    ensures
        0 <= x < n ==> clamped(x, n) == x,
        x < 0 ==> clamped(x, n) == 0,
        x >= n ==> clamped(x, n) == n - 1,
{
}

/// The window around a bucket reaches as far to either side as up and down.
pub proof fn lemma_windows_are_square(x: int, y: int, bx: int, by: int, k: int)
    ensures
        in_window(x, y, bx, by, k) <==> -k <= x - bx <= k && -k <= y - by <= k,
        in_window(x, y, bx, by, k) == in_window(y, x, by, bx, k),
        in_window(x, y, bx, by, k) == in_window(bx, by, x, y, k),
{
}

/// A bucket's chain holds its points and no others, the newest first.
pub proof fn lemma_chains_hold_their_bucket(bucket: Seq<int>, n: int, b: int)
    requires
        0 <= n <= bucket.len() < END,
    ensures
        forall|i: int| 0 <= i < n && #[trigger] bucket[i] == b ==> chain(bucket, n, b).contains(i as u32),
        forall|a: int|
            0 <= a < chain(bucket, n, b).len() ==> (#[trigger] chain(bucket, n, b)[a]) < n && bucket[chain(
                bucket,
                n,
                b,
            )[a] as int] == b,
        forall|a: int, c: int|
            0 <= a < c < chain(bucket, n, b).len() ==> #[trigger] chain(bucket, n, b)[a] > #[trigger] chain(bucket, n, b)[c],
    decreases n,
{
    if n > 0 {
        lemma_chains_hold_their_bucket(bucket, n - 1, b);
        let (before, now) = (chain(bucket, n - 1, b), chain(bucket, n, b));
        if bucket[n - 1] == b {
            assert(now[0] == (n - 1) as u32);
            assert forall|a: int| 0 <= a < before.len() implies now[a + 1] == #[trigger] before[a] by {}
            assert forall|a: int| 0 < a < now.len() implies #[trigger] now[a] == before[a - 1] by {}
            assert forall|i: int| 0 <= i < n && #[trigger] bucket[i] == b implies now.contains(i as u32) by {
                if i < n - 1 {
                    assert(before.contains(i as u32));
                    let a = before.index_of(i as u32);
                    assert(now[a + 1] == before[a]);
                }
            }
        }
    }
}

/// Whether points are listed bucket by bucket in reading order, the newest of each first.
pub open spec fn in_reading_order(bucket: Seq<int>, ids: Seq<u32>) -> bool {
    forall|a: int, c: int|
        0 <= a < c < ids.len() ==> bucket[(#[trigger] ids[a]) as int] < bucket[(#[trigger] ids[c]) as int]
            || bucket[ids[a] as int] == bucket[ids[c] as int] && ids[a] > ids[c]
}

/// Whether points lie in buckets from `lo` to before `hi`.
spec fn in_buckets(bucket: Seq<int>, ids: Seq<u32>, lo: int, hi: int) -> bool {
    forall|a: int| 0 <= a < ids.len() ==> lo <= bucket[(#[trigger] ids[a]) as int] < hi
}

proof fn lemma_joined(bucket: Seq<int>, s: Seq<u32>, t: Seq<u32>, lo: int, mid: int, hi: int)
    requires
        in_reading_order(bucket, s),
        in_reading_order(bucket, t),
        in_buckets(bucket, s, lo, mid),
        in_buckets(bucket, t, mid, hi),
        lo <= mid <= hi,
    ensures
        in_reading_order(bucket, s + t),
        in_buckets(bucket, s + t, lo, hi),
{
    let all = s + t;
    assert forall|a: int| 0 <= a < all.len() implies lo <= bucket[(#[trigger] all[a]) as int] < hi by {
        if a < s.len() {
            assert(all[a] == s[a]);
        } else {
            assert(all[a] == t[a - s.len()]);
        }
    }
    assert forall|a: int, c: int| 0 <= a < c < all.len() implies bucket[(#[trigger] all[a]) as int] < bucket[(
    #[trigger] all[c]) as int] || bucket[all[a] as int] == bucket[all[c] as int] && all[a] > all[c] by {
        if c < s.len() {
            assert(all[a] == s[a] && all[c] == s[c]);
        } else if a < s.len() {
            assert(all[a] == s[a] && all[c] == t[c - s.len()]);
        } else {
            assert(all[a] == t[a - s.len()] && all[c] == t[c - s.len()]);
        }
    }
}

proof fn lemma_row_order(bucket: Seq<int>, w: int, y: int, x0: int, x1: int)
    requires
        bucket.len() < END,
        0 <= x0,
    ensures
        in_reading_order(bucket, row_of(bucket, w, y, x0, x1)),
        in_buckets(bucket, row_of(bucket, w, y, x0, x1), grid::at(x0, y, w), grid::at(
            if x1 <= x0 {
                x0
            } else {
                x1
            },
            y,
            w,
        )),
    decreases x1 - x0,
{
    if x1 > x0 {
        lemma_row_order(bucket, w, y, x0, x1 - 1);
        let b = grid::at(x1 - 1, y, w);
        lemma_chains_hold_their_bucket(bucket, bucket.len() as int, b);
        lemma_joined(
            bucket,
            row_of(bucket, w, y, x0, x1 - 1),
            chain(bucket, bucket.len() as int, b),
            grid::at(x0, y, w),
            b,
            grid::at(x1, y, w),
        );
    }
}

proof fn lemma_rows_order(bucket: Seq<int>, w: int, x0: int, x1: int, y0: int, y1: int)
    requires
        bucket.len() < END,
        0 <= x0 <= x1 <= w,
        0 <= y0,
    ensures
        in_reading_order(bucket, rows_of(bucket, w, x0, x1, y0, y1)),
        in_buckets(bucket, rows_of(bucket, w, x0, x1, y0, y1), grid::at(0, y0, w), grid::at(
            0,
            if y1 <= y0 {
                y0
            } else {
                y1
            },
            w,
        )),
    decreases y1 - y0,
{
    if y1 > y0 {
        lemma_rows_order(bucket, w, x0, x1, y0, y1 - 1);
        let y = y1 - 1;
        lemma_row_order(bucket, w, y, x0, x1);
        let row = row_of(bucket, w, y, x0, x1);
        assert(y1 * w == y * w + w) by (nonlinear_arith)
            requires
                y1 == y + 1,
        ;
        assert(y0 * w <= y * w) by (nonlinear_arith)
            requires
                y0 <= y,
                0 <= w,
        ;
        assert(in_buckets(bucket, row, grid::at(0, y, w), grid::at(0, y1, w)));
        lemma_joined(
            bucket,
            rows_of(bucket, w, x0, x1, y0, y),
            row,
            grid::at(0, y0, w),
            grid::at(0, y, w),
            grid::at(0, y1, w),
        );
    }
}

/// The points near a bucket come bucket by bucket in reading order, the newest of each first.
pub proof fn lemma_nearby_points_come_in_reading_order(bucket: Seq<int>, w: int, h: int, bx: int, by: int, k: int)
    requires
        bucket.len() < END,
        0 < w,
        0 < h,
        0 <= k,
    ensures
        in_reading_order(bucket, window(bucket, w, h, bx, by, k)),
{
    let (x0, y0) = (if bx - k < 0 {
        0
    } else {
        bx - k
    }, if by - k < 0 {
        0
    } else {
        by - k
    });
    let (x1, y1) = (if bx + k < w - 1 {
        bx + k + 1
    } else {
        w
    }, if by + k < h - 1 {
        by + k + 1
    } else {
        h
    });
    if x1 <= x0 {
        lemma_no_columns(bucket, w, x0, x1, y0, y1);
    } else {
        lemma_rows_order(bucket, w, x0, x1, y0, y1);
    }
}

proof fn lemma_no_columns(bucket: Seq<int>, w: int, x0: int, x1: int, y0: int, y1: int)
    requires
        x1 <= x0,
    ensures
        rows_of(bucket, w, x0, x1, y0, y1).len() == 0,
    decreases y1 - y0,
{
    if y1 > y0 {
        lemma_no_columns(bucket, w, x0, x1, y0, y1 - 1);
    }
}

/// A tree grows on dry forest floor or grass that is not too steep and lies below the treeline, if the
/// draw is below the density there, and nowhere else.
pub proof fn lemma_trees_grow_where_they_can(s: TreeSite, max_slope: u64, forest: u64, meadow: u64)
    requires
        ieee::le64(0, s.draw),
        !ieee::nan64(s.slope) && !ieee::nan64(s.z) && !ieee::nan64(max_slope) && !ieee::nan64(s.treeline),
        !ieee::nan64(forest) && !ieee::nan64(meadow),
    ensures
        s.bears(max_slope, forest, meadow) <==> {
            &&& !s.wet
            &&& ieee::le64(s.slope, max_slope)
            &&& ieee::lt64(s.z, s.treeline)
            &&& s.material.0 == MaterialId::FOREST_FLOOR && ieee::lt64(s.draw, forest) || s.material.0
                == MaterialId::GRASS && ieee::lt64(s.draw, meadow)
        },
{
}

/// Rocks lie as densely on rock as on scree, and elsewhere all alike.
pub proof fn lemma_rocks_lie_on_rocky_ground(m: MaterialId, rocky: u64, other: u64)
    ensures
        m.0 == MaterialId::ROCK || m.0 == MaterialId::SCREE ==> rock_density(m, rocky, other) == rocky,
        m.0 != MaterialId::ROCK && m.0 != MaterialId::SCREE ==> rock_density(m, rocky, other) == other,
        m.0 == MaterialId::FOREST_FLOOR ==> tree_density(m, rocky, other) == rocky,
        m.0 == MaterialId::GRASS ==> tree_density(m, rocky, other) == other,
        m.0 != MaterialId::FOREST_FLOOR && m.0 != MaterialId::GRASS ==> tree_density(m, rocky, other) == 0,
{
}

/// No rock lies in water; on dry ground one lies exactly for a draw below the density there.
pub proof fn lemma_rocks_lie_on_dry_ground(wet: bool, m: MaterialId, rocky: u64, other: u64, draw: u64)
    requires
        !ieee::nan64(rocky) && !ieee::nan64(other) && !ieee::nan64(draw),
    ensures
        wet ==> !bears_rock(wet, m, rocky, other, draw),
        !wet && (m.0 == MaterialId::ROCK || m.0 == MaterialId::SCREE) ==> (bears_rock(wet, m, rocky, other, draw)
            <==> ieee::lt64(draw, rocky)),
        !wet && m.0 != MaterialId::ROCK && m.0 != MaterialId::SCREE ==> (bears_rock(wet, m, rocky, other, draw)
            <==> ieee::lt64(draw, other)),
{
}

} // verus!

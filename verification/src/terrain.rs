//! The discrete side of the height-field stages: noise seeds, the erosion brush, what a droplet does,
//! which way ground slides, and where upsampled heights come from.

use vstd::prelude::*;

use crate::grid;
use crate::ieee;
use crate::rng;
use crate::rng::Seed;

verus! {

/// Noise seeds of the terrain layers.
#[derive(Clone, Copy, Debug, PartialEq, Eq)]
pub struct TerrainSeeds {
    pub warp: [u64; 4],
    pub mask: u64,
    pub hills: u64,
    pub mountains: u64,
    pub detail: u64,
}

/// The noise seed of a layer below `seed`.
pub open spec fn layer(seed: Seq<u8>, name: Seq<char>) -> u64 {
    rng::short_of(rng::child_of(seed, name))
}

impl TerrainSeeds {
    /// The layers of the map with this root seed.
    pub fn new(root: &Seed) -> (r: TerrainSeeds)
        ensures
            ({
                let t = rng::child_of(root.0@, "terrain"@);
                let w = rng::child_of(t, "warp"@);
                &&& forall|i: int|
                    0 <= i < 4 ==> #[trigger] r.warp[i] == rng::short_of(rng::indexed(w, i as u64))
                &&& r.mask == layer(t, "mask"@)
                &&& r.hills == layer(t, "hills"@)
                &&& r.mountains == layer(t, "mountains"@)
                &&& r.detail == layer(t, "detail"@)
            }),
    {
        let t = root.child("terrain");
        let w = t.child("warp");
        let warp: [u64; 4] = [
            w.child_index(0).short(),
            w.child_index(1).short(),
            w.child_index(2).short(),
            w.child_index(3).short(),
        ];
        TerrainSeeds {
            warp,
            mask: t.child("mask").short(),
            hills: t.child("hills").short(),
            mountains: t.child("mountains").short(),
            detail: t.child("detail").short(),
        }
    }
}

/// Noise seeds of the tree- and snowline and of the forest.
#[derive(Clone, Copy, Debug, PartialEq, Eq)]
pub struct LineSeeds {
    pub treeline: u64,
    pub snowline: u64,
    pub forest: u64,
}

impl LineSeeds {
    /// The lines of the map with this root seed.
    pub fn new(root: &Seed) -> (r: LineSeeds)
        ensures
            r.treeline == layer(rng::child_of(root.0@, "lines"@), "treeline"@),
            r.snowline == layer(rng::child_of(root.0@, "lines"@), "snowline"@),
            r.forest == layer(rng::child_of(root.0@, "lines"@), "forest"@),
    {
        let t = root.child("lines");
        LineSeeds {
            treeline: t.child("treeline").short(),
            snowline: t.child("snowline").short(),
            forest: t.child("forest").short(),
        }
    }
}

/// Whether an offset is closer than `r` to its centre.
pub open spec fn in_brush(dx: int, dy: int, r: int) -> bool {
    -r <= dx <= r && -r <= dy <= r && dx * dx + dy * dy < r * r
}

/// The offsets at which a droplet erodes, row by row.
pub fn brush(r: u32) -> (b: Vec<(i64, i64)>)
    requires
        r <= 16,
    ensures
        forall|dx: i64, dy: i64| #[trigger] b@.contains((dx, dy)) <==> in_brush(dx as int, dy as int, r as int),
        forall|i: int, j: int|
            0 <= i < j < b@.len() ==> #[trigger] b@[i].1 < #[trigger] b@[j].1 || b@[i].1 == b@[j].1 && b@[i].0
                < b@[j].0,
{
    let n: i64 = r as i64;
    let mut b: Vec<(i64, i64)> = Vec::new();
    let mut dy: i64 = -n;
    while dy <= n
        invariant
            n == r <= 16,
            -n <= dy <= n + 1,
            forall|x: i64, y: i64|
                #[trigger] b@.contains((x, y)) <==> in_brush(x as int, y as int, n as int) && y < dy,
            forall|i: int, j: int|
                0 <= i < j < b@.len() ==> #[trigger] b@[i].1 < #[trigger] b@[j].1 || b@[i].1 == b@[j].1
                    && b@[i].0 < b@[j].0,
        decreases n + 1 - dy,
    {
        let mut dx: i64 = -n;
        while dx <= n
            invariant
                n == r <= 16,
                -n <= dy <= n,
                -n <= dx <= n + 1,
                forall|x: i64, y: i64|
                    #[trigger] b@.contains((x, y)) <==> in_brush(x as int, y as int, n as int) && (y < dy || y
                        == dy && x < dx),
                forall|i: int, j: int|
                    0 <= i < j < b@.len() ==> #[trigger] b@[i].1 < #[trigger] b@[j].1 || b@[i].1 == b@[j].1
                        && b@[i].0 < b@[j].0,
            decreases n + 1 - dx,
        {
            proof {
                lemma_small_squares(dx as int);
                lemma_small_squares(dy as int);
                lemma_small_squares(n as int);
            }
            let ghost before = b@;
            if dx * dx + dy * dy < n * n {
                b.push((dx, dy));
            }
            proof {
                assert forall|i: int| 0 <= i < before.len() implies #[trigger] before[i].1 < dy || before[i].1
                    == dy && before[i].0 < dx by {
                    assert(before.contains((before[i].0, before[i].1)));
                }
                assert forall|x: i64, y: i64| #[trigger] b@.contains((x, y)) <==> in_brush(
                    x as int,
                    y as int,
                    n as int,
                ) && (y < dy || y == dy && x < dx + 1) by {
                    if before.contains((x, y)) {
                        let i = choose|i: int| 0 <= i < before.len() && before[i] == (x, y);
                        assert(b@[i] == (x, y));
                    }
                    if b@.len() > before.len() {
                        assert(b@[before.len() as int] == (dx, dy));
                    }
                    if b@.contains((x, y)) {
                        let i = choose|i: int| 0 <= i < b@.len() && b@[i] == (x, y);
                        if i < before.len() {
                            assert(before[i] == (x, y));
                        }
                    }
                }
            }
            dx += 1;
        }
        dy += 1;
    }
    b
}

proof fn lemma_small_squares(x: int)
    requires
        -16 <= x <= 16,
    ensures
        0 <= x * x <= 256,
{
    assert(0 <= x * x <= 256) by (nonlinear_arith)
        requires
            -16 <= x <= 16,
    ;
}

/// The brush is the same in all four quarters and, unless it is empty, holds its centre.
pub proof fn lemma_brush_is_symmetric(dx: int, dy: int, r: int)
    requires
        in_brush(dx, dy, r),
    ensures
        in_brush(-dx, dy, r),
        in_brush(dx, -dy, r),
        in_brush(dy, dx, r),
        in_brush(0, 0, r),
{
    assert((-dx) * (-dx) == dx * dx && (-dy) * (-dy) == dy * dy) by (nonlinear_arith);
    assert(0 < r * r) by (nonlinear_arith)
        requires
            dx * dx + dy * dy < r * r,
    ;
}

/// What a droplet does to the ground after a step.
#[derive(Clone, Copy, Debug, PartialEq, Eq, Structural)]
pub enum Droplet {
    /// It ran uphill and fills the pit behind it.
    Fill,
    /// It carries too much and drops some.
    Deposit,
    Erode,
}

/// What a droplet with this load does, after a step that rose by `dh`.
pub open spec fn droplet_of(sediment: u64, capacity: u64, dh: u64) -> Droplet {
    if ieee::lt64(0, dh) {
        Droplet::Fill
    } else if ieee::lt64(capacity, sediment) {
        Droplet::Deposit
    } else {
        Droplet::Erode
    }
}

pub fn droplet(sediment: u64, capacity: u64, dh: u64) -> (r: Droplet)
    ensures
        r == droplet_of(sediment, capacity, dh),
{
    if ieee::is_lt64(0, dh) {
        Droplet::Fill
    } else if ieee::is_lt64(capacity, sediment) {
        Droplet::Deposit
    } else {
        Droplet::Erode
    }
}

/// The vertex at an offset from vertex `(x, y)`, if the field has it.
pub fn offset(x: usize, y: usize, dx: i64, dy: i64, w: usize, h: usize) -> (r: Option<usize>)
    requires
        x < w,
        y < h,
        w * h <= i64::MAX,
        -16 <= dx <= 16,
        -16 <= dy <= 16,
        w * h <= usize::MAX,
        w < 0x1_0000_0000,
        h < 0x1_0000_0000,
    ensures
        r == if 0 <= x + dx < w && 0 <= y + dy < h {
            Some(grid::at(x + dx, y + dy, w as int) as usize)
        } else {
            None
        },
        r is Some ==> r->0 < w * h && r->0 == grid::at(x + dx, y + dy, w as int),
{
    let (px, py): (i64, i64) = (x as i64 + dx, y as i64 + dy);
    if px < 0 || py < 0 || px >= w as i64 || py >= h as i64 {
        return None;
    }
    proof {
        grid::lemma_at(px as int, py as int, w as int, h as int);
        assert(0 <= py * w) by (nonlinear_arith)
            requires
                0 <= py,
        ;
    }
    Some(py as usize * w + px as usize)
}

/// How the ground of a cell moves to or from a neighbour.
#[derive(Clone, Copy, Debug, PartialEq, Eq, Structural)]
pub enum Slide {
    Gives,
    Gets,
    Rests,
}

/// How ground moves, given how far the cell lies above its neighbour and the neighbour above the
/// cell, and the difference at which ground starts to slide.
pub open spec fn slide_of(above: u64, below: u64, talus: u64) -> Slide {
    if ieee::lt64(talus, above) {
        Slide::Gives
    } else if ieee::lt64(talus, below) {
        Slide::Gets
    } else {
        Slide::Rests
    }
}

pub fn slide(above: u64, below: u64, talus: u64) -> (r: Slide)
    ensures
        r == slide_of(above, below, talus),
{
    if ieee::is_lt64(talus, above) {
        Slide::Gives
    } else if ieee::is_lt64(talus, below) {
        Slide::Gets
    } else {
        Slide::Rests
    }
}

/// Both cells see the same exchange, so no ground appears or vanishes: one gives exactly if the
/// other gets, as the differences are negatives of each other.
pub proof fn lemma_slides_balance(above: u64, below: u64, talus: u64)
    requires
        ieee::rank64(below) == -ieee::rank64(above),
        ieee::le64(0, talus),
    ensures
        slide_of(above, below, talus) == Slide::Gives <==> slide_of(below, above, talus) == Slide::Gets,
        slide_of(above, below, talus) == Slide::Rests <==> slide_of(below, above, talus) == Slide::Rests,
{
}

/// Where a height of an upsampled row comes from.
#[derive(Clone, Copy, Debug, PartialEq, Eq)]
pub enum Source {
    /// A sample that is kept.
    Kept(usize),
    /// The curve through four samples, at the middle of the inner two.
    Between(usize, usize, usize, usize),
}

/// `k` moved into `0..n`.
pub open spec fn bounded(k: int, n: int) -> int {
    if k < 0 {
        0
    } else if k >= n {
        n - 1
    } else {
        k
    }
}

/// Where sample `i` of `2n - 1` comes from in a row of `n`.
pub open spec fn source_of(i: int, n: int) -> Source {
    let k = i / 2;
    if i % 2 == 0 {
        Source::Kept(k as usize)
    } else {
        Source::Between(
            bounded(k - 1, n) as usize,
            k as usize,
            bounded(k + 1, n) as usize,
            bounded(k + 2, n) as usize,
        )
    }
}

/// Where sample `i` of `2n - 1` comes from in a row of `n`; beyond the ends stand copies of the end
/// samples.
pub fn source(i: usize, n: usize) -> (r: Source)
    requires
        0 < n,
        i < 2 * n - 1,
    ensures
        r == source_of(i as int, n as int),
        match r {
            Source::Kept(k) => k < n && 2 * k == i,
            Source::Between(a, b, c, d) => a <= b < c <= d < n && 2 * b + 1 == i && c == b + 1,
        },
{
    let k: usize = i / 2;
    if i % 2 == 0 {
        return Source::Kept(k);
    }
    let a: usize = if k == 0 {
        0
    } else {
        k - 1
    };
    let d: usize = if n - k > 2 {
        k + 2
    } else {
        n - 1
    };
    Source::Between(a, k, k + 1, d)
}

/// Upsampling keeps every sample.
pub proof fn lemma_samples_are_kept(k: int, n: int)
    requires
        0 <= k < n <= usize::MAX,
    ensures
        source_of(2 * k, n) == Source::Kept(k as usize),
        0 <= 2 * k < 2 * n - 1,
{
}

/// The vertices along an edge of the coarse grid that erosion runs on.
pub fn coarse(n: usize) -> (r: usize)
    requires
        n % 2 == 1,
    ensures
        2 * r - 1 == n,
{
    (n - 1) / 2 + 1
}

/// The sample that a blur of radius `r` takes in step `k` around sample `i` of `n`; beyond the ends
/// stand copies of the end samples.
pub fn blur_source(i: usize, k: usize, r: usize, n: usize) -> (s: usize)
    requires
        i < n,
        k <= 2 * r,
        n + 2 * r <= usize::MAX,
    ensures
        s == bounded(i + k - r, n as int),
        s < n,
{
    let t: usize = i + k;
    if t < r {
        0
    } else if t - r < n {
        t - r
    } else {
        n - 1
    }
}

/// The brush holds exactly the offsets inside the circle of its radius.
pub proof fn lemma_brush_is_a_disc(dx: int, dy: int, r: int)
    requires
        0 <= r,
    ensures
        in_brush(dx, dy, r) <==> dx * dx + dy * dy < r * r,
{
    if dx * dx + dy * dy < r * r {
        assert(-r <= dx <= r && -r <= dy <= r) by (nonlinear_arith)
            requires
                dx * dx + dy * dy < r * r,
                0 <= r,
        ;
    }
}

/// A droplet that rose fills the pit behind it, whatever it carries; else it drops some exactly if it
/// carries more than it can.
pub proof fn lemma_droplets_fill_drop_or_erode(sediment: u64, capacity: u64, dh: u64)
    ensures
        droplet_of(sediment, capacity, dh) == Droplet::Fill <==> ieee::lt64(0, dh),
        ieee::le64(dh, 0) && ieee::lt64(capacity, sediment) ==> droplet_of(sediment, capacity, dh) == Droplet::Deposit,
        ieee::le64(dh, 0) && ieee::le64(sediment, capacity) ==> droplet_of(sediment, capacity, dh) == Droplet::Erode,
        droplet_of(sediment, capacity, dh) == Droplet::Deposit ==> ieee::lt64(capacity, sediment),
{
}

/// Ground slides from the higher cell to the lower one once they differ by more than the talus, and not
/// before.
pub proof fn lemma_ground_slides_down(above: u64, below: u64, talus: u64)
    requires
        ieee::rank64(below) == -ieee::rank64(above),
        !ieee::nan64(above),
        ieee::le64(0, talus),
    ensures
        slide_of(above, below, talus) == Slide::Gives <==> ieee::lt64(talus, above),
        slide_of(above, below, talus) == Slide::Gets <==> ieee::lt64(talus, below),
        slide_of(above, below, talus) == Slide::Rests <==> ieee::le64(above, talus) && ieee::le64(below, talus),
{
}

/// Samples of a row stay where they are, and those beyond it are the sample at that end.
pub proof fn lemma_rows_go_on_beyond_their_ends(k: int, n: int)
    requires
        0 < n,
    ensures
        0 <= k < n ==> bounded(k, n) == k,
        k < 0 ==> bounded(k, n) == 0,
        k >= n ==> bounded(k, n) == n - 1,
{
}

/// A sample between two others comes from these and from the next one on either side, as far as the row
/// goes.
pub proof fn lemma_samples_between(k: int, n: int)
    requires
        0 <= k,
        k + 1 < n <= usize::MAX,
    ensures
        source_of(2 * k + 1, n) matches Source::Between(a, b, c, d) && b == k && c == k + 1 && (k > 0 ==> a == k - 1) && (
        k == 0 ==> a == 0) && (k + 2 < n ==> d == k + 2) && (k + 2 == n ==> d == n - 1),
{
}

/// Upsampling a row backwards gives the row backwards.
pub proof fn lemma_upsampling_is_symmetric(i: int, n: int)
    requires
        0 <= i < 2 * n - 1,
        n <= usize::MAX,
    ensures
        match (source_of(i, n), source_of(2 * n - 2 - i, n)) {
            (Source::Kept(k), Source::Kept(l)) => k + l == n - 1,
            (Source::Between(a, b, c, d), Source::Between(p, q, r, s)) => a + s == n - 1 && b + r == n - 1 && c + q == n
                - 1 && d + p == n - 1,
            _ => false,
        },
{
}

} // verus!

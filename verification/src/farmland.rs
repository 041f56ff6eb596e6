//! Field parcels, what stands along their edges, and what keeps clear of roads and yards.
//!
//! Parcels are the cells around the centres of a jittered grid of `k` by `k` squares. Distances,
//! shares and draws are the bits of 64-bit numbers.

use vstd::prelude::*;

use crate::grid;
use crate::ieee;
use crate::landcover::ParcelKind;

verus! {

/// Two in five: tree lines on both sides of a road.
pub const BOTH_SIDES: u64 = 0x3fd9_9999_9999_999a;

/// Seven in ten: below it, and above [`BOTH_SIDES`], tree lines on the left of a road.
pub const LEFT_SIDE: u64 = 0x3fe6_6666_6666_6666;

/// What a parcel holds: woods for a draw below the share of woods or on steep ground, and else by
/// where the second draw lies among the shares.
pub open spec fn kind_of(
    u_woods: u64,
    woods: u64,
    slope: u64,
    woods_slope: u64,
    u: u64,
    meadow: u64,
    meadow_or_crop: u64,
) -> ParcelKind {
    if ieee::lt64(u_woods, woods) || ieee::lt64(woods_slope, slope) {
        ParcelKind::Woods
    } else if ieee::lt64(u, meadow) {
        ParcelKind::Meadow
    } else if ieee::lt64(u, meadow_or_crop) {
        ParcelKind::Crop
    } else {
        ParcelKind::Plowed
    }
}

/// What a parcel holds, given two draws and the summed shares.
pub fn parcel_kind(
    u_woods: u64,
    woods: u64,
    slope: u64,
    woods_slope: u64,
    u: u64,
    meadow: u64,
    meadow_or_crop: u64,
) -> (kind: ParcelKind)
    ensures
        kind == kind_of(u_woods, woods, slope, woods_slope, u, meadow, meadow_or_crop),
{
    if ieee::is_lt64(u_woods, woods) || ieee::is_lt64(woods_slope, slope) {
        ParcelKind::Woods
    } else if ieee::is_lt64(u, meadow) {
        ParcelKind::Meadow
    } else if ieee::is_lt64(u, meadow_or_crop) {
        ParcelKind::Crop
    } else {
        ParcelKind::Plowed
    }
}

/// Parcels steeper than the limit at their centre are woods, whatever is drawn.
pub proof fn lemma_steep_parcels_are_woods(
    u_woods: u64,
    woods: u64,
    slope: u64,
    woods_slope: u64,
    u: u64,
    meadow: u64,
    meadow_or_crop: u64,
)
    requires
        ieee::lt64(woods_slope, slope),
    ensures
        kind_of(u_woods, woods, slope, woods_slope, u, meadow, meadow_or_crop) == ParcelKind::Woods,
{
}

/// Whether parcel `i` of a `k` by `k` grid lies at most two squares from square `(gx, gy)`.
pub open spec fn close(i: int, gx: int, gy: int, k: int) -> bool {
    &&& 0 <= i < k * k
    &&& gx - 2 <= grid::col(i, k) <= gx + 2
    &&& gy - 2 <= grid::row(i, k) <= gy + 2
}

/// The parcels at most two squares from square `(gx, gy)`, in reading order.
pub fn neighbours(gx: i64, gy: i64, k: usize) -> (r: Vec<usize>)
    requires
        k * k <= usize::MAX,
        k <= 0x3fff_ffff,
        -0x7fff_ffff_ffff_ff00 <= gx <= 0x7fff_ffff_ffff_ff00,
        -0x7fff_ffff_ffff_ff00 <= gy <= 0x7fff_ffff_ffff_ff00,
    ensures
        forall|i: usize| #[trigger] r@.contains(i) <==> close(i as int, gx as int, gy as int, k as int),
        forall|a: int, b: int| 0 <= a < b < r@.len() ==> #[trigger] r@[a] < #[trigger] r@[b],
{
    let mut r: Vec<usize> = Vec::new();
    let (x0, y0): (i64, i64) = (at_least_0(gx - 2), at_least_0(gy - 2));
    let ghost (ki, gxi, gyi) = (k as int, gx as int, gy as int);
    let mut y: i64 = y0;
    proof {
        assert forall|j: usize| close(j as int, gxi, gyi, ki) implies grid::row(j as int, ki) >= y by {
            grid::lemma_col_row(j as int, ki, ki);
        }
    }
    while y <= gy + 2 && y < k as i64
        invariant
            k * k <= usize::MAX,
            k <= 0x3fff_ffff,
            ki == k,
            gxi == gx,
            gyi == gy,
            -0x7fff_ffff_ffff_ff00 <= gx <= 0x7fff_ffff_ffff_ff00,
            -0x7fff_ffff_ffff_ff00 <= gy <= 0x7fff_ffff_ffff_ff00,
            0 <= x0,
            x0 == gx - 2 || x0 == 0 && gx < 2,
            0 <= y0 <= y,
            y0 == gy - 2 || y0 == 0 && gy < 2,
            y <= gy + 3 || y == y0,
            forall|i: usize| #[trigger] r@.contains(i) <==> close(i as int, gxi, gyi, ki) && grid::row(i as int, ki) < y,
            forall|a: int, b: int| 0 <= a < b < r@.len() ==> #[trigger] r@[a] < #[trigger] r@[b],
        decreases gy + 3 - y,
    {
        let mut x: i64 = x0;
        while x <= gx + 2 && x < k as i64
            invariant
                k * k <= usize::MAX,
                k <= 0x3fff_ffff,
                ki == k,
                gxi == gx,
                gyi == gy,
                -0x7fff_ffff_ffff_ff00 <= gx <= 0x7fff_ffff_ffff_ff00,
                0 <= x0 <= x,
                x0 == gx - 2 || x0 == 0 && gx < 2,
                x <= gx + 3 || x == x0,
                0 <= y < k,
                gy - 2 <= y <= gy + 2,
                forall|i: usize|
                    #[trigger] r@.contains(i) <==> close(i as int, gxi, gyi, ki) && (grid::row(i as int, ki) < y
                        || grid::row(i as int, ki) == y && grid::col(i as int, ki) < x),
                forall|a: int, b: int| 0 <= a < b < r@.len() ==> #[trigger] r@[a] < #[trigger] r@[b],
            decreases gx + 3 - x,
        {
            let ghost before = r@;
            proof {
                grid::lemma_at(x as int, y as int, ki, ki);
                assert(0 <= y * k) by (nonlinear_arith)
                    requires
                        0 <= y,
                ;
            }
            let i: usize = y as usize * k + x as usize;
            r.push(i);
            proof {
                assert forall|a: int| 0 <= a < before.len() implies #[trigger] before[a] < i by {
                    let j = before[a];
                    assert(before.contains(j));
                    grid::lemma_numbered_in_reading_order(j as int, i as int, ki, ki);
                }
                assert forall|j: usize| #[trigger] r@.contains(j) <==> close(j as int, gxi, gyi, ki) && (grid::row(
                    j as int,
                    ki,
                ) < y || grid::row(j as int, ki) == y && grid::col(j as int, ki) < x + 1) by {
                    if before.contains(j) {
                        let a = choose|a: int| 0 <= a < before.len() && before[a] == j;
                        assert(r@[a] == j);
                    }
                    assert(r@[before.len() as int] == i);
                    if r@.contains(j) {
                        let a = choose|a: int| 0 <= a < r@.len() && r@[a] == j;
                        if a < before.len() {
                            assert(before.contains(before[a]));
                        }
                    }
                    if close(j as int, gxi, gyi, ki) && grid::row(j as int, ki) == y && grid::col(j as int, ki) == x {
                        grid::lemma_col_row(j as int, ki, ki);
                    }
                }
            }
            x += 1;
        }
        proof {
            assert forall|j: usize| #[trigger] r@.contains(j) <==> close(j as int, gxi, gyi, ki) && grid::row(
                j as int,
                ki,
            ) < y + 1 by {
                if close(j as int, gxi, gyi, ki) {
                    grid::lemma_col_row(j as int, ki, ki);
                }
            }
        }
        y += 1;
    }
    proof {
        assert forall|j: usize| #[trigger] r@.contains(j) <==> close(j as int, gxi, gyi, ki) by {
            if close(j as int, gxi, gyi, ki) {
                grid::lemma_col_row(j as int, ki, ki);
            }
        }
    }
    r
}

fn at_least_0(x: i64) -> (r: i64)
    ensures
        r == if x < 0 {
            0
        } else {
            x
        },
{
    if x < 0 {
        0
    } else {
        x
    }
}

/// Whether candidate `a` is nearer than candidate `b`, the one with the smaller number if they are
/// equally far.
pub open spec fn nearer(parcel: Seq<usize>, d: Seq<u64>, a: int, b: int) -> bool {
    ieee::rank64(d[a]) < ieee::rank64(d[b]) || ieee::rank64(d[a]) == ieee::rank64(d[b]) && parcel[a]
        <= parcel[b]
}

/// The place of the nearest of some parcels, whose distances are `d`: the one with the smallest
/// number among the nearest. Distances that are not numbers are passed over.
pub fn locate(parcel: &Vec<usize>, d: &Vec<u64>) -> (r: Option<usize>)
    requires
        parcel@.len() == d@.len(),
    ensures
        r is None <==> forall|a: int| 0 <= a < d@.len() ==> ieee::nan64(#[trigger] d@[a]),
        r matches Some(a) ==> {
            &&& a < d@.len()
            &&& !ieee::nan64(d@[a as int])
            &&& forall|b: int|
                0 <= b < d@.len() && !ieee::nan64(#[trigger] d@[b]) ==> nearer(parcel@, d@, a as int, b)
        },
{
    let n: usize = d.len();
    let mut best: Option<usize> = None;
    let mut i: usize = 0;
    while i < n
        invariant
            i <= n == d@.len() == parcel@.len(),
            best is None <==> forall|a: int| 0 <= a < i ==> ieee::nan64(#[trigger] d@[a]),
            best matches Some(a) ==> {
                &&& a < i
                &&& !ieee::nan64(d@[a as int])
                &&& forall|b: int|
                    0 <= b < i && !ieee::nan64(#[trigger] d@[b]) ==> nearer(parcel@, d@, a as int, b)
            },
        decreases n - i,
    {
        if !ieee::is_nan64(d[i]) {
            match best {
                None => {
                    best = Some(i);
                },
                Some(a) => {
                    if ieee::is_lt64(d[i], d[a]) || ieee::is_le64(d[i], d[a]) && parcel[i] < parcel[a] {
                        best = Some(i);
                    }
                },
            }
        }
        i += 1;
    }
    best
}

/// Which parcel a place belongs to does not depend on the order in which the parcels are looked at.
pub proof fn lemma_location_is_unique(parcel: Seq<usize>, d: Seq<u64>, a: int, b: int)
    requires
        parcel.len() == d.len(),
        0 <= a < d.len(),
        0 <= b < d.len(),
        nearer(parcel, d, a, b),
        nearer(parcel, d, b, a),
    ensures
        parcel[a] == parcel[b],
{
}

/// What stands along an edge between two parcels.
#[derive(Clone, Copy, Debug, PartialEq, Eq, Structural)]
pub enum Boundary {
    Open,
    Hedge,
    Fence,
}

/// What a draw puts between two parcels: nothing between two woods, else a hedge or a fence by
/// where the draw lies among the shares.
pub open spec fn boundary_of(a: ParcelKind, b: ParcelKind, u: u64, hedge: u64, hedge_or_fence: u64) -> Boundary {
    if a == ParcelKind::Woods && b == ParcelKind::Woods {
        Boundary::Open
    } else if ieee::lt64(u, hedge) {
        Boundary::Hedge
    } else if ieee::le64(hedge_or_fence, u) {
        Boundary::Open
    } else {
        Boundary::Fence
    }
}

pub fn boundary(a: ParcelKind, b: ParcelKind, u: u64, hedge: u64, hedge_or_fence: u64) -> (r: Boundary)
    ensures
        r == boundary_of(a, b, u, hedge, hedge_or_fence),
{
    if a == ParcelKind::Woods && b == ParcelKind::Woods {
        Boundary::Open
    } else if ieee::is_lt64(u, hedge) {
        Boundary::Hedge
    } else if ieee::is_le64(hedge_or_fence, u) {
        Boundary::Open
    } else {
        Boundary::Fence
    }
}

/// Both sides of an edge agree on what stands there.
pub proof fn lemma_boundary_is_shared(a: ParcelKind, b: ParcelKind, u: u64, hedge: u64, hedge_or_fence: u64)
    ensures
        boundary_of(a, b, u, hedge, hedge_or_fence) == boundary_of(b, a, u, hedge, hedge_or_fence),
{
}

/// The number of the edge between parcels `i` and `j` of `n`, from which its draws are seeded.
pub fn edge_number(i: usize, j: usize, n: usize) -> (r: u64)
    requires
        i < n,
        j < n,
        n * n <= u64::MAX,
    ensures
        r == grid::at(j as int, i as int, n as int),
{
    proof {
        grid::lemma_at(j as int, i as int, n as int, n as int);
        assert(0 <= i * n) by (nonlinear_arith);
    }
    i as u64 * n as u64 + j as u64
}

/// No two edges share their draws.
pub proof fn lemma_edges_have_their_own_draws(i: int, j: int, a: int, b: int, n: int)
    requires
        0 <= i < n,
        0 <= j < n,
        0 <= a < n,
        0 <= b < n,
        grid::at(j, i, n) == grid::at(b, a, n),
    ensures
        i == a,
        j == b,
{
    grid::lemma_at(j, i, n, n);
    grid::lemma_at(b, a, n, n);
}

/// The sides of a road that trees line.
#[derive(Clone, Copy, Debug, PartialEq, Eq, Structural)]
pub enum Sides {
    Neither,
    Both,
    Left,
    Right,
}

pub open spec fn sides_of(u: u64, share: u64, u_sides: u64) -> Sides {
    if ieee::le64(share, u) {
        Sides::Neither
    } else if ieee::lt64(u_sides, BOTH_SIDES) {
        Sides::Both
    } else if ieee::lt64(u_sides, LEFT_SIDE) {
        Sides::Left
    } else {
        Sides::Right
    }
}

/// Whether trees line a road, and on which sides, by two draws.
pub fn tree_line(u: u64, share: u64, u_sides: u64) -> (r: Sides)
    ensures
        r == sides_of(u, share, u_sides),
{
    if ieee::is_le64(share, u) {
        Sides::Neither
    } else if ieee::is_lt64(u_sides, BOTH_SIDES) {
        Sides::Both
    } else if ieee::is_lt64(u_sides, LEFT_SIDE) {
        Sides::Left
    } else {
        Sides::Right
    }
}

/// Whether a field gets a gate: it is no woods, lies inside the map on both axes, and every farm is
/// farther than `keep` away.
pub open spec fn gated(kind: ParcelKind, x: u64, y: u64, inner: u64, farms: Seq<u64>, keep: u64) -> bool {
    &&& kind != ParcelKind::Woods
    &&& ieee::lt64(x, inner)
    &&& ieee::lt64(y, inner)
    &&& forall|i: int| 0 <= i < farms.len() ==> ieee::lt64(keep, #[trigger] farms[i])
}

/// Whether a field gets a gate, given its distances `x` and `y` from the middle of the map and the
/// distances to the farms.
pub fn gate(kind: ParcelKind, x: u64, y: u64, inner: u64, farms: &Vec<u64>, keep: u64) -> (r: bool)
    ensures
        r == gated(kind, x, y, inner, farms@, keep),
{
    if kind == ParcelKind::Woods || !ieee::is_lt64(x, inner) || !ieee::is_lt64(y, inner) {
        return false;
    }
    all_beyond(farms, keep)
}

/// Whether every distance is larger than `keep`.
pub fn all_beyond(d: &Vec<u64>, keep: u64) -> (r: bool)
    ensures
        r == forall|i: int| 0 <= i < d@.len() ==> ieee::lt64(keep, #[trigger] d@[i]),
{
    let mut i: usize = 0;
    while i < d.len()
        invariant
            i <= d@.len(),
            forall|j: int| 0 <= j < i ==> ieee::lt64(keep, #[trigger] d@[j]),
        decreases d@.len() - i,
    {
        if !ieee::is_lt64(keep, d[i]) {
            return false;
        }
        i += 1;
    }
    true
}

/// How an obstacle lies to the nearest road within reach.
#[derive(Clone, Copy)]
pub struct RoadGap {
    /// The distance from the centre line, and the distance that the obstacle has to keep.
    pub distance: u64,
    pub keep: u64,
    /// The lowest point of the obstacle, and the height up to which the road stays free.
    pub bottom: u64,
    pub ceiling: u64,
}

/// A place for an obstacle with a round footprint.
pub struct Place {
    /// The extent of the footprint and that of the map: west, south, east, north.
    pub footprint: [u64; 4],
    pub map: [u64; 4],
    /// Whether the ground is under water.
    pub wet: bool,
    pub road: Option<RoadGap>,
    /// The distances to the yards, and the distance to keep from them.
    pub yards: Vec<u64>,
    pub keep: u64,
}

impl Place {
    /// Whether the footprint leaves the map.
    pub open spec fn off_map(&self) -> bool {
        ||| ieee::lt64(self.footprint[0], self.map[0])
        ||| ieee::lt64(self.footprint[1], self.map[1])
        ||| ieee::lt64(self.map[2], self.footprint[2])
        ||| ieee::lt64(self.map[3], self.footprint[3])
    }

    /// Whether the obstacle stands in the space that belongs to a road.
    pub open spec fn in_road(&self) -> bool {
        self.road matches Some(g) && ieee::lt64(g.distance, g.keep) && ieee::lt64(g.bottom, g.ceiling)
    }

    pub open spec fn in_yard(&self) -> bool {
        exists|i: int| 0 <= i < self.yards@.len() && ieee::lt64(#[trigger] self.yards@[i], self.keep)
    }

    pub open spec fn free(&self) -> bool {
        !self.off_map() && !self.wet && !self.in_road() && !self.in_yard()
    }

    /// Whether the obstacle keeps clear of roads and yards and stands on dry land in the map.
    pub fn allows(&self) -> (r: bool)
        ensures
            r == self.free(),
    {
        if ieee::is_lt64(self.footprint[0], self.map[0]) || ieee::is_lt64(self.footprint[1], self.map[1])
            || ieee::is_lt64(self.map[2], self.footprint[2]) || ieee::is_lt64(self.map[3], self.footprint[3]) {
            return false;
        }
        if self.wet {
            return false;
        }
        if let Some(g) = self.road {
            if ieee::is_lt64(g.distance, g.keep) && ieee::is_lt64(g.bottom, g.ceiling) {
                return false;
            }
        }
        let mut i: usize = 0;
        while i < self.yards.len()
            invariant
                i <= self.yards@.len(),
                forall|j: int| 0 <= j < i ==> !ieee::lt64(#[trigger] self.yards@[j], self.keep),
            decreases self.yards@.len() - i,
        {
            if ieee::is_lt64(self.yards[i], self.keep) {
                return false;
            }
            i += 1;
        }
        true
    }
}

/// Whether every member of a group is clear.
pub open spec fn all_clear(group: Seq<bool>) -> bool {
    forall|i: int| 0 <= i < group.len() ==> #[trigger] group[i]
}

fn is_all_clear(group: &Vec<bool>) -> (r: bool)
    ensures
        r == all_clear(group@),
{
    let mut i: usize = 0;
    while i < group.len()
        invariant
            i <= group@.len(),
            forall|j: int| 0 <= j < i ==> #[trigger] group@[j],
        decreases group@.len() - i,
    {
        if !group[i] {
            return false;
        }
        i += 1;
    }
    true
}

/// The groups before `n` whose members are all clear, in order.
pub open spec fn kept(groups: Seq<Vec<bool>>, n: int) -> Seq<int>
    decreases n,
{
    if n <= 0 {
        Seq::empty()
    } else if all_clear(groups[n - 1]@) {
        kept(groups, n - 1).push(n - 1)
    } else {
        kept(groups, n - 1)
    }
}

/// The groups (a trunk and its crown) to keep: those whose members are all clear, in order.
pub fn keep_clear(groups: &Vec<Vec<bool>>) -> (r: Vec<usize>)
    ensures
        r@.map_values(|i: usize| i as int) == kept(groups@, groups@.len() as int),
{
    let mut r: Vec<usize> = Vec::new();
    let mut i: usize = 0;
    assert(r@.map_values(|i: usize| i as int) =~= kept(groups@, 0));
    while i < groups.len()
        invariant
            i <= groups@.len(),
            r@.map_values(|i: usize| i as int) == kept(groups@, i as int),
        decreases groups@.len() - i,
    {
        let ghost before = r@;
        if is_all_clear(&groups[i]) {
            r.push(i);
            assert(r@.map_values(|i: usize| i as int) =~= before.map_values(|i: usize| i as int).push(
                i as int,
            ));
        }
        i += 1;
    }
    r
}

proof fn lemma_kept(groups: Seq<Vec<bool>>, n: int, g: int)
    requires
        0 <= n <= groups.len(),
    ensures
        kept(groups, n).contains(g) <==> 0 <= g < n && all_clear(groups[g]@),
    decreases n,
{
    if n > 0 {
        lemma_kept(groups, n - 1, g);
        let (a, b) = (kept(groups, n - 1), kept(groups, n));
        if all_clear(groups[n - 1]@) {
            assert(b[a.len() as int] == n - 1);
            if a.contains(g) {
                let i = choose|i: int| 0 <= i < a.len() && a[i] == g;
                assert(b[i] == g);
            }
            if b.contains(g) && g != n - 1 {
                let i = choose|i: int| 0 <= i < b.len() && b[i] == g;
                assert(a[i] == g);
            }
        }
    }
}

/// A group is kept if and only if all its members are clear: no part of it goes without the rest.
pub proof fn lemma_groups_stay_whole(groups: Seq<Vec<bool>>, g: int)
    requires
        0 <= g < groups.len(),
    ensures
        kept(groups, groups.len() as int).contains(g) <==> all_clear(groups[g]@),
{
    lemma_kept(groups, groups.len() as int, g);
}

/// Whether a farm fits a place that is wet or not, with ground around it that is, and so much relief.
pub open spec fn fits_farm(wet: bool, around: Seq<bool>, relief: u64, max_relief: u64) -> bool {
    !wet && (forall|i: int| 0 <= i < around.len() ==> !#[trigger] around[i]) && ieee::le64(relief, max_relief)
}

/// Whether a place is fit for a farm: not wet, dry all around, and level enough.
pub fn site_fits(wet: bool, around: &Vec<bool>, relief: u64, max_relief: u64) -> (r: bool)
    ensures
        r == fits_farm(wet, around@, relief, max_relief),
{
    if wet || !ieee::is_le64(relief, max_relief) {
        return false;
    }
    let mut i: usize = 0;
    while i < around.len()
        invariant
            i <= around@.len(),
            forall|j: int| 0 <= j < i ==> !#[trigger] around@[j],
        decreases around@.len() - i,
    {
        if around[i] {
            return false;
        }
        i += 1;
    }
    true
}

/// Whether one of some distances is below `spacing`.
pub open spec fn any_within(near: Seq<u64>, spacing: u64) -> bool {
    exists|i: int| 0 <= i < near.len() && ieee::lt64(#[trigger] near[i], spacing)
}

fn is_any_within(near: &Vec<u64>, spacing: u64) -> (r: bool)
    ensures
        r == any_within(near@, spacing),
{
    let mut i: usize = 0;
    while i < near.len()
        invariant
            i <= near@.len(),
            forall|j: int| 0 <= j < i ==> !ieee::lt64(#[trigger] near@[j], spacing),
        decreases near@.len() - i,
    {
        if ieee::is_lt64(near[i], spacing) {
            return true;
        }
        i += 1;
    }
    false
}

/// The farm sites among candidates that are offered one after the other.
#[derive(Clone, Debug)]
pub struct Sites {
    chosen: Vec<usize>,
    offered: usize,
}

impl View for Sites {
    type V = Seq<usize>;

    /// The chosen candidates, by their place in the order of the offers.
    closed spec fn view(&self) -> Seq<usize> {
        self.chosen@
    }
}

impl Sites {
    /// How many candidates have been offered.
    pub closed spec fn offers(&self) -> usize {
        self.offered
    }

    pub fn new() -> (s: Sites)
        ensures
            s@ == Seq::<usize>::empty(),
            s.offers() == 0,
    {
        Sites { chosen: Vec::new(), offered: 0 }
    }

    /// Offers the next candidate: it is chosen where it fits and is not closer than `spacing` to one
    /// already chosen. `near` are its distances from those.
    pub fn offer(&mut self, near: &Vec<u64>, spacing: u64, fit: bool) -> (chosen: bool)
        requires
            near@.len() == old(self)@.len(),
            old(self).offers() < usize::MAX,
        ensures
            chosen == (fit && !any_within(near@, spacing)),
            final(self).offers() == old(self).offers() + 1,
            final(self)@ == if chosen {
                old(self)@.push(old(self).offers())
            } else {
                old(self)@
            },
    {
        let k: usize = self.offered;
        self.offered = k + 1;
        if !fit || is_any_within(near, spacing) {
            return false;
        }
        self.chosen.push(k);
        true
    }

    pub fn chosen(&self) -> (r: &Vec<usize>)
        ensures
            r@ == self@,
    {
        &self.chosen
    }
}

/// Whether a chosen candidate is closer than `spacing` to candidate `k`; `d` are the distances.
pub open spec fn crowded(
    d: spec_fn(int, int) -> u64,
    spacing: u64,
    chosen: Seq<usize>,
    k: int,
) -> bool {
    exists|i: int| 0 <= i < chosen.len() && ieee::lt64(d(k, #[trigger] chosen[i] as int), spacing)
}

/// The candidates before `k` that are taken in turn: those that fit and are not crowded by the ones
/// already taken.
pub open spec fn chosen_before(
    d: spec_fn(int, int) -> u64,
    spacing: u64,
    fit: spec_fn(int) -> bool,
    k: int,
) -> Seq<usize>
    decreases k,
{
    if k <= 0 {
        Seq::empty()
    } else {
        let before = chosen_before(d, spacing, fit, k - 1);
        if fit(k - 1) && !crowded(d, spacing, before, k - 1) {
            before.push((k - 1) as usize)
        } else {
            before
        }
    }
}

/// Offering every candidate with its distances from the chosen ones takes them in turn: an offer to
/// what the first `k` candidates left, as [`Sites::offer`] answers it, leaves what `k + 1` do.
pub proof fn lemma_offers_take_in_turn(
    d: spec_fn(int, int) -> u64,
    spacing: u64,
    fit: spec_fn(int) -> bool,
    k: usize,
    near: Seq<u64>,
)
    requires
        near.len() == chosen_before(d, spacing, fit, k as int).len(),
        forall|i: int|
            0 <= i < near.len() ==> #[trigger] near[i] == d(
                k as int,
                chosen_before(d, spacing, fit, k as int)[i] as int,
            ),
    ensures
        chosen_before(d, spacing, fit, k + 1) == if fit(k as int) && !any_within(near, spacing) {
            chosen_before(d, spacing, fit, k as int).push(k)
        } else {
            chosen_before(d, spacing, fit, k as int)
        },
{
    let before = chosen_before(d, spacing, fit, k as int);
    if any_within(near, spacing) {
        let i = choose|i: int| 0 <= i < near.len() && ieee::lt64(#[trigger] near[i], spacing);
        assert(ieee::lt64(d(k as int, before[i] as int), spacing));
    }
    if crowded(d, spacing, before, k as int) {
        let i = choose|i: int|
            0 <= i < before.len() && ieee::lt64(d(k as int, #[trigger] before[i] as int), spacing);
        assert(ieee::lt64(near[i], spacing));
    }
}

proof fn lemma_chosen(
    d: spec_fn(int, int) -> u64,
    spacing: u64,
    fit: spec_fn(int) -> bool,
    k: int,
)
    requires
        0 <= k <= usize::MAX,
    ensures
        forall|i: int|
            0 <= i < chosen_before(d, spacing, fit, k).len() ==> {
                let c = #[trigger] chosen_before(d, spacing, fit, k)[i];
                c < k && fit(c as int)
            },
        forall|i: int, j: int|
            0 <= i < j < chosen_before(d, spacing, fit, k).len() ==> {
                &&& #[trigger] chosen_before(d, spacing, fit, k)[i] < #[trigger] chosen_before(
                    d,
                    spacing,
                    fit,
                    k,
                )[j]
                &&& !ieee::lt64(
                    d(
                        chosen_before(d, spacing, fit, k)[j] as int,
                        chosen_before(d, spacing, fit, k)[i] as int,
                    ),
                    spacing,
                )
            },
    decreases k,
{
    if k > 0 {
        lemma_chosen(d, spacing, fit, k - 1);
        let before = chosen_before(d, spacing, fit, k - 1);
        if fit(k - 1) && !crowded(d, spacing, before, k - 1) {
            let now = before.push((k - 1) as usize);
            assert forall|i: int, j: int| 0 <= i < j < now.len() implies {
                &&& #[trigger] now[i] < #[trigger] now[j]
                &&& !ieee::lt64(d(now[j] as int, now[i] as int), spacing)
            } by {
                if j == before.len() {
                    assert(!ieee::lt64(d(k - 1, before[i] as int), spacing));
                }
            }
        }
    }
}

/// Farms fit their sites and keep `spacing` from each other.
pub proof fn lemma_farms_are_spaced(
    d: spec_fn(int, int) -> u64,
    spacing: u64,
    fit: spec_fn(int) -> bool,
    n: usize,
    i: int,
    j: int,
)
    requires
        0 <= i < j < chosen_before(d, spacing, fit, n as int).len(),
    ensures
        ({
            let s = chosen_before(d, spacing, fit, n as int);
            &&& fit(s[i] as int)
            &&& fit(s[j] as int)
            &&& s[i] < s[j] < n
            &&& !ieee::lt64(d(s[j] as int, s[i] as int), spacing)
        }),
{
    lemma_chosen(d, spacing, fit, n as int);
}

proof fn lemma_chosen_grows(
    d: spec_fn(int, int) -> u64,
    spacing: u64,
    fit: spec_fn(int) -> bool,
    a: int,
    b: int,
)
    requires
        0 <= a <= b,
    ensures
        chosen_before(d, spacing, fit, a).is_prefix_of(chosen_before(d, spacing, fit, b)),
    decreases b,
{
    if a < b {
        lemma_chosen_grows(d, spacing, fit, a, b - 1);
    }
}

/// No fit candidate is left out without reason: it is too close to a farm.
pub proof fn lemma_farms_fill_the_map(
    d: spec_fn(int, int) -> u64,
    spacing: u64,
    fit: spec_fn(int) -> bool,
    n: usize,
    k: usize,
)
    requires
        k < n,
        fit(k as int),
    ensures
        ({
            let s = chosen_before(d, spacing, fit, n as int);
            s.contains(k) || crowded(d, spacing, s, k as int)
        }),
{
    let s = chosen_before(d, spacing, fit, n as int);
    let before = chosen_before(d, spacing, fit, k as int);
    lemma_chosen_grows(d, spacing, fit, k as int, n as int);
    lemma_chosen_grows(d, spacing, fit, k + 1, n as int);
    if crowded(d, spacing, before, k as int) {
        let i = choose|i: int|
            0 <= i < before.len() && ieee::lt64(d(k as int, #[trigger] before[i] as int), spacing);
        assert(s[i] == before[i]);
    } else {
        let now = chosen_before(d, spacing, fit, k + 1);
        assert(now[before.len() as int] == k);
        assert(s[before.len() as int] == k);
    }
}

/// Parcels are woods exactly for a draw below their share or on ground that is too steep; of the others
/// the second draw decides, from meadow over crop to plowed land, each up to the sum of the shares.
pub proof fn lemma_shares_are_drawn(
    u_woods: u64,
    woods: u64,
    slope: u64,
    woods_slope: u64,
    u: u64,
    meadow: u64,
    meadow_or_crop: u64,
)
    ensures
        ({
            let kind = kind_of(u_woods, woods, slope, woods_slope, u, meadow, meadow_or_crop);
            let field = ieee::le64(woods, u_woods) && ieee::le64(slope, woods_slope);
            &&& ieee::lt64(u_woods, woods) ==> kind == ParcelKind::Woods
            &&& kind == ParcelKind::Woods ==> ieee::lt64(u_woods, woods) || ieee::lt64(woods_slope, slope)
            &&& field && ieee::lt64(u, meadow) ==> kind == ParcelKind::Meadow
            &&& field && ieee::le64(meadow, u) && ieee::lt64(u, meadow_or_crop) ==> kind == ParcelKind::Crop
            &&& field && ieee::le64(meadow, u) && ieee::le64(meadow_or_crop, u) ==> kind == ParcelKind::Plowed
        }),
{
}

/// Woods have no boundary between them; elsewhere a draw below the share of hedges plants one, a draw
/// behind that up to the shares together puts up a fence, and any other leaves the edge open.
pub proof fn lemma_boundaries_are_drawn(a: ParcelKind, b: ParcelKind, u: u64, hedge: u64, hedge_or_fence: u64)
    requires
        !ieee::nan64(u),
        ieee::le64(hedge, hedge_or_fence),
    ensures
        ({
            let r = boundary_of(a, b, u, hedge, hedge_or_fence);
            let woods = a == ParcelKind::Woods && b == ParcelKind::Woods;
            &&& woods ==> r == Boundary::Open
            &&& r == Boundary::Hedge <==> !woods && ieee::lt64(u, hedge)
            &&& r == Boundary::Fence <==> !woods && ieee::le64(hedge, u) && ieee::lt64(u, hedge_or_fence)
            &&& r == Boundary::Open <==> woods || ieee::le64(hedge_or_fence, u)
        }),
{
}

/// Trees line a road exactly for a draw below the share of such roads, and the second draw picks both
/// sides, the left or the right.
pub proof fn lemma_tree_lines_are_drawn(u: u64, share: u64, u_sides: u64)
    requires
        !ieee::nan64(u),
        !ieee::nan64(share),
        !ieee::nan64(u_sides),
    ensures
        sides_of(u, share, u_sides) != Sides::Neither <==> ieee::lt64(u, share),
        sides_of(u, share, u_sides) == Sides::Both <==> ieee::lt64(u, share) && ieee::lt64(u_sides, BOTH_SIDES),
        sides_of(u, share, u_sides) == Sides::Left <==> ieee::lt64(u, share) && ieee::le64(BOTH_SIDES, u_sides)
            && ieee::lt64(u_sides, LEFT_SIDE),
        sides_of(u, share, u_sides) == Sides::Right <==> ieee::lt64(u, share) && ieee::le64(LEFT_SIDE, u_sides),
{
}

/// Woods get no gate, nor does a field at the rim of the map on either axis or near a farm; every other
/// field does.
pub proof fn lemma_gates_keep_their_distance(kind: ParcelKind, x: u64, y: u64, inner: u64, farms: Seq<u64>, keep: u64)
    ensures
        kind == ParcelKind::Woods ==> !gated(kind, x, y, inner, farms, keep),
        ieee::le64(inner, x) || ieee::le64(inner, y) ==> !gated(kind, x, y, inner, farms, keep),
        forall|i: int|
            0 <= i < farms.len() && ieee::le64(#[trigger] farms[i], keep) ==> !gated(kind, x, y, inner, farms, keep),
        kind != ParcelKind::Woods && ieee::lt64(x, inner) && ieee::lt64(y, inner) && (forall|i: int|
            0 <= i < farms.len() ==> ieee::lt64(keep, #[trigger] farms[i])) ==> gated(kind, x, y, inner, farms, keep),
{
}

/// An obstacle stands nowhere off the map, in water, in the space of a road or too near a yard, and may
/// stand anywhere else; high up it may reach over a road.
pub proof fn lemma_obstacles_keep_clear(p: Place)
    ensures
        p.wet ==> !p.free(),
        p.free() ==> !ieee::lt64(p.footprint[0], p.map[0]) && !ieee::lt64(p.footprint[1], p.map[1]) && !ieee::lt64(
            p.map[2],
            p.footprint[2],
        ) && !ieee::lt64(p.map[3], p.footprint[3]),
        p.free() ==> (p.road matches Some(g) ==> !ieee::lt64(g.distance, g.keep) || !ieee::lt64(g.bottom, g.ceiling)),
        p.free() ==> forall|i: int| 0 <= i < p.yards@.len() ==> !ieee::lt64(#[trigger] p.yards@[i], p.keep),
        !p.wet && ieee::le64(p.map[0], p.footprint[0]) && ieee::le64(p.map[1], p.footprint[1]) && ieee::le64(
            p.footprint[2],
            p.map[2],
        ) && ieee::le64(p.footprint[3], p.map[3]) && (p.road matches Some(g) ==> ieee::le64(g.keep, g.distance)
            || ieee::le64(g.ceiling, g.bottom)) && (forall|i: int|
            0 <= i < p.yards@.len() ==> ieee::le64(p.keep, #[trigger] p.yards@[i])) ==> p.free(),
{
}

/// The squares close to one are those at most two columns and two rows away.
pub proof fn lemma_close_squares(x: int, y: int, gx: int, gy: int, k: int)
    requires
        0 <= x < k,
        0 <= y < k,
    ensures
        close(grid::at(x, y, k), gx, gy, k) <==> -2 <= x - gx <= 2 && -2 <= y - gy <= 2,
{
    grid::lemma_at(x, y, k, k);
}

/// Of two parcels the one at the smaller distance is nearer, whatever their numbers.
pub proof fn lemma_nearer_is_closer(parcel: Seq<usize>, d: Seq<u64>, a: int, b: int)
    requires
        ieee::lt64(d[a], d[b]),
    ensures
        nearer(parcel, d, a, b),
        !nearer(parcel, d, b, a),
{
}

/// A site is taken for fit candidates unless one already taken is closer than the spacing: the first fit
/// candidate is taken, and one that is left out has a farm within the spacing.
pub proof fn lemma_sites_are_left_for_nearness_alone(
    d: spec_fn(int, int) -> u64,
    spacing: u64,
    fit: spec_fn(int) -> bool,
    n: usize,
    k: usize,
)
    requires
        k < n,
        fit(k as int),
    ensures
        ({
            let s = chosen_before(d, spacing, fit, n as int);
            ||| s.contains(k)
            ||| exists|i: int| 0 <= i < s.len() && ieee::lt64(d(k as int, #[trigger] s[i] as int), spacing)
        }),
        (forall|j: int| 0 <= j < k ==> !#[trigger] fit(j)) ==> chosen_before(d, spacing, fit, n as int).contains(k),
{
    lemma_farms_fill_the_map(d, spacing, fit, n, k);
    if forall|j: int| 0 <= j < k ==> !#[trigger] fit(j) {
        lemma_none_chosen(d, spacing, fit, k as int);
        lemma_chosen_grows(d, spacing, fit, k + 1, n as int);
        let (now, s) = (chosen_before(d, spacing, fit, k + 1), chosen_before(d, spacing, fit, n as int));
        assert(now[0] == k);
        assert(s[0] == k);
    }
}

proof fn lemma_none_chosen(d: spec_fn(int, int) -> u64, spacing: u64, fit: spec_fn(int) -> bool, k: int)
    requires
        forall|j: int| 0 <= j < k ==> !#[trigger] fit(j),
    ensures
        chosen_before(d, spacing, fit, k).len() == 0,
    decreases k,
{
    if k > 0 {
        lemma_none_chosen(d, spacing, fit, k - 1);
        assert(!fit(k - 1));
    }
}

/// One distance below the spacing is enough to be too close, and none is needed not to be.
pub proof fn lemma_within_spacing(near: Seq<u64>, spacing: u64)
    ensures
        forall|i: int| 0 <= i < near.len() && ieee::lt64(#[trigger] near[i], spacing) ==> any_within(near, spacing),
        (forall|i: int| 0 <= i < near.len() ==> ieee::le64(spacing, #[trigger] near[i])) ==> !any_within(near, spacing),
{
}

/// Whole groups are kept, in their order.
pub proof fn lemma_kept_groups_are_clear(groups: Seq<Vec<bool>>, n: int)
    requires
        0 <= n <= groups.len(),
    ensures
        forall|i: int|
            0 <= i < kept(groups, n).len() ==> {
                let g = #[trigger] kept(groups, n)[i];
                0 <= g < n && !groups[g]@.contains(false)
            },
        forall|g: int| 0 <= g < n && !(#[trigger] groups[g])@.contains(false) ==> kept(groups, n).contains(g),
        forall|i: int, j: int|
            0 <= i < j < kept(groups, n).len() ==> #[trigger] kept(groups, n)[i] < #[trigger] kept(groups, n)[j],
    decreases n,
{
    if n > 0 {
        lemma_kept_groups_are_clear(groups, n - 1);
        let (before, now) = (kept(groups, n - 1), kept(groups, n));
        let last = groups[n - 1]@;
        if last.contains(false) {
            let i = last.index_of(false);
            assert(!last[i]);
            assert(!all_clear(last));
        } else {
            assert forall|i: int| 0 <= i < last.len() implies #[trigger] last[i] by {
                if !last[i] {
                    assert(last.contains(false));
                }
            }
            assert(all_clear(last));
            assert(now[before.len() as int] == n - 1);
        }
        assert forall|g: int| 0 <= g < n && !(#[trigger] groups[g])@.contains(false) implies now.contains(g) by {
            if g < n - 1 {
                assert(before.contains(g));
                assert(now[before.index_of(g)] == g);
            }
        }
    }
}

/// Two lined roads in five have trees on both sides, three in ten on the left, and three in ten on the right.
pub proof fn lemma_shares_of_tree_lines()
    ensures
        ieee::nearest(BOTH_SIDES, 2, 5),
        ieee::nearest(LEFT_SIDE, 7, 10),
{
    vstd::arithmetic::power2::lemma2_to64();
    vstd::arithmetic::power2::lemma2_to64_rest();
}

/// A farm fits exactly where neither the place nor the ground around it is wet and the relief is not too
/// large.
pub proof fn lemma_farms_fit_dry_and_level_ground(wet: bool, around: Seq<bool>, relief: u64, max_relief: u64)
    ensures
        !fits_farm(true, around, relief, max_relief),
        around.contains(true) ==> !fits_farm(wet, around, relief, max_relief),
        ieee::lt64(max_relief, relief) ==> !fits_farm(wet, around, relief, max_relief),
        !around.contains(true) && ieee::le64(relief, max_relief) ==> fits_farm(false, around, relief, max_relief),
{
    if !around.contains(true) {
        assert forall|i: int| 0 <= i < around.len() implies !#[trigger] around[i] by {
            if around[i] {
                assert(around.contains(true));
            }
        }
    }
}

} // verus!

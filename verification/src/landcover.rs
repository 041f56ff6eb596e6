//! What covers each cell of a map, and how much of each there is.
//!
//! Heights, slopes and limits are the bits of 64-bit numbers.

use vstd::prelude::*;
use vstd::string::StringExecFns;

use crate::ieee;
use crate::material::{MaterialId, MaterialTable};
use crate::roads::RoadClass;
use crate::sorting;
use crate::text;

verus! {

/// Half a metre: shallower water has a sandy bed.
pub const SHALLOW: u64 = 0x3fe0_0000_0000_0000;

/// Marsh forms on slopes below one in twenty.
pub const FLAT: u64 = 0x3fa9_9999_9999_999a;

/// The bed of water of this depth.
pub open spec fn bed(depth: u64) -> MaterialId {
    if ieee::lt64(depth, SHALLOW) {
        MaterialId(MaterialId::SAND)
    } else {
        MaterialId(MaterialId::MUD)
    }
}

fn bed_of(depth: u64) -> (m: MaterialId)
    ensures
        m == bed(depth),
{
    if ieee::is_lt64(depth, SHALLOW) {
        MaterialId(MaterialId::SAND)
    } else {
        MaterialId(MaterialId::MUD)
    }
}

/// One cell of a wild map.
#[derive(Clone, Copy)]
pub struct WildCell {
    /// The depth of the water, if the cell is wet.
    pub depth: Option<u64>,
    /// The height and the tangent of the slope.
    pub z: u64,
    pub slope: u64,
    /// The heights of the snowline and the treeline here.
    pub snowline: u64,
    pub treeline: u64,
    /// The height up to which the shore of a lake nearby reaches.
    pub shore: Option<u64>,
    /// The moisture, and the forest noise with its moisture bonus.
    pub moisture: u64,
    pub forest: u64,
}

/// The limits of the material rules: slopes as tangents.
#[derive(Clone, Copy)]
pub struct WildLimits {
    pub rock: u64,
    pub scree: u64,
    pub snow_max: u64,
    pub marsh_moisture: u64,
    pub forest_threshold: u64,
}

impl WildCell {
    pub open spec fn cover(&self, m: &WildLimits) -> MaterialId {
        if self.depth is Some {
            bed(self.depth->0)
        } else if ieee::lt64(m.rock, self.slope) {
            MaterialId(MaterialId::ROCK)
        } else if ieee::lt64(self.snowline, self.z) && ieee::lt64(self.slope, m.snow_max) {
            MaterialId(MaterialId::SNOW)
        } else if ieee::lt64(self.treeline, self.z) {
            if ieee::lt64(m.scree, self.slope) {
                MaterialId(MaterialId::SCREE)
            } else {
                MaterialId(MaterialId::GRASS)
            }
        } else if self.shore is Some && ieee::lt64(self.z, self.shore->0) {
            MaterialId(MaterialId::SAND)
        } else if ieee::lt64(m.marsh_moisture, self.moisture) && ieee::lt64(self.slope, FLAT) {
            MaterialId(MaterialId::MUD)
        } else if ieee::lt64(m.forest_threshold, self.forest) {
            MaterialId(MaterialId::FOREST_FLOOR)
        } else {
            MaterialId(MaterialId::GRASS)
        }
    }

    /// The material of the cell: water beds, then rock, snow, scree and grass over the treeline,
    /// shores, marsh, and forest.
    pub fn material(&self, m: &WildLimits) -> (r: MaterialId)
        ensures
            r == self.cover(m),
    {
        if let Some(depth) = self.depth {
            return bed_of(depth);
        }
        if ieee::is_lt64(m.rock, self.slope) {
            return MaterialId(MaterialId::ROCK);
        }
        if ieee::is_lt64(self.snowline, self.z) && ieee::is_lt64(self.slope, m.snow_max) {
            return MaterialId(MaterialId::SNOW);
        }
        if ieee::is_lt64(self.treeline, self.z) {
            if ieee::is_lt64(m.scree, self.slope) {
                return MaterialId(MaterialId::SCREE);
            }
            return MaterialId(MaterialId::GRASS);
        }
        if let Some(shore) = self.shore {
            if ieee::is_lt64(self.z, shore) {
                return MaterialId(MaterialId::SAND);
            }
        }
        if ieee::is_lt64(m.marsh_moisture, self.moisture) && ieee::is_lt64(self.slope, FLAT) {
            MaterialId(MaterialId::MUD)
        } else if ieee::is_lt64(m.forest_threshold, self.forest) {
            MaterialId(MaterialId::FOREST_FLOOR)
        } else {
            MaterialId(MaterialId::GRASS)
        }
    }
}

/// What a parcel of farmland holds.
#[derive(Clone, Copy, Debug, PartialEq, Eq, Structural)]
pub enum ParcelKind {
    Meadow,
    Crop,
    Plowed,
    Woods,
}

impl ParcelKind {
    pub open spec fn cover(self) -> MaterialId {
        match self {
            ParcelKind::Meadow => MaterialId(MaterialId::MEADOW),
            ParcelKind::Crop => MaterialId(MaterialId::CROP),
            ParcelKind::Plowed => MaterialId(MaterialId::PLOWED),
            ParcelKind::Woods => MaterialId(MaterialId::FOREST_FLOOR),
        }
    }

    pub fn material(self) -> (m: MaterialId)
        ensures
            m == self.cover(),
    {
        match self {
            ParcelKind::Meadow => MaterialId(MaterialId::MEADOW),
            ParcelKind::Crop => MaterialId(MaterialId::CROP),
            ParcelKind::Plowed => MaterialId(MaterialId::PLOWED),
            ParcelKind::Woods => MaterialId(MaterialId::FOREST_FLOOR),
        }
    }
}

/// The surface of a road.
pub open spec fn surface(class: RoadClass) -> MaterialId {
    match class {
        RoadClass::Paved => MaterialId(MaterialId::ASPHALT),
        RoadClass::Gravel => MaterialId(MaterialId::GRAVEL),
        RoadClass::Track => MaterialId(MaterialId::DIRT),
    }
}

fn surface_of(class: RoadClass) -> (m: MaterialId)
    ensures
        m == surface(class),
{
    match class {
        RoadClass::Paved => MaterialId(MaterialId::ASPHALT),
        RoadClass::Gravel => MaterialId(MaterialId::GRAVEL),
        RoadClass::Track => MaterialId(MaterialId::DIRT),
    }
}

/// One cell of a rural map.
#[derive(Clone, Copy)]
pub struct RuralCell {
    /// The depth of the water, if the cell is wet.
    pub depth: Option<u64>,
    /// The height and the slope (rise over run).
    pub z: u64,
    pub slope: u64,
    /// The height up to which the shore of a lake nearby reaches.
    pub shore: Option<u64>,
    pub moisture: u64,
    /// Whether the cell is inside a yard, and whether it is inside a farm pad.
    pub yard: bool,
    pub pad: bool,
    /// The class of the nearest road within reach, and the distance beyond its edge.
    pub road: Option<(RoadClass, u64)>,
    /// The parcel and the distance to its edge.
    pub parcel: ParcelKind,
    pub edge: u64,
}

/// The limits of the material rules.
#[derive(Clone, Copy)]
pub struct RuralLimits {
    pub rock: u64,
    pub marsh_moisture: u64,
    pub headland: u64,
}

impl RuralCell {
    pub open spec fn on_road(&self) -> bool {
        self.road is Some && ieee::le64((self.road->0).1, 0)
    }

    pub open spec fn cover(&self, m: &RuralLimits) -> MaterialId {
        if self.depth is Some {
            bed(self.depth->0)
        } else if self.yard {
            MaterialId(MaterialId::CONCRETE)
        } else if self.on_road() {
            surface((self.road->0).0)
        } else if ieee::lt64(m.rock, self.slope) {
            MaterialId(MaterialId::ROCK)
        } else if self.shore is Some && ieee::lt64(self.z, self.shore->0) {
            MaterialId(MaterialId::SAND)
        } else if ieee::lt64(m.marsh_moisture, self.moisture) && ieee::lt64(self.slope, FLAT) {
            MaterialId(MaterialId::MUD)
        } else if self.road is Some && ieee::lt64((self.road->0).1, m.headland) || self.pad {
            MaterialId(MaterialId::GRASS)
        } else if ieee::lt64(self.edge, m.headland) && self.parcel != ParcelKind::Woods {
            MaterialId(MaterialId::GRASS)
        } else {
            self.parcel.cover()
        }
    }

    /// The material of the cell: water beds, yards and roads, then rock, shores and marsh, grass
    /// along roads, on pads and along the edges of fields, and what the parcel holds.
    pub fn material(&self, m: &RuralLimits) -> (r: MaterialId)
        ensures
            r == self.cover(m),
    {
        if let Some(depth) = self.depth {
            return bed_of(depth);
        }
        if self.yard {
            return MaterialId(MaterialId::CONCRETE);
        }
        let mut verge: bool = self.pad;
        if let Some((class, beyond)) = self.road {
            if ieee::is_le64(beyond, 0) {
                return surface_of(class);
            }
            if ieee::is_lt64(beyond, m.headland) {
                verge = true;
            }
        }
        if ieee::is_lt64(m.rock, self.slope) {
            return MaterialId(MaterialId::ROCK);
        }
        if let Some(shore) = self.shore {
            if ieee::is_lt64(self.z, shore) {
                return MaterialId(MaterialId::SAND);
            }
        }
        if ieee::is_lt64(m.marsh_moisture, self.moisture) && ieee::is_lt64(self.slope, FLAT) {
            MaterialId(MaterialId::MUD)
        } else if verge || ieee::is_lt64(self.edge, m.headland) && self.parcel != ParcelKind::Woods {
            MaterialId(MaterialId::GRASS)
        } else {
            self.parcel.material()
        }
    }
}

/// How many of the cells have material `id`.
pub open spec fn count_of(cells: Seq<MaterialId>, id: u8) -> nat
    decreases cells.len(),
{
    if cells.len() == 0 {
        0
    } else {
        count_of(cells.drop_last(), id) + if cells.last().0 == id {
            1nat
        } else {
            0
        }
    }
}

proof fn lemma_count_bounded(cells: Seq<MaterialId>, id: u8)
    ensures
        count_of(cells, id) <= cells.len(),
    decreases cells.len(),
{
    if cells.len() > 0 {
        lemma_count_bounded(cells.drop_last(), id);
    }
}

/// How many cells have each material.
pub fn tally(cells: &Vec<MaterialId>) -> (counts: Vec<usize>)
    ensures
        counts@.len() == 256,
        forall|id: u8| #[trigger] counts@[id as int] == count_of(cells@, id),
{
    let n: usize = cells.len();
    let mut counts: Vec<usize> = vec![0; 256];
    let mut i: usize = 0;
    while i < n
        invariant
            i <= n == cells@.len(),
            counts@.len() == 256,
            forall|id: u8| #[trigger] counts@[id as int] == count_of(cells@.take(i as int), id),
        decreases n - i,
    {
        let m: u8 = cells[i].0;
        proof {
            lemma_count_bounded(cells@.take(i as int), m);
            assert(counts@[m as int] == count_of(cells@.take(i as int), m));
            assert(cells@.take(i + 1).drop_last() =~= cells@.take(i as int));
        }
        let c: usize = counts[m as usize];
        counts.set(m as usize, c + 1);
        i += 1;
    }
    assert(cells@.take(n as int) =~= cells@);
    counts
}

/// The name of a material: its name in the table, or its number.
pub open spec fn label(t: &MaterialTable, id: u8) -> Seq<char> {
    if (id as int) < t@.len() {
        t@[id as int].name@
    } else {
        "#"@ + text::decimal_of(id as nat)
    }
}

fn label_of(t: &MaterialTable, id: u8) -> (r: String)
    ensures
        r@ == label(t, id),
{
    if (id as usize) < t.len() {
        let mut s = String::new();
        s.append(t.get(MaterialId(id)).name.as_str());
        assert(s@ =~= label(t, id));
        s
    } else {
        let mut s = "#".to_owned();
        s.append(text::decimal(id as u64).as_str());
        s
    }
}

/// The materials below number `n` that occur, with the number of their cells, in the order of
/// their numbers.
pub open spec fn summary(t: &MaterialTable, cells: Seq<MaterialId>, n: int) -> Seq<(Seq<char>, nat)>
    decreases n,
{
    if n <= 0 {
        Seq::empty()
    } else if count_of(cells, (n - 1) as u8) > 0 {
        summary(t, cells, n - 1).push((label(t, (n - 1) as u8), count_of(cells, (n - 1) as u8)))
    } else {
        summary(t, cells, n - 1)
    }
}

/// A list of names and counts as a sequence of texts and numbers.
pub open spec fn listed(v: Seq<(String, usize)>) -> Seq<(Seq<char>, nat)> {
    v.map_values(|e: (String, usize)| (e.0@, e.1 as nat))
}

/// The materials that occur and how many cells they cover, in the order of their numbers.
pub fn material_counts(t: &MaterialTable, cells: &Vec<MaterialId>) -> (r: Vec<(String, usize)>)
    ensures
        listed(r@) == summary(t, cells@, 256),
{
    let counts = tally(cells);
    let mut r: Vec<(String, usize)> = Vec::new();
    let mut i: usize = 0;
    assert(listed(r@) =~= summary(t, cells@, 0));
    while i < 256
        invariant
            i <= 256,
            counts@.len() == 256,
            forall|id: u8| #[trigger] counts@[id as int] == count_of(cells@, id),
            listed(r@) == summary(t, cells@, i as int),
        decreases 256 - i,
    {
        let c: usize = counts[i];
        assert(counts@[(i as u8) as int] == count_of(cells@, i as u8));
        if c > 0 {
            let ghost before = r@;
            r.push((label_of(t, i as u8), c));
            assert(listed(r@) =~= listed(before).push((label(t, i as u8), c as nat)));
        }
        i += 1;
    }
    r
}

spec fn total_of(cells: Seq<MaterialId>, n: int) -> nat
    decreases n,
{
    if n <= 0 {
        0
    } else {
        total_of(cells, n - 1) + count_of(cells, (n - 1) as u8)
    }
}

/// The sum of the counts in a list.
pub open spec fn sum(s: Seq<(Seq<char>, nat)>) -> nat
    decreases s.len(),
{
    if s.len() == 0 {
        0
    } else {
        sum(s.drop_last()) + s.last().1
    }
}

proof fn lemma_sum_is_total(t: &MaterialTable, cells: Seq<MaterialId>, n: int)
    requires
        0 <= n <= 256,
    ensures
        sum(summary(t, cells, n)) == total_of(cells, n),
    decreases n,
{
    if n > 0 {
        lemma_sum_is_total(t, cells, n - 1);
        let (a, b) = (summary(t, cells, n - 1), summary(t, cells, n));
        if count_of(cells, (n - 1) as u8) > 0 {
            assert(b.drop_last() =~= a);
        }
    }
}

proof fn lemma_total_step(cells: Seq<MaterialId>, n: int)
    requires
        0 <= n <= 256,
        cells.len() > 0,
    ensures
        total_of(cells, n) == total_of(cells.drop_last(), n) + if cells.last().0 < n {
            1nat
        } else {
            0
        },
    decreases n,
{
    if n > 0 {
        lemma_total_step(cells, n - 1);
        assert(((n - 1) as u8) as int == n - 1);
    }
}

proof fn lemma_total_empty(cells: Seq<MaterialId>, n: int)
    requires
        cells.len() == 0,
    ensures
        total_of(cells, n) == 0,
    decreases n,
{
    if n > 0 {
        lemma_total_empty(cells, n - 1);
    }
}

proof fn lemma_total_is_len(cells: Seq<MaterialId>)
    ensures
        total_of(cells, 256) == cells.len(),
    decreases cells.len(),
{
    if cells.len() == 0 {
        lemma_total_empty(cells, 256);
    } else {
        lemma_total_is_len(cells.drop_last());
        lemma_total_step(cells, 256);
    }
}

/// Every cell is counted once: the counts of all materials add up to the number of cells.
pub proof fn lemma_counts_cover_the_map(t: &MaterialTable, cells: Seq<MaterialId>)
    ensures
        sum(summary(t, cells, 256)) == cells.len(),
{
    lemma_sum_is_total(t, cells, 256);
    lemma_total_is_len(cells);
}

/// Whether a material is what some parcel holds.
pub open spec fn grown(m: MaterialId) -> bool {
    m.0 == MaterialId::MEADOW || m.0 == MaterialId::CROP || m.0 == MaterialId::PLOWED || m.0
        == MaterialId::FOREST_FLOOR
}

pub fn is_grown(m: MaterialId) -> (r: bool)
    ensures
        r == grown(m),
{
    m.0 == MaterialId::MEADOW || m.0 == MaterialId::CROP || m.0 == MaterialId::PLOWED || m.0
        == MaterialId::FOREST_FLOOR
}

/// What a parcel holds is recognised as such.
pub proof fn lemma_parcels_grow(kind: ParcelKind)
    ensures
        grown(kind.cover()),
{
}

/// Whether some cell shows what parcel `p` holds.
pub open spec fn shown(cells: Seq<MaterialId>, parcel: Seq<usize>, p: int) -> bool {
    exists|k: int| 0 <= k < cells.len() && parcel[k] == p && grown(#[trigger] cells[k])
}

/// How many of the first `n` parcels are shown.
pub open spec fn shown_below(cells: Seq<MaterialId>, parcel: Seq<usize>, n: int) -> nat
    decreases n,
{
    if n <= 0 {
        0
    } else {
        shown_below(cells, parcel, n - 1) + if shown(cells, parcel, n - 1) {
            1nat
        } else {
            0
        }
    }
}

/// How many of `n` parcels are visible on the map, given the parcel of every cell.
pub fn parcels_shown(cells: &Vec<MaterialId>, parcel: &Vec<usize>, n: usize) -> (count: usize)
    requires
        cells@.len() == parcel@.len(),
        forall|k: int| 0 <= k < parcel@.len() ==> #[trigger] parcel@[k] < n,
    ensures
        count == shown_below(cells@, parcel@, n as int),
{
    let total: usize = cells.len();
    let mut seen: Vec<bool> = vec![false; n];
    let mut k: usize = 0;
    while k < total
        invariant
            k <= total == cells@.len() == parcel@.len(),
            seen@.len() == n,
            forall|j: int| 0 <= j < parcel@.len() ==> #[trigger] parcel@[j] < n,
            forall|p: int|
                0 <= p < n ==> (#[trigger] seen@[p] <==> exists|j: int|
                    0 <= j < k && parcel@[j] == p && grown(#[trigger] cells@[j])),
        decreases total - k,
    {
        let ghost before = seen@;
        if is_grown(cells[k]) {
            let p: usize = parcel[k];
            seen.set(p, true);
        }
        proof {
            assert forall|p: int| 0 <= p < n implies (#[trigger] seen@[p] <==> exists|j: int|
                0 <= j < k + 1 && parcel@[j] == p && grown(#[trigger] cells@[j])) by {
                if before[p] {
                    let j = choose|j: int| 0 <= j < k && parcel@[j] == p && grown(#[trigger] cells@[j]);
                    assert(0 <= j < k + 1 && parcel@[j] == p && grown(cells@[j]));
                }
                if parcel@[k as int] == p && grown(cells@[k as int]) {
                    assert(seen@[p]);
                }
            }
        }
        k += 1;
    }
    let mut count: usize = 0;
    let mut p: usize = 0;
    while p < n
        invariant
            p <= n,
            count <= p,
            seen@.len() == n,
            forall|q: int| 0 <= q < n ==> #[trigger] seen@[q] == shown(cells@, parcel@, q),
            count == shown_below(cells@, parcel@, p as int),
        decreases n - p,
    {
        if seen[p] {
            count += 1;
        }
        p += 1;
    }
    count
}

/// The slope in place `i` of all slopes, lowest first.
pub fn in_place(slopes: &Vec<u32>, i: usize) -> (s: u32)
    requires
        i < slopes@.len(),
    ensures
        s == slopes@.sort_by(sorting::total_le32())[i as int],
{
    proof {
        sorting::lemma_sorted_len(slopes@);
    }
    let sorted = sorting::sorted32(slopes);
    sorted[i]
}

/// Wet cells show only the bed of the water, on every map.
pub proof fn lemma_beds_are_sand_or_mud(w: WildCell, wl: &WildLimits, r: RuralCell, rl: &RuralLimits)
    requires
        w.depth is Some,
        r.depth is Some,
    ensures
        w.cover(wl).0 == MaterialId::SAND || w.cover(wl).0 == MaterialId::MUD,
        r.cover(rl).0 == MaterialId::SAND || r.cover(rl).0 == MaterialId::MUD,
{
}

/// Every dry cell of a road outside the yards has the surface of its class, whatever the ground
/// under it, and no cell off the roads has one.
pub proof fn lemma_roads_are_surfaced(c: RuralCell, m: &RuralLimits)
    requires
        c.depth is None,
        !c.yard,
    ensures
        c.on_road() ==> c.cover(m) == surface((c.road->0).0),
        !c.on_road() ==> forall|class: RoadClass| c.cover(m) != #[trigger] surface(class),
{
}

/// Water is shallow over sand and deep over mud, and hides whatever else the cell is.
pub proof fn lemma_water_hides_the_ground(a: WildCell, al: &WildLimits, b: RuralCell, bl: &RuralLimits, depth: u64)
    requires
        a.depth == Some(depth),
        b.depth == Some(depth),
    ensures
        a.cover(al) == b.cover(bl),
        a.cover(al).0 == MaterialId::SAND <==> ieee::lt64(depth, SHALLOW),
        a.cover(al).0 == MaterialId::MUD <==> !ieee::lt64(depth, SHALLOW),
{
}

/// Dry ground of a wild map is rock exactly where it is too steep for anything else, and snow exactly
/// where it is not, lies over the snowline and is not too steep for snow.
pub proof fn lemma_rock_and_snow(c: WildCell, m: &WildLimits)
    ensures
        c.cover(m).0 == MaterialId::ROCK <==> c.depth is None && ieee::lt64(m.rock, c.slope),
        c.cover(m).0 == MaterialId::SNOW <==> c.depth is None && !ieee::lt64(m.rock, c.slope) && ieee::lt64(
            c.snowline,
            c.z,
        ) && ieee::lt64(c.slope, m.snow_max),
{
}

/// Scree lies only over the treeline, and there every slope between those of scree and rock without
/// snow is scree, and every gentler one grass: neither shores, marsh nor forest reach up there.
pub proof fn lemma_scree_lies_over_the_treeline(c: WildCell, m: &WildLimits)
    ensures
        c.cover(m).0 == MaterialId::SCREE ==> ieee::lt64(c.treeline, c.z) && ieee::lt64(m.scree, c.slope),
        c.cover(m).0 == MaterialId::FOREST_FLOOR ==> !ieee::lt64(c.treeline, c.z),
        c.depth is None && ieee::lt64(c.treeline, c.z) && !ieee::lt64(m.rock, c.slope) && !(ieee::lt64(
            c.snowline,
            c.z,
        ) && ieee::lt64(c.slope, m.snow_max)) ==> c.cover(m).0 == if ieee::lt64(m.scree, c.slope) {
            MaterialId::SCREE
        } else {
            MaterialId::GRASS
        },
{
}

/// Dry ground up to the treeline that is neither rock nor snow: shores are sand, flat and moist ground
/// behind them is mud, and of the rest that with enough forest is forest floor, and no other.
pub proof fn lemma_forest_grows_up_to_the_treeline(c: WildCell, m: &WildLimits)
    requires
        c.depth is None,
        !ieee::lt64(c.treeline, c.z),
        !ieee::lt64(m.rock, c.slope),
        !ieee::lt64(c.snowline, c.z) || !ieee::lt64(c.slope, m.snow_max),
    ensures
        ({
            let shore = c.shore matches Some(s) && ieee::lt64(c.z, s);
            let marsh = ieee::lt64(m.marsh_moisture, c.moisture) && ieee::lt64(c.slope, FLAT);
            &&& c.cover(m).0 == MaterialId::SAND <==> shore
            &&& c.cover(m).0 == MaterialId::MUD <==> !shore && marsh
            &&& c.cover(m).0 == MaterialId::FOREST_FLOOR <==> !shore && !marsh && ieee::lt64(m.forest_threshold, c.forest)
            &&& c.cover(m).0 == MaterialId::GRASS <==> !shore && !marsh && !ieee::lt64(m.forest_threshold, c.forest)
        }),
{
}

/// Dry cells inside a yard are concrete, and no others; dry cells on a road outside the yards have its
/// surface, which tells the class.
pub proof fn lemma_yards_and_roads(c: RuralCell, m: &RuralLimits)
    requires
        c.depth is None,
    ensures
        c.cover(m).0 == MaterialId::CONCRETE <==> c.yard,
        ({
            let on = |class: RoadClass| !c.yard && (c.road matches Some((k, beyond)) && k == class && ieee::le64(beyond, 0));
            &&& c.cover(m).0 == MaterialId::ASPHALT <==> on(RoadClass::Paved)
            &&& c.cover(m).0 == MaterialId::GRAVEL <==> on(RoadClass::Gravel)
            &&& c.cover(m).0 == MaterialId::DIRT <==> on(RoadClass::Track)
        }),
{
}

/// Dry ground of a rural map off yards and roads: steep ground is rock, then shores are sand, then flat
/// and moist ground is mud. Pads, the verges of roads and the edges of fields are grass, and the rest is
/// what the parcel holds; woods have no edge.
pub proof fn lemma_fields_off_the_roads(c: RuralCell, m: &RuralLimits)
    requires
        c.depth is None,
        !c.yard,
        c.road matches Some((_, beyond)) ==> !ieee::le64(beyond, 0),
    ensures
        ({
            let rock = ieee::lt64(m.rock, c.slope);
            let shore = c.shore matches Some(s) && ieee::lt64(c.z, s);
            let marsh = ieee::lt64(m.marsh_moisture, c.moisture) && ieee::lt64(c.slope, FLAT);
            let verge = c.pad || (c.road matches Some((_, beyond)) && ieee::lt64(beyond, m.headland));
            let edge = ieee::lt64(c.edge, m.headland) && c.parcel != ParcelKind::Woods;
            let open = !rock && !shore && !marsh;
            &&& c.cover(m).0 == MaterialId::ROCK <==> rock
            &&& c.cover(m).0 == MaterialId::SAND <==> !rock && shore
            &&& c.cover(m).0 == MaterialId::MUD <==> !rock && !shore && marsh
            &&& c.cover(m).0 == MaterialId::GRASS <==> open && (verge || edge)
            &&& c.cover(m).0 == MaterialId::MEADOW <==> open && !verge && !edge && c.parcel == ParcelKind::Meadow
            &&& c.cover(m).0 == MaterialId::CROP <==> open && !verge && !edge && c.parcel == ParcelKind::Crop
            &&& c.cover(m).0 == MaterialId::PLOWED <==> open && !verge && !edge && c.parcel == ParcelKind::Plowed
            &&& c.cover(m).0 == MaterialId::FOREST_FLOOR <==> open && !verge && c.parcel == ParcelKind::Woods
        }),
{
}

/// Counting is additive: the cells of two parts of a map are those of one and of the other, and one
/// cell counts for its own material alone.
pub proof fn lemma_counts_add_up(a: Seq<MaterialId>, b: Seq<MaterialId>, id: u8)
    ensures
        count_of(a + b, id) == count_of(a, id) + count_of(b, id),
        forall|m: MaterialId| #[trigger] count_of(seq![m], id) == (if m.0 == id {
            1int
        } else {
            0
        }),
    decreases b.len(),
{
    assert forall|m: MaterialId| #[trigger] count_of(seq![m], id) == (if m.0 == id {
        1int
    } else {
        0
    }) by {
        assert(seq![m].drop_last() =~= Seq::<MaterialId>::empty());
        assert(count_of(Seq::<MaterialId>::empty(), id) == 0);
    }
    if b.len() == 0 {
        assert(a + b =~= a);
    } else {
        lemma_counts_add_up(a, b.drop_last(), id);
        assert((a + b).drop_last() =~= a + b.drop_last());
    }
}

/// What occurs is listed with its number of cells: a material with cells has its entry, and every
/// entry is that of a material with cells.
pub proof fn lemma_summary_lists_what_occurs(t: &MaterialTable, cells: Seq<MaterialId>, n: int)
    requires
        0 <= n <= 256,
    ensures
        forall|id: u8|
            id < n && #[trigger] count_of(cells, id) > 0 ==> summary(t, cells, n).contains(
                (label(t, id), count_of(cells, id)),
            ),
        forall|i: int|
            0 <= i < summary(t, cells, n).len() ==> exists|id: u8|
                #![trigger count_of(cells, id)]
                id < n && count_of(cells, id) > 0 && #[trigger] summary(t, cells, n)[i] == (
                    label(t, id),
                    count_of(cells, id),
                ),
    decreases n,
{
    if n > 0 {
        lemma_summary_lists_what_occurs(t, cells, n - 1);
        let (before, now) = (summary(t, cells, n - 1), summary(t, cells, n));
        let last = (n - 1) as u8;
        assert forall|id: u8| id < n && #[trigger] count_of(cells, id) > 0 implies now.contains(
            (label(t, id), count_of(cells, id)),
        ) by {
            let e = (label(t, id), count_of(cells, id));
            if id == last {
                assert(now[before.len() as int] == e);
            } else {
                assert(before.contains(e));
                let i = before.index_of(e);
                assert(now[i] == e);
            }
        }
        assert forall|i: int| 0 <= i < now.len() implies exists|id: u8|
            #![trigger count_of(cells, id)]
            id < n && count_of(cells, id) > 0 && #[trigger] now[i] == (label(t, id), count_of(cells, id)) by {
            if i < before.len() {
                assert(now[i] == before[i]);
                let id = choose|id: u8|
                    #![trigger count_of(cells, id)]
                    id < n - 1 && count_of(cells, id) > 0 && before[i] == (label(t, id), count_of(cells, id));
                assert(count_of(cells, id) > 0);
            } else {
                assert(count_of(cells, last) > 0);
            }
        }
    }
}

/// What is grown is what parcels hold, and nothing else; no two kinds of parcel look the same.
pub proof fn lemma_grown_is_what_parcels_hold(m: MaterialId, a: ParcelKind, b: ParcelKind)
    ensures
        grown(m) <==> exists|k: ParcelKind| #[trigger] k.cover() == m,
        a.cover() == b.cover() ==> a == b,
{
    assert(ParcelKind::Meadow.cover().0 == MaterialId::MEADOW);
    assert(ParcelKind::Crop.cover().0 == MaterialId::CROP);
    assert(ParcelKind::Plowed.cover().0 == MaterialId::PLOWED);
    assert(ParcelKind::Woods.cover().0 == MaterialId::FOREST_FLOOR);
    if grown(m) {
        assert(ParcelKind::Meadow.cover() == m || ParcelKind::Crop.cover() == m || ParcelKind::Plowed.cover() == m
            || ParcelKind::Woods.cover() == m);
    }
}

/// Water is shallow up to half a metre, and marsh needs slopes below one in twenty.
pub proof fn lemma_limits_of_water_and_marsh()
    ensures
        ieee::nearest(SHALLOW, 1, 2),
        ieee::nearest(FLAT, 1, 20),
{
    vstd::arithmetic::power2::lemma2_to64();
    vstd::arithmetic::power2::lemma2_to64_rest();
}

/// A parcel is shown exactly if a cell of its own shows something grown, and parcels are counted one by
/// one.
pub proof fn lemma_shown_parcels_are_counted(cells: Seq<MaterialId>, parcel: Seq<usize>, n: int)
    requires
        0 <= n,
    ensures
        shown_below(cells, parcel, n) <= n,
        shown_below(cells, parcel, n + 1) - shown_below(cells, parcel, n) == (if exists|k: int|
            0 <= k < cells.len() && parcel[k] == n && grown(#[trigger] cells[k]) {
            1int
        } else {
            0
        }),
        (forall|k: int| 0 <= k < cells.len() ==> !grown(#[trigger] cells[k])) ==> shown_below(cells, parcel, n) == 0,
    decreases n,
{
    if n > 0 {
        lemma_shown_parcels_are_counted(cells, parcel, n - 1);
    }
}

} // verus!

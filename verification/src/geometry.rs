//! What queries of the static world can hit.

use vstd::prelude::*;

use crate::ieee;

verus! {

/// What a ray or contact query hit.
#[derive(Clone, Copy, Debug, PartialEq, Eq, Structural)]
pub enum HitKind {
    Terrain,
    Water,
    /// A solid obstacle with its index.
    Solid(u32),
    /// Penetrable foliage with its obstacle index.
    Foliage(u32),
    /// Another agent.
    Agent(u32),
}

/// The set of [`HitKind`] classes that a query considers, one bit each. The constants are the bits
/// of the classes and of common sets.
#[derive(Clone, Copy, Debug, PartialEq, Eq, Structural, Hash)]
pub struct HitMask(pub u8);

impl HitMask {
    pub const NONE: u8 = 0;

    pub const TERRAIN: u8 = 1;

    pub const WATER: u8 = 2;

    pub const SOLID: u8 = 4;

    pub const FOLIAGE: u8 = 8;

    pub const AGENTS: u8 = 16;

    pub const ALL: u8 = 31;

    /// Everything that a body can rest on or collide with.
    pub const COLLIDABLE: u8 = 5;

    /// Whether bit `i` is set.
    pub open spec fn bit(self, i: u8) -> bool {
        (self.0 >> i) & 1 == 1
    }

    /// Whether every class of `other` is in this set.
    pub open spec fn covers(self, other: HitMask) -> bool {
        forall|i: u8| i < 8 && #[trigger] other.bit(i) ==> self.bit(i)
    }

    /// Whether every class of `other` is in this set.
    pub fn contains(self, other: HitMask) -> (r: bool)
        ensures
            r == self.covers(other),
    {
        let (a, b): (u8, u8) = (self.0, other.0);
        proof {
            if a & b == b {
                assert forall|i: u8| i < 8 && #[trigger] other.bit(i) implies self.bit(i) by {
                    assert((a >> i) & 1 == 1) by (bit_vector)
                        requires
                            a & b == b,
                            i < 8,
                            (b >> i) & 1 == 1,
                    ;
                }
            } else {
                assert(exists|i: u8| i < 8 && #[trigger] other.bit(i) && !self.bit(i)) by {
                    let i = lemma_missing_bit(a, b);
                    assert(other.bit(i) && !self.bit(i));
                }
            }
        }
        a & b == b
    }

    /// Whether the two sets have a class in common.
    pub fn intersects(self, other: HitMask) -> (r: bool)
        ensures
            r <==> exists|i: u8| i < 8 && #[trigger] other.bit(i) && self.bit(i),
    {
        let (a, b): (u8, u8) = (self.0, other.0);
        proof {
            if a & b != 0 {
                let i = lemma_common_bit(a, b);
                assert(other.bit(i) && self.bit(i));
            } else {
                assert forall|i: u8| i < 8 && #[trigger] other.bit(i) implies !self.bit(i) by {
                    assert((a >> i) & 1 != 1) by (bit_vector)
                        requires
                            a & b == 0,
                            i < 8,
                            (b >> i) & 1 == 1,
                    ;
                }
            }
        }
        a & b != 0
    }

    /// The class of a hit.
    pub fn of(kind: HitKind) -> (r: HitMask)
        ensures
            r == class_of(kind),
    {
        match kind {
            HitKind::Terrain => HitMask(HitMask::TERRAIN),
            HitKind::Water => HitMask(HitMask::WATER),
            HitKind::Solid(_) => HitMask(HitMask::SOLID),
            HitKind::Foliage(_) => HitMask(HitMask::FOLIAGE),
            HitKind::Agent(_) => HitMask(HitMask::AGENTS),
        }
    }
}

/// The classes of both sets.
impl std::ops::BitOr for HitMask {
    type Output = HitMask;

    fn bitor(self, rhs: HitMask) -> (r: HitMask) {
        HitMask(self.0 | rhs.0)
    }
}

impl vstd::std_specs::ops::BitOrSpecImpl for HitMask {
    open spec fn obeys_bitor_spec() -> bool {
        true
    }

    open spec fn bitor_req(self, rhs: HitMask) -> bool {
        true
    }

    open spec fn bitor_spec(self, rhs: HitMask) -> HitMask {
        HitMask(self.0 | rhs.0)
    }
}

/// A union holds the classes of both sets and no others.
pub proof fn lemma_union_bits(a: HitMask, b: HitMask, i: u8)
    requires
        i < 8,
    ensures
        HitMask(a.0 | b.0).bit(i) == (a.bit(i) || b.bit(i)),
{
    let (x, y) = (a.0, b.0);
    assert((((x | y) >> i) & 1 == 1) == ((x >> i) & 1 == 1 || (y >> i) & 1 == 1)) by (bit_vector)
        requires
            i < 8,
    ;
}

/// The class of a hit.
pub open spec fn class_of(kind: HitKind) -> HitMask {
    match kind {
        HitKind::Terrain => HitMask(1),
        HitKind::Water => HitMask(2),
        HitKind::Solid(_) => HitMask(4),
        HitKind::Foliage(_) => HitMask(8),
        HitKind::Agent(_) => HitMask(16),
    }
}

proof fn lemma_missing_bit(a: u8, b: u8) -> (i: u8)
    requires
        a & b != b,
    ensures
        i < 8,
        (b >> i) & 1 == 1,
        (a >> i) & 1 != 1,
{
    assert(((b >> 0) & 1 == 1 && (a >> 0) & 1 != 1) || ((b >> 1) & 1 == 1 && (a >> 1) & 1 != 1) || ((b
        >> 2) & 1 == 1 && (a >> 2) & 1 != 1) || ((b >> 3) & 1 == 1 && (a >> 3) & 1 != 1) || ((b >> 4)
        & 1 == 1 && (a >> 4) & 1 != 1) || ((b >> 5) & 1 == 1 && (a >> 5) & 1 != 1) || ((b >> 6) & 1
        == 1 && (a >> 6) & 1 != 1) || ((b >> 7) & 1 == 1 && (a >> 7) & 1 != 1)) by (bit_vector)
        requires
            a & b != b,
    ;
    choose|i: u8| i < 8 && (b >> i) & 1 == 1 && (a >> i) & 1 != 1
}

proof fn lemma_common_bit(a: u8, b: u8) -> (i: u8)
    requires
        a & b != 0,
    ensures
        i < 8,
        (b >> i) & 1 == 1,
        (a >> i) & 1 == 1,
{
    assert(((b >> 0) & 1 == 1 && (a >> 0) & 1 == 1) || ((b >> 1) & 1 == 1 && (a >> 1) & 1 == 1) || ((b
        >> 2) & 1 == 1 && (a >> 2) & 1 == 1) || ((b >> 3) & 1 == 1 && (a >> 3) & 1 == 1) || ((b >> 4)
        & 1 == 1 && (a >> 4) & 1 == 1) || ((b >> 5) & 1 == 1 && (a >> 5) & 1 == 1) || ((b >> 6) & 1
        == 1 && (a >> 6) & 1 == 1) || ((b >> 7) & 1 == 1 && (a >> 7) & 1 == 1)) by (bit_vector)
        requires
            a & b != 0,
    ;
    choose|i: u8| i < 8 && (b >> i) & 1 == 1 && (a >> i) & 1 == 1
}

/// Every class is one bit, and two hits share a class exactly if they are of the same kind: the
/// sets that queries take select hits by kind.
pub proof fn lemma_classes_are_distinct_bits(a: HitKind, b: HitKind)
    ensures
        class_of(a).0 & class_of(b).0 != 0 <==> class_of(a) == class_of(b),
        class_of(a).0 & 31 == class_of(a).0,
{
    assert(1u8 & 1 == 1 && 2u8 & 2 == 2 && 4u8 & 4 == 4 && 8u8 & 8 == 8 && 16u8 & 16 == 16)
        by (bit_vector);
    assert(1u8 & 2 == 0 && 1u8 & 4 == 0 && 1u8 & 8 == 0 && 1u8 & 16 == 0 && 2u8 & 4 == 0 && 2u8 & 8
        == 0 && 2u8 & 16 == 0 && 4u8 & 8 == 0 && 4u8 & 16 == 0 && 8u8 & 16 == 0) by (bit_vector);
    assert(2u8 & 1 == 0 && 4u8 & 1 == 0 && 8u8 & 1 == 0 && 16u8 & 1 == 0 && 4u8 & 2 == 0 && 8u8 & 2
        == 0 && 16u8 & 2 == 0 && 8u8 & 4 == 0 && 16u8 & 4 == 0 && 16u8 & 8 == 0) by (bit_vector);
    assert(1u8 & 31 == 1 && 2u8 & 31 == 2 && 4u8 & 31 == 4 && 8u8 & 31 == 8 && 16u8 & 31 == 16)
        by (bit_vector);
}

/// A hit along a ray.
#[derive(Clone, Copy, Debug, PartialEq, Eq, Structural)]
pub struct RayHit {
    /// Distance along the ray, as the bits of a 64-bit number.
    pub toi: u64,
    pub kind: HitKind,
    /// The material that was hit.
    pub material: u8,
}

impl RayHit {
    /// The closer of two optional hits; the first where neither is closer.
    pub fn closest(a: Option<RayHit>, b: Option<RayHit>) -> (r: Option<RayHit>)
        ensures
            r == closer(a, b),
    {
        match (a, b) {
            (Some(x), Some(y)) => Some(
                if ieee::is_lt64(y.toi, x.toi) {
                    y
                } else {
                    x
                },
            ),
            (x, None) => x,
            (None, y) => y,
        }
    }
}

/// The closer of two optional hits; the first where neither is closer.
pub open spec fn closer(a: Option<RayHit>, b: Option<RayHit>) -> Option<RayHit> {
    if a is None {
        b
    } else if b is None {
        a
    } else if ieee::lt64(b->0.toi, a->0.toi) {
        b
    } else {
        a
    }
}

/// The order in which hits are merged does not matter.
pub proof fn lemma_closest_is_associative(a: Option<RayHit>, b: Option<RayHit>, c: Option<RayHit>)
    requires
        a matches Some(h) ==> !ieee::nan64(h.toi),
        b matches Some(h) ==> !ieee::nan64(h.toi),
        c matches Some(h) ==> !ieee::nan64(h.toi),
    ensures
        closer(closer(a, b), c) == closer(a, closer(b, c)),
{
}

/// Geometry without obstacles.
#[derive(Clone, Copy, Debug, Default, PartialEq, Eq, Structural)]
pub struct NoObstacles;

impl NoObstacles {
    /// No ray hits anything.
    pub fn raycast(&self, mask: HitMask) -> (r: Option<RayHit>)
        ensures
            r is None,
    {
        None
    }

    /// No obstacle overlaps any box.
    pub fn query_candidates(&self, mask: HitMask, out: &mut Vec<u32>)
        ensures
            final(out)@ == old(out)@,
    {
    }
}

/// The part of a triangle that is closest to a point.
#[derive(Clone, Copy, Debug, PartialEq, Eq, Structural)]
pub enum Region {
    A,
    B,
    C,
    Ab,
    Ac,
    Bc,
    Face,
}

/// What decides which part of triangle `abc` is closest to point `p`, as the bits of 64-bit numbers: the
/// products of the edges from `a` to `b` and to `c` with the offsets of `p` from the corners, the
/// areas against the edges, and the positions along edge `bc`.
#[derive(Clone, Copy, Debug, PartialEq, Eq, Structural)]
pub struct TriangleTest {
    pub ab_ap: u64,
    pub ac_ap: u64,
    pub ab_bp: u64,
    pub ac_bp: u64,
    pub ab_cp: u64,
    pub ac_cp: u64,
    /// Areas against edges `bc`, `ac` and `ab`.
    pub va: u64,
    pub vb: u64,
    pub vc: u64,
    /// How far the foot on `bc` lies from `b` and from `c`.
    pub from_b: u64,
    pub from_c: u64,
}

impl TriangleTest {
    pub open spec fn region_of(&self) -> Region {
        if ieee::le64(self.ab_ap, 0) && ieee::le64(self.ac_ap, 0) {
            Region::A
        } else if ieee::le64(0, self.ab_bp) && ieee::le64(self.ac_bp, self.ab_bp) {
            Region::B
        } else if ieee::le64(self.vc, 0) && ieee::le64(0, self.ab_ap) && ieee::le64(self.ab_bp, 0) {
            Region::Ab
        } else if ieee::le64(0, self.ac_cp) && ieee::le64(self.ab_cp, self.ac_cp) {
            Region::C
        } else if ieee::le64(self.vb, 0) && ieee::le64(0, self.ac_ap) && ieee::le64(self.ac_cp, 0) {
            Region::Ac
        } else if ieee::le64(self.va, 0) && ieee::le64(0, self.from_b) && ieee::le64(0, self.from_c) {
            Region::Bc
        } else {
            Region::Face
        }
    }

    /// The part of the triangle that is closest.
    pub fn region(&self) -> (r: Region)
        ensures
            r == self.region_of(),
    {
        if ieee::is_le64(self.ab_ap, 0) && ieee::is_le64(self.ac_ap, 0) {
            Region::A
        } else if ieee::is_le64(0, self.ab_bp) && ieee::is_le64(self.ac_bp, self.ab_bp) {
            Region::B
        } else if ieee::is_le64(self.vc, 0) && ieee::is_le64(0, self.ab_ap) && ieee::is_le64(self.ab_bp, 0) {
            Region::Ab
        } else if ieee::is_le64(0, self.ac_cp) && ieee::is_le64(self.ab_cp, self.ac_cp) {
            Region::C
        } else if ieee::is_le64(self.vb, 0) && ieee::is_le64(0, self.ac_ap) && ieee::is_le64(self.ac_cp, 0) {
            Region::Ac
        } else if ieee::is_le64(self.va, 0) && ieee::is_le64(0, self.from_b) && ieee::is_le64(0, self.from_c) {
            Region::Bc
        } else {
            Region::Face
        }
    }
}

/// How a ray meets a plane.
#[derive(Clone, Copy, Debug, PartialEq, Eq, Structural)]
pub enum PlaneCrossing {
    Misses,
    /// It starts on or below the plane.
    AtStart,
    /// It comes down to the plane.
    Ahead,
}

/// How a ray meets a plane of the ground, from the height of its start above the plane and how fast it
/// rises.
pub open spec fn crossing_of(mask: HitMask, height: u64, rise: u64) -> PlaneCrossing {
    if !mask.covers(HitMask(HitMask::TERRAIN)) {
        PlaneCrossing::Misses
    } else if ieee::le64(height, 0) {
        PlaneCrossing::AtStart
    } else if ieee::le64(0, rise) {
        PlaneCrossing::Misses
    } else {
        PlaneCrossing::Ahead
    }
}

pub fn plane_crossing(mask: HitMask, height: u64, rise: u64) -> (r: PlaneCrossing)
    ensures
        r == crossing_of(mask, height, rise),
{
    if !mask.contains(HitMask(HitMask::TERRAIN)) {
        PlaneCrossing::Misses
    } else if ieee::is_le64(height, 0) {
        PlaneCrossing::AtStart
    } else if ieee::is_le64(0, rise) {
        PlaneCrossing::Misses
    } else {
        PlaneCrossing::Ahead
    }
}

/// Queries for everything consider every hit, those for nothing none, and those for what a body can
/// collide with terrain and solid obstacles alone.
pub proof fn lemma_common_sets(kind: HitKind)
    ensures
        HitMask(HitMask::ALL).covers(class_of(kind)),
        !HitMask(HitMask::NONE).covers(class_of(kind)),
        HitMask(HitMask::COLLIDABLE).covers(class_of(kind)) <==> kind is Terrain || kind is Solid,
        HitMask(HitMask::TERRAIN).covers(class_of(kind)) <==> kind is Terrain,
        HitMask(HitMask::WATER).covers(class_of(kind)) <==> kind is Water,
        HitMask(HitMask::SOLID).covers(class_of(kind)) <==> kind is Solid,
        HitMask(HitMask::FOLIAGE).covers(class_of(kind)) <==> kind is Foliage,
        HitMask(HitMask::AGENTS).covers(class_of(kind)) <==> kind is Agent,
{
    let c = class_of(kind).0;
    assert forall|i: u8| i < 8 && #[trigger] class_of(kind).bit(i) implies (i == 0 && c == 1) || (i == 1 && c == 2) || (
    i == 2 && c == 4) || (i == 3 && c == 8) || (i == 4 && c == 16) by {
        assert((c == 1 || c == 2 || c == 4 || c == 8 || c == 16) && i < 8 && (c >> i) & 1 == 1 ==> (i == 0 && c == 1) || (
        i == 1 && c == 2) || (i == 2 && c == 4) || (i == 3 && c == 8) || (i == 4 && c == 16)) by (bit_vector);
    }
    let i: u8 = match kind {
        HitKind::Terrain => 0,
        HitKind::Water => 1,
        HitKind::Solid(_) => 2,
        HitKind::Foliage(_) => 3,
        HitKind::Agent(_) => 4,
    };
    assert((1u8 >> 0) & 1 == 1 && (2u8 >> 1) & 1 == 1 && (4u8 >> 2) & 1 == 1 && (8u8 >> 3) & 1 == 1 && (16u8 >> 4) & 1 == 1)
        by (bit_vector);
    assert(class_of(kind).bit(i));
    assert(i <= 4 ==> (31u8 >> i) & 1 == 1 && (0u8 >> i) & 1 == 0 && ((5u8 >> i) & 1 == 1 <==> i == 0 || i == 2) && ((1u8
        >> i) & 1 == 1 <==> i == 0) && ((2u8 >> i) & 1 == 1 <==> i == 1) && ((4u8 >> i) & 1 == 1 <==> i == 2) && ((8u8 >> i)
        & 1 == 1 <==> i == 3) && ((16u8 >> i) & 1 == 1 <==> i == 4)) by (bit_vector);
    assert(HitMask(HitMask::NONE).bit(i) == ((0u8 >> i) & 1 == 1));
    assert(HitMask(HitMask::COLLIDABLE).bit(i) == ((5u8 >> i) & 1 == 1));
    assert(HitMask(HitMask::TERRAIN).bit(i) == ((1u8 >> i) & 1 == 1));
    assert(HitMask(HitMask::WATER).bit(i) == ((2u8 >> i) & 1 == 1));
    assert(HitMask(HitMask::SOLID).bit(i) == ((4u8 >> i) & 1 == 1));
    assert(HitMask(HitMask::FOLIAGE).bit(i) == ((8u8 >> i) & 1 == 1));
    assert(HitMask(HitMask::AGENTS).bit(i) == ((16u8 >> i) & 1 == 1));
}

/// The closest of two hits is one of them and no further away than either; one hit is closer than none.
pub proof fn lemma_closest_is_closest(a: Option<RayHit>, b: Option<RayHit>)
    ensures
        closer(a, b) == a || closer(a, b) == b,
        closer(a, None) == a,
        closer(None, b) == b,
        a matches Some(x) ==> (b matches Some(y) ==> {
            &&& closer(a, b) is Some
            &&& ieee::lt64(x.toi, y.toi) ==> closer(a, b) == a
            &&& ieee::lt64(y.toi, x.toi) ==> closer(a, b) == b
            &&& !ieee::lt64(y.toi, x.toi) ==> closer(a, b) == a
        }),
{
}

/// A point that projects before corner `a` on both edges there is closest to `a`, and only such a point.
/// A corner is closest only to points beyond it, an edge only to points beside it, and the inside to
/// points that lie beyond no corner and no edge; a point beyond one of them is closest to that one.
pub proof fn lemma_regions_hold_their_points(t: TriangleTest)
    ensures
        ({
            let beyond_a = ieee::le64(t.ab_ap, 0) && ieee::le64(t.ac_ap, 0);
            let beyond_b = ieee::le64(0, t.ab_bp) && ieee::le64(t.ac_bp, t.ab_bp);
            let beyond_c = ieee::le64(0, t.ac_cp) && ieee::le64(t.ab_cp, t.ac_cp);
            let beside_ab = ieee::le64(t.vc, 0) && ieee::le64(0, t.ab_ap) && ieee::le64(t.ab_bp, 0);
            let beside_ac = ieee::le64(t.vb, 0) && ieee::le64(0, t.ac_ap) && ieee::le64(t.ac_cp, 0);
            let beside_bc = ieee::le64(t.va, 0) && ieee::le64(0, t.from_b) && ieee::le64(0, t.from_c);
            &&& t.region_of() == Region::A <==> beyond_a
            &&& t.region_of() == Region::B ==> beyond_b
            &&& t.region_of() == Region::C ==> beyond_c
            &&& t.region_of() == Region::Ab ==> beside_ab
            &&& t.region_of() == Region::Ac ==> beside_ac
            &&& t.region_of() == Region::Bc ==> beside_bc
            &&& t.region_of() == Region::Face <==> !beyond_a && !beyond_b && !beyond_c && !beside_ab && !beside_ac
                && !beside_bc
            &&& beyond_b && !beyond_a ==> t.region_of() == Region::B
            &&& beyond_c && !beyond_a && !beyond_b && !beside_ab ==> t.region_of() == Region::C
            &&& beside_ab && !beyond_a && !beyond_b ==> t.region_of() == Region::Ab
            &&& beside_ac && !beyond_a && !beyond_b && !beyond_c && !beside_ab ==> t.region_of() == Region::Ac
        }),
{
}

/// A ray that looks for terrain meets the ground where it starts unless it starts above it, and from
/// above exactly if it comes down; a ray that does not look for terrain never does.
pub proof fn lemma_rays_meet_the_ground(mask: HitMask, height: u64, rise: u64)
    ensures
        !mask.bit(0) ==> crossing_of(mask, height, rise) == PlaneCrossing::Misses,
        mask.bit(0) && ieee::le64(height, 0) ==> crossing_of(mask, height, rise) == PlaneCrossing::AtStart,
        mask.bit(0) && ieee::lt64(0, height) && ieee::lt64(rise, 0) ==> crossing_of(mask, height, rise)
            == PlaneCrossing::Ahead,
        mask.bit(0) && ieee::lt64(0, height) && ieee::le64(0, rise) ==> crossing_of(mask, height, rise)
            == PlaneCrossing::Misses,
{
    let t = HitMask(HitMask::TERRAIN);
    assert((1u8 >> 0) & 1 == 1) by (bit_vector);
    assert(t.bit(0));
    assert forall|i: u8| i < 8 && #[trigger] t.bit(i) implies i == 0 by {
        assert(i < 8 && (1u8 >> i) & 1 == 1 ==> i == 0) by (bit_vector);
    }
}

} // verus!

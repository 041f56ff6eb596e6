//! Conversions between the frame of the world and the frame of the viewer.
//!
//! The world has x east, y north and z up. The viewer is right-handed with y up and z backward, so
//! that `(x, y, z)` of the world is `(x, z, -y)` there. The change of axes is a rotation: the axis of a
//! rotation maps like a vector, and its angle stays. Components are the bits of 32-bit numbers.

use vstd::prelude::*;

use crate::ieee;

verus! {

/// A vector or an axis of the world, in the viewer.
pub open spec fn to_viewer(v: (u32, u32, u32)) -> (u32, u32, u32) {
    (v.0, v.2, ieee::negated32(v.1))
}

/// A vector or an axis of the viewer, in the world.
pub open spec fn to_world(v: (u32, u32, u32)) -> (u32, u32, u32) {
    (v.0, ieee::negated32(v.2), v.1)
}

/// A vector of the world, in the viewer.
pub fn enu_to_bevy_vec(v: [u32; 3]) -> (r: [u32; 3])
    ensures
        (r[0], r[1], r[2]) == to_viewer((v[0], v[1], v[2])),
{
    [v[0], v[2], ieee::negate32(v[1])]
}

/// A vector of the viewer, in the world.
pub fn bevy_to_enu_vec(v: [u32; 3]) -> (r: [u32; 3])
    ensures
        (r[0], r[1], r[2]) == to_world((v[0], v[1], v[2])),
{
    [v[0], ieee::negate32(v[2]), v[1]]
}

/// A rotation of the world, in the viewer, as a quaternion with its scalar part last.
pub fn enu_to_bevy_quat(q: [u32; 4]) -> (r: [u32; 4])
    ensures
        (r[0], r[1], r[2]) == to_viewer((q[0], q[1], q[2])),
        r[3] == q[3],
{
    [q[0], q[2], ieee::negate32(q[1]), q[3]]
}

/// A rotation of the viewer, in the world, as a quaternion with its scalar part last.
pub fn bevy_to_enu_quat(q: [u32; 4]) -> (r: [u32; 4])
    ensures
        (r[0], r[1], r[2]) == to_world((q[0], q[1], q[2])),
        r[3] == q[3],
{
    [q[0], ieee::negate32(q[2]), q[1], q[3]]
}

/// The two conversions undo each other.
pub proof fn lemma_frames_round_trip(v: (u32, u32, u32))
    ensures
        to_world(to_viewer(v)) == v,
        to_viewer(to_world(v)) == v,
{
    ieee::lemma_negation_mirrors(v.1);
    ieee::lemma_negation_mirrors(v.2);
}

/// East stays east, what is up in the world is up in the viewer, and north lies ahead of it, where its z
/// axis is negative; back in the world likewise.
pub proof fn lemma_axes_map(v: (u32, u32, u32))
    ensures
        to_viewer(v).0 == v.0,
        to_viewer(v).1 == v.2,
        ieee::rank32(to_viewer(v).2) == -ieee::rank32(v.1),
        to_world(v).0 == v.0,
        to_world(v).2 == v.1,
        ieee::rank32(to_world(v).1) == -ieee::rank32(v.2),
{
}

} // verus!

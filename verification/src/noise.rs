//! The integer side of gradient noise: which gradient a lattice point has, and the seeds of the
//! octaves of a fractal sum.

use vstd::prelude::*;

use crate::ieee;

verus! {

/// The number of gradient directions.
pub const GRADIENTS: u64 = 24;

/// The step between the seeds of octaves, an odd number.
pub const OCTAVE_STEP: u64 = 0x9e37_79b9_7f4a_7c15;

/// What undoes a multiplication by [`OCTAVE_STEP`].
const OCTAVE_STEP_INVERSE: u64 = 0xf1de_83e1_9937_733d;

/// The seed of a noise layer scrambled with a lattice point.
pub open spec fn scrambled(seed: u64, i: i64, j: i64) -> u64 {
    let h = seed ^ (i as u64).wrapping_mul(0x5205_402b_9270_c86f) ^ (j as u64).wrapping_mul(
        0x598c_d327_0038_17b5,
    );
    h.wrapping_mul(0x53a3_f72d_eec5_46f5)
}

/// The direction that a scrambled seed picks: its low half, mixed with its high half, scaled to the
/// number of directions.
pub open spec fn direction(h: u64) -> int {
    ((h ^ (h >> 32)) & 0xffff_ffff) * GRADIENTS / 0x1_0000_0000
}

/// The direction of the gradient at lattice point `(i, j)`.
pub fn gradient(seed: u64, i: i64, j: i64) -> (r: usize)
    ensures
        r == direction(scrambled(seed, i, j)),
        r < GRADIENTS,
{
    let a: u64 = #[verifier::truncate]
    (i as u64);
    let b: u64 = #[verifier::truncate]
    (j as u64);
    let h: u64 = (seed ^ a.wrapping_mul(0x5205_402b_9270_c86f) ^ b.wrapping_mul(0x598c_d327_0038_17b5));
    let h: u64 = h.wrapping_mul(0x53a3_f72d_eec5_46f5);
    let low: u64 = (h ^ (h >> 32)) & 0xffff_ffff;
    assert(low <= 0xffff_ffff) by (bit_vector)
        requires
            low == (h ^ (h >> 32)) & 0xffff_ffff,
    ;
    (low * GRADIENTS / 0x1_0000_0000) as usize
}

/// The step to the second corner: along the larger offset.
pub open spec fn corner_step(x: u64, y: u64) -> (i64, i64) {
    if ieee::lt64(y, x) {
        (1i64, 0i64)
    } else {
        (0i64, 1i64)
    }
}

/// The lattice step from the first to the second corner of the triangle that holds a point, given
/// its offsets from the first corner.
pub fn second_corner(x: u64, y: u64) -> (r: (i64, i64))
    ensures
        r == corner_step(x, y),
{
    if ieee::is_lt64(y, x) {
        (1, 0)
    } else {
        (0, 1)
    }
}

/// Parameters of a fractal sum: `octaves` layers, each `lacunarity` times finer and `gain` times
/// weaker than the previous one.
#[derive(Clone, Copy, Debug, PartialEq, Eq, Structural)]
pub struct Fractal {
    pub octaves: u32,
    pub lacunarity: u64,
    pub gain: u64,
}

impl Fractal {
    /// Twice as fine and half as strong per octave.
    pub fn new(octaves: u32) -> (f: Fractal)
        ensures
            f == (Fractal { octaves, lacunarity: 0x4000_0000_0000_0000, gain: 0x3fe0_0000_0000_0000 }),
    {
        Fractal { octaves, lacunarity: 0x4000_0000_0000_0000, gain: 0x3fe0_0000_0000_0000 }
    }

    pub open spec fn valid(&self) -> bool {
        &&& 1 <= self.octaves <= 16
        &&& ieee::lt64(0x3ff0_0000_0000_0000, self.lacunarity)
        &&& ieee::lt64(0, self.gain)
        &&& ieee::lt64(self.gain, 0x3ff0_0000_0000_0000)
    }

    /// Whether there are 1 to 16 octaves, a lacunarity above 1 and a gain between 0 and 1.
    pub fn is_valid(&self) -> (r: bool)
        ensures
            r == self.valid(),
    {
        1 <= self.octaves && self.octaves <= 16 && ieee::is_lt64(0x3ff0_0000_0000_0000, self.lacunarity)
            && ieee::is_lt64(0, self.gain) && ieee::is_lt64(self.gain, 0x3ff0_0000_0000_0000)
    }
}

impl Default for Fractal {
    fn default() -> (f: Fractal)
        ensures
            f == (Fractal { octaves: 5, lacunarity: 0x4000_0000_0000_0000, gain: 0x3fe0_0000_0000_0000 }),
    {
        Fractal::new(5)
    }
}

/// The seed of octave `o`.
pub open spec fn octave_of(seed: u64, o: u32) -> int {
    (seed + (o * OCTAVE_STEP) % 0x1_0000_0000_0000_0000) % 0x1_0000_0000_0000_0000
}

/// The seed of octave `o`.
pub fn octave_seed(seed: u64, o: u32) -> (s: u64)
    ensures
        s == octave_of(seed, o),
{
    seed.wrapping_add((o as u64).wrapping_mul(OCTAVE_STEP))
}

/// No two octaves of a sum share their seed.
pub proof fn lemma_octaves_differ(seed: u64, a: u32, b: u32)
    requires
        octave_of(seed, a) == octave_of(seed, b),
    ensures
        a == b,
{
    let m = 0x1_0000_0000_0000_0000int;
    let (k, v) = (OCTAVE_STEP as int, OCTAVE_STEP_INVERSE as int);
    let (x, y) = ((a * k) % m, (b * k) % m);
    assert(x == y);
    lemma_undone(a as int);
    lemma_undone(b as int);
}

proof fn lemma_undone(a: int)
    requires
        0 <= a < 0x1_0000_0000,
    ensures
        (((a * OCTAVE_STEP) % 0x1_0000_0000_0000_0000) * OCTAVE_STEP_INVERSE) % 0x1_0000_0000_0000_0000 == a,
{
    let m = 0x1_0000_0000_0000_0000int;
    let (k, v) = (OCTAVE_STEP as int, OCTAVE_STEP_INVERSE as int);
    vstd::arithmetic::div_mod::lemma_mul_mod_noop_left(a * k, v, m);
    assert((a * k) * v == a * (k * v)) by (nonlinear_arith);
    let q = (k * v) / m;
    assert(k * v == q * m + 1);
    assert(a * (q * m + 1) == (a * q) * m + a) by (nonlinear_arith);
    vstd::arithmetic::div_mod::lemma_mod_multiples_vanish(a * q, a, m);
    assert(m * (a * q) == (a * q) * m) by (nonlinear_arith);
    vstd::arithmetic::div_mod::lemma_small_mod(a as nat, m as nat);
}

/// The first octave has the seed of the layer, and each further one a fixed step more.
pub proof fn lemma_octaves_step(seed: u64, o: u32)
    requires
        o < u32::MAX,
    ensures
        octave_of(seed, 0) == seed,
        octave_of(seed, (o + 1) as u32) == (octave_of(seed, o) + OCTAVE_STEP) % 0x1_0000_0000_0000_0000,
{
    lemma_stepped(seed as int, o as int, OCTAVE_STEP as int);
    assert(0 * OCTAVE_STEP == 0);
}

proof fn lemma_stepped(seed: int, o: int, step: int)
    ensures
        ({
            let m = 0x1_0000_0000_0000_0000int;
            (seed + ((o + 1) * step) % m) % m == ((seed + (o * step) % m) % m + step) % m
        }),
{
    let m = 0x1_0000_0000_0000_0000int;
    let a = o * step;
    vstd::arithmetic::mul::lemma_mul_is_distributive_add_other_way(step, o, 1);
    assert((o + 1) * step == a + step);
    vstd::arithmetic::div_mod::lemma_add_mod_noop_right(seed, a + step, m);
    vstd::arithmetic::div_mod::lemma_add_mod_noop_right(seed, a, m);
    vstd::arithmetic::div_mod::lemma_add_mod_noop_right(step, seed + a, m);
}

/// A fractal sum has 1 to 16 octaves, each finer and weaker than the one before, but not nothing.
pub proof fn lemma_valid_fractals(f: Fractal)
    ensures
        f.valid() <==> 1 <= f.octaves <= 16 && 0x3ff0_0000_0000_0000 < ieee::rank64(f.lacunarity) <= ieee::INFINITY64 && 0
            < ieee::rank64(f.gain) < 0x3ff0_0000_0000_0000,
{
}

/// Each direction has its share of the scrambled seeds: those with a given high half are spread over the
/// directions in blocks of equal size, give or take one.
pub proof fn lemma_directions_are_shared_out(h: u64, d: int)
    requires
        0 <= d < GRADIENTS,
    ensures
        direction(h) == d <==> d * 0x1_0000_0000 <= ((h ^ (h >> 32)) & 0xffff_ffff) * GRADIENTS < (d + 1)
            * 0x1_0000_0000,
{
}

/// The second corner lies one step away along the axis with the larger offset, whichever comes first.
pub proof fn lemma_second_corner_lies_along_the_larger_offset(x: u64, y: u64)
    ensures
        ieee::lt64(y, x) ==> corner_step(x, y) == (1i64, 0i64) && corner_step(y, x) == (0i64, 1i64),
        ieee::lt64(x, y) ==> corner_step(x, y) == (0i64, 1i64) && corner_step(y, x) == (1i64, 0i64),
        corner_step(x, y).0 + corner_step(x, y).1 == 1,
        corner_step(x, x) == (0i64, 1i64),
{
}

} // verus!

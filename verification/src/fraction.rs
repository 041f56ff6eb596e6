//! Fractions with denominator 2⁵³ as the bits of 64-bit numbers.

use vstd::arithmetic::power2;
use vstd::prelude::*;

use crate::ieee;

verus! {

/// The implicit leading bit of a mantissa.
pub const LEADING: u64 = 0x10_0000_0000_0000;

/// Whether `b` are the bits of `x / 2⁵³`: its mantissa is `x` moved up by `k` bits until its
/// leading bit is in place, and its exponent makes up for that.
pub open spec fn denotes(b: u64, x: int, k: nat) -> bool {
    &&& LEADING <= x * power2::pow2(k) < 2 * LEADING
    &&& b == (1022 - k) * LEADING + (x * power2::pow2(k) - LEADING)
}

/// Whether `b` are the bits of `x / 2⁵³`, a number in `[0, 1)`.
pub open spec fn fraction(b: u64, x: int) -> bool {
    if x == 0 {
        b == 0
    } else {
        exists|k: nat| k <= 52 && #[trigger] denotes(b, x, k)
    }
}

/// The bits of `x / 2⁵³`.
pub fn fraction_bits(x: u64) -> (b: u64)
    requires
        x < 2 * LEADING,
    ensures
        fraction(b, x as int),
{
    if x == 0 {
        return 0;
    }
    let mut m: u64 = x;
    let mut k: u64 = 0;
    proof {
        power2::lemma2_to64();
        assert(x * 1 == x);
    }
    while m < LEADING
        invariant
            0 < x,
            0 < m < 2 * LEADING,
            m == x * power2::pow2(k as nat),
            k <= 52,
            power2::pow2(k as nat) <= m,
        decreases 2 * LEADING - m,
    {
        proof {
            power2::lemma2_to64();
            power2::lemma_pow2_adds(k as nat, 1);
            assert(x * (power2::pow2(k as nat) * 2) == (x * power2::pow2(k as nat)) * 2) by (nonlinear_arith);
            assert(k < 52) by {
                if k == 52 {
                    assert(power2::pow2(52) == LEADING) by {
                        power2::lemma2_to64_rest();
                    }
                }
            }
        }
        m = 2 * m;
        k = k + 1;
    }
    proof {
        assert((1022 - k) * LEADING <= 1022 * LEADING) by (nonlinear_arith)
            requires
                0 <= k <= 52,
        ;
        assert(0 <= (1022 - k) * LEADING) by (nonlinear_arith)
            requires
                0 <= k <= 52,
        ;
    }
    let b: u64 = (1022 - k) * LEADING + (m - LEADING);
    assert(denotes(b, x as int, k as nat));
    b
}

/// The bits order fractions as the fractions themselves.
pub proof fn lemma_fractions_ordered(a: u64, x: int, b: u64, y: int)
    requires
        fraction(a, x),
        fraction(b, y),
        0 <= x < y < 2 * LEADING,
    ensures
        ieee::lt64(a, b),
        ieee::le64(0, a),
        ieee::lt64(b, 0x3ff0_0000_0000_0000),
{
    let k = choose|k: nat| k <= 52 && #[trigger] denotes(b, y, k);
    assert((1022 - k) * LEADING <= 1022 * LEADING) by (nonlinear_arith)
        requires
            0 <= k <= 52,
    ;
    assert((1022 - k) * LEADING >= 970 * LEADING) by (nonlinear_arith)
        requires
            0 <= k <= 52,
    ;
    if x > 0 {
        let j = choose|j: nat| j <= 52 && #[trigger] denotes(a, x, j);
        assert((1022 - j) * LEADING >= 970 * LEADING) by (nonlinear_arith)
            requires
                0 <= j <= 52,
        ;
        if j == k {
            power2::lemma_pow2_pos(k);
            assert(x * power2::pow2(k) < y * power2::pow2(k)) by (nonlinear_arith)
                requires
                    x < y,
                    0 < power2::pow2(k),
            ;
        } else if j > k {
            assert((1022 - j) * LEADING + LEADING <= (1022 - k) * LEADING) by (nonlinear_arith)
                requires
                    k < j,
            ;
        } else {
            let d = (k - j) as nat;
            power2::lemma_pow2_adds(j, d);
            power2::lemma_pow2_pos(j);
            power2::lemma2_to64();
            power2::lemma_pow2_strictly_increases(0, d);
            assert(power2::pow2(d) >= 2) by {
                if d > 1 {
                    power2::lemma_pow2_strictly_increases(1, d);
                }
            }
            assert(y * (power2::pow2(j) * power2::pow2(d)) >= 2 * (x * power2::pow2(j))) by (nonlinear_arith)
                requires
                    0 < x < y,
                    0 < power2::pow2(j),
                    2 <= power2::pow2(d),
            ;
            assert(false);
        }
    }
}

} // verus!

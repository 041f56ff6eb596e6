//! Integer simulation time.
//!
//! Time is a count of physics ticks, so rates that divide the physics rate stay aligned for ever.

use vstd::prelude::*;
use vstd::string::StringExecFns;

use crate::text;

verus! {

/// A physics clock: fixed rate and current tick.
#[derive(Clone, Copy, Debug, PartialEq, Eq, Structural)]
pub struct Clock {
    /// Physics rate (Hz).
    pub physics_hz: u32,
    pub tick: u64,
}

/// A rate that does not evenly divide the physics rate.
#[derive(Clone, Debug, PartialEq, Eq)]
pub struct RateError {
    pub what: String,
    pub rate_hz: u32,
    pub physics_hz: u32,
}

impl RateError {
    /// The error as a sentence.
    pub fn message(&self) -> (r: String)
        ensures
            r@ == "rate "@ + text::decimal_of(self.rate_hz as nat) + " Hz for `"@ + self.what@
                + "` must evenly divide the physics rate "@ + text::decimal_of(
                self.physics_hz as nat,
            ) + " Hz"@,
    {
        let mut s = "rate ".to_owned();
        s.append(text::decimal(self.rate_hz as u64).as_str());
        s.append(" Hz for `");
        s.append(self.what.as_str());
        s.append("` must evenly divide the physics rate ");
        s.append(text::decimal(self.physics_hz as u64).as_str());
        s.append(" Hz");
        s
    }
}

/// Whether a component can run at `rate_hz` under a clock at `physics_hz`.
pub open spec fn divides(rate_hz: u32, physics_hz: u32) -> bool {
    0 < rate_hz <= physics_hz && physics_hz % rate_hz == 0
}

impl Clock {
    /// A clock at tick 0.
    pub fn new(physics_hz: u32) -> (c: Clock)
        requires
            physics_hz > 0,
        ensures
            c.physics_hz == physics_hz,
            c.tick == 0,
    {
        Clock { physics_hz, tick: 0 }
    }

    /// Goes on by one tick.
    pub fn advance(&mut self)
        requires
            old(self).tick < u64::MAX,
        ensures
            final(self).tick == old(self).tick + 1,
            final(self).physics_hz == old(self).physics_hz,
    {
        self.tick += 1;
    }

    /// The number of ticks between runs of a component at `rate_hz`, which must divide the
    /// physics rate.
    pub fn divider(&self, what: &str, rate_hz: u32) -> (r: Result<u32, RateError>)
        ensures
            r is Ok <==> divides(rate_hz, self.physics_hz),
            r matches Ok(d) ==> d == self.physics_hz / rate_hz && d >= 1,
            r matches Err(e) ==> e.what@ == what@ && e.rate_hz == rate_hz && e.physics_hz
                == self.physics_hz,
    {
        if rate_hz == 0 || rate_hz > self.physics_hz || self.physics_hz % rate_hz != 0 {
            return Err(RateError { what: what.to_owned(), rate_hz, physics_hz: self.physics_hz });
        }
        let d: u32 = self.physics_hz / rate_hz;
        proof {
            lemma_whole_divider(self.physics_hz, rate_hz);
        }
        Ok(d)
    }

    /// Whether a component with the given divider runs in this tick; with divider 0, in tick 0
    /// alone.
    pub fn is_due(&self, divider: u32) -> (due: bool)
        ensures
            due == due_at(self.tick as int, divider as int),
    {
        if divider == 0 {
            self.tick == 0
        } else {
            self.tick % divider as u64 == 0
        }
    }
}

/// Whether a component with the given divider runs in a tick.
pub open spec fn due_at(tick: int, divider: int) -> bool {
    if divider == 0 {
        tick == 0
    } else {
        tick % divider == 0
    }
}

/// How often a component with the given divider runs in the ticks from `from` up to `to`.
pub open spec fn runs(from: int, to: int, divider: int) -> int
    decreases to - from,
{
    if to <= from {
        0
    } else {
        runs(from, to - 1, divider) + if due_at(to - 1, divider) {
            1int
        } else {
            0int
        }
    }
}

/// The runs between two ticks are the difference of those before each of them.
proof fn lemma_runs(from: int, to: int, d: int)
    requires
        0 <= from <= to,
        d >= 1,
    ensures
        runs(from, to, d) == (to + d - 1) / d - (from + d - 1) / d,
    decreases to - from,
{
    if from < to {
        let t = to - 1;
        lemma_runs(from, t, d);
        let (k, r) = (t / d, t % d);
        vstd::arithmetic::div_mod::lemma_fundamental_div_mod(t, d);
        vstd::arithmetic::div_mod::lemma_mod_division_less_than_divisor(t, d);
        vstd::arithmetic::mul::lemma_mul_is_distributive_add(d, k, 1);
        vstd::arithmetic::mul::lemma_mul_is_commutative(d, k);
        vstd::arithmetic::mul::lemma_mul_is_commutative(d, k + 1);
        vstd::arithmetic::div_mod::lemma_fundamental_div_mod_converse(to + d - 1, d, k + 1, r);
        if r == 0 {
            vstd::arithmetic::div_mod::lemma_fundamental_div_mod_converse(t + d - 1, d, k, d - 1);
        } else {
            vstd::arithmetic::div_mod::lemma_fundamental_div_mod_converse(t + d - 1, d, k + 1, r - 1);
        }
    }
}

/// A component whose rate divides the physics rate runs exactly `rate_hz` times in a second,
/// whichever tick the second starts at.
pub proof fn lemma_rates_are_kept(physics_hz: u32, rate_hz: u32, tick: int)
    requires
        divides(rate_hz, physics_hz),
        0 <= tick,
    ensures
        runs(tick, tick + physics_hz, (physics_hz / rate_hz) as int) == rate_hz,
{
    let (p, q) = (physics_hz as int, rate_hz as int);
    let d = p / q;
    lemma_whole_divider(physics_hz, rate_hz);
    lemma_runs(tick, tick + p, d);
    let m = tick + d - 1;
    vstd::arithmetic::div_mod::lemma_fundamental_div_mod(m, d);
    vstd::arithmetic::div_mod::lemma_mod_division_less_than_divisor(m, d);
    assert(m + p == (m / d + q) * d + m % d) by (nonlinear_arith)
        requires
            p == d * q,
            m == d * (m / d) + m % d,
    ;
    vstd::arithmetic::div_mod::lemma_fundamental_div_mod_converse(m + p, d, m / d + q, m % d);
}

/// A rate that divides the physics rate does so without a remainder.
proof fn lemma_whole_divider(physics_hz: u32, rate_hz: u32)
    requires
        divides(rate_hz, physics_hz),
    ensures
        physics_hz == (physics_hz / rate_hz) * rate_hz,
        physics_hz / rate_hz >= 1,
{
    let (p, q) = (physics_hz as int, rate_hz as int);
    let d = p / q;
    vstd::arithmetic::div_mod::lemma_fundamental_div_mod(p, q);
    assert(p == d * q) by (nonlinear_arith)
        requires
            p == q * d + p % q,
            p % q == 0,
    ;
    assert(d >= 1) by (nonlinear_arith)
        requires
            p == d * q,
            p >= q,
            q > 0,
    ;
}

/// After whole seconds a component whose rate divides the physics rate is aligned again: the ticks
/// at which it runs in the second that starts at tick `s · physics_hz` are the multiples of its
/// divider.
pub proof fn lemma_rates_stay_aligned(physics_hz: u32, rate_hz: u32, s: int, k: int)
    requires
        divides(rate_hz, physics_hz),
        0 <= s,
        0 <= k < physics_hz,
    ensures
        due_at(s * physics_hz + k, (physics_hz / rate_hz) as int) <==> k % (physics_hz / rate_hz) as int
            == 0,
{
    let (p, q) = (physics_hz as int, rate_hz as int);
    let d = p / q;
    lemma_whole_divider(physics_hz, rate_hz);
    assert(s * p == d * (s * q)) by (nonlinear_arith)
        requires
            p == d * q,
    ;
    vstd::arithmetic::div_mod::lemma_mod_multiples_vanish(s * q, k, d);
}

/// A component can run at the rates of which the physics rate is a whole multiple.
pub proof fn lemma_rates_divide(rate_hz: u32, physics_hz: u32)
    ensures
        divides(rate_hz, physics_hz) <==> rate_hz > 0 && exists|d: int| d >= 1 && physics_hz == #[trigger] (rate_hz * d),
{
    let (p, q) = (physics_hz as int, rate_hz as int);
    if divides(rate_hz, physics_hz) {
        lemma_whole_divider(physics_hz, rate_hz);
        let d = p / q;
        assert(p == q * d) by (nonlinear_arith)
            requires
                p == d * q,
        ;
        assert(physics_hz == rate_hz * d);
    }
    if rate_hz > 0 && exists|d: int| d >= 1 && physics_hz == #[trigger] (rate_hz * d) {
        let d = choose|d: int| d >= 1 && physics_hz == #[trigger] (rate_hz * d);
        assert(q <= q * d) by (nonlinear_arith)
            requires
                d >= 1,
                q > 0,
        ;
        vstd::arithmetic::mul::lemma_mul_is_commutative(q, d);
        vstd::arithmetic::div_mod::lemma_mod_multiples_basic(d, q);
    }
}

/// A component runs at the multiples of its divider, and with divider 0 at the first tick alone.
pub proof fn lemma_runs_are_multiples(tick: int, divider: int)
    requires
        0 <= tick,
        0 <= divider,
    ensures
        due_at(tick, divider) <==> exists|k: int| tick == #[trigger] (k * divider),
        due_at(0, divider),
{
    if divider == 0 {
        assert forall|k: int| #[trigger] (k * divider) == 0 by {
            assert(k * 0 == 0);
        }
        if tick == 0 {
            assert(tick == 0 * divider);
        }
    } else {
        if due_at(tick, divider) {
            vstd::arithmetic::div_mod::lemma_fundamental_div_mod(tick, divider);
            vstd::arithmetic::mul::lemma_mul_is_commutative(divider, tick / divider);
            assert(tick == (tick / divider) * divider);
        }
        if exists|k: int| tick == #[trigger] (k * divider) {
            let k = choose|k: int| tick == #[trigger] (k * divider);
            vstd::arithmetic::div_mod::lemma_mod_multiples_basic(k, divider);
        }
        vstd::arithmetic::div_mod::lemma_small_mod(0, divider as nat);
    }
}

} // verus!

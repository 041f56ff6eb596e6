//! The bookkeeping of the multirotor control cascade: which loops run, which restart, and what gives
//! way when rotors saturate.
//!
//! Numbers are the bits of 64-bit numbers.

use vstd::prelude::*;
use vstd::string::StringExecFns;

use crate::ieee;
use crate::modes::{ActionMode, ControlError, Frame};
use crate::tuning;
use crate::tuning::ControllerConfig;

verus! {

/// What one control step does.
#[derive(Clone, Copy, Debug, PartialEq, Eq, Structural)]
pub struct Step {
    /// The rate integrator restarts.
    pub reset_rate: bool,
    /// The outer loops and the held heading restart.
    pub reset_outer: bool,
    /// The velocity reference restarts.
    pub reset_reference: bool,
    /// The velocity and position loops run.
    pub outer: bool,
    /// Rotor speeds pass through, and no loop runs.
    pub pass_through: bool,
}

/// The loop state that decides what a step does.
#[derive(Clone, Copy, Debug, PartialEq, Eq, Structural)]
pub struct Cascade {
    pub mode: Option<ActionMode>,
    /// Steps since the outer loops last ran, and the number of steps between their runs.
    pub phase: u32,
    pub every: u32,
    /// Frame of the velocity reference.
    pub frame: Option<Frame>,
}

impl Cascade {
    pub open spec fn wf(&self) -> bool {
        0 < self.every && self.phase < self.every
    }

    /// Whether a setpoint in `mode` enters a new mode.
    pub open spec fn enters(&self, mode: ActionMode) -> bool {
        self.mode != Some(mode)
    }

    /// The phase in which a setpoint in `mode` is met.
    pub open spec fn phase_for(&self, mode: ActionMode) -> u32 {
        if self.enters(mode) {
            0
        } else {
            self.phase
        }
    }

    /// The frame of the velocity reference that a setpoint in `mode` meets.
    pub open spec fn frame_for(&self, mode: ActionMode) -> Option<Frame> {
        if self.enters(mode) {
            None
        } else {
            self.frame
        }
    }

    pub open spec fn step_of(&self, mode: ActionMode, frame: Frame) -> Step {
        let outer = self.phase_for(mode) == 0;
        Step {
            reset_rate: self.enters(mode) && (self.mode is None || self.mode == Some(ActionMode::Motors)),
            reset_outer: self.enters(mode),
            reset_reference: mode == ActionMode::Velocity && outer && self.frame_for(mode) != Some(frame),
            outer,
            pass_through: mode == ActionMode::Motors,
        }
    }

    pub open spec fn after(&self, mode: ActionMode, frame: Frame) -> Cascade {
        Cascade {
            mode: Some(mode),
            phase: ((self.phase_for(mode) + 1) % (self.every as int)) as u32,
            every: self.every,
            frame: if mode == ActionMode::Velocity && self.phase_for(mode) == 0 {
                Some(frame)
            } else {
                self.frame_for(mode)
            },
        }
    }

    /// A cascade whose outer loops run every `every` steps.
    pub fn new(every: u32) -> (r: Cascade)
        requires
            0 < every,
        ensures
            r.wf(),
            r == (Cascade { mode: None, phase: 0, every, frame: None }),
    {
        Cascade { mode: None, phase: 0, every, frame: None }
    }

    /// Forgets the mode and the reference.
    pub fn reset(&mut self)
        requires
            old(self).wf(),
        ensures
            final(self).wf(),
            *final(self) == (Cascade { mode: None, phase: 0, every: old(self).every, frame: None }),
    {
        self.mode = None;
        self.phase = 0;
        self.frame = None;
    }

    /// One control step for a setpoint in `mode`, whose velocity, if it gives one, is in `frame`.
    /// Entering a mode restarts the outer loops; the rate integrator carries over unless the rate
    /// loop was bypassed.
    pub fn advance(&mut self, mode: ActionMode, frame: Frame) -> (s: Step)
        requires
            old(self).wf(),
        ensures
            final(self).wf(),
            s == old(self).step_of(mode, frame),
            *final(self) == old(self).after(mode, frame),
    {
        let mut reset_rate: bool = false;
        let mut reset_outer: bool = false;
        let known: bool = match self.mode {
            Some(m) => m == mode,
            None => false,
        };
        if !known {
            reset_rate = match self.mode {
                None => true,
                Some(m) => m == ActionMode::Motors,
            };
            reset_outer = true;
            self.frame = None;
            self.phase = 0;
            self.mode = Some(mode);
        }
        let outer: bool = self.phase == 0;
        self.phase = if self.phase == self.every - 1 {
            0
        } else {
            self.phase + 1
        };
        proof {
            let p = old(self).phase_for(mode) as int;
            if p + 1 == self.every {
                vstd::arithmetic::div_mod::lemma_mod_self_0(self.every as int);
            } else {
                vstd::arithmetic::div_mod::lemma_small_mod((p + 1) as nat, self.every as nat);
            }
        }
        let mut reset_reference: bool = false;
        if mode == ActionMode::Velocity && outer {
            reset_reference = match self.frame {
                Some(f) => f != frame,
                None => true,
            };
            self.frame = Some(frame);
        }
        Step { reset_rate, reset_outer, reset_reference, outer, pass_through: mode == ActionMode::Motors }
    }
}

/// The state after `n` more steps in one mode.
pub open spec fn held(c: Cascade, mode: ActionMode, frame: Frame, n: nat) -> Cascade
    decreases n,
{
    if n == 0 {
        c
    } else {
        held(c, mode, frame, (n - 1) as nat).after(mode, frame)
    }
}

/// While a mode is held, the outer loops run on entering it and then exactly every `every` steps.
pub proof fn lemma_outer_loops_keep_their_rate(c: Cascade, mode: ActionMode, frame: Frame, n: nat)
    requires
        c.wf(),
        c.enters(mode),
    ensures
        held(c, mode, frame, n).wf(),
        held(c, mode, frame, n).step_of(mode, frame).outer <==> n % (c.every as nat) == 0,
{
    lemma_phase(c, mode, frame, n);
}

proof fn lemma_phase(c: Cascade, mode: ActionMode, frame: Frame, n: nat)
    requires
        c.wf(),
        c.enters(mode),
    ensures
        held(c, mode, frame, n).wf(),
        held(c, mode, frame, n).every == c.every,
        held(c, mode, frame, n).phase_for(mode) == n % (c.every as nat),
        n > 0 ==> held(c, mode, frame, n).mode == Some(mode),
    decreases n,
{
    let e = c.every as int;
    if n == 0 {
        vstd::arithmetic::div_mod::lemma_small_mod(0, e as nat);
    } else {
        lemma_phase(c, mode, frame, (n - 1) as nat);
        vstd::arithmetic::div_mod::lemma_add_mod_noop_right(1, n - 1, e);
        vstd::arithmetic::div_mod::lemma_mod_bound((n - 1) % e + 1, e);
        assert((1 + (n - 1) % e) % e == (1 + (n - 1)) % e);
    }
}

/// The rate integrator outlives changes between the modes that use it.
pub proof fn lemma_rate_integrator_carries_over(c: Cascade, mode: ActionMode, frame: Frame)
    requires
        c.mode is Some,
        c.mode != Some(ActionMode::Motors),
    ensures
        !c.step_of(mode, frame).reset_rate,
{
}

/// Which sides of an axis are saturated: those that torque beyond the tolerance is missing on.
pub open spec fn saturated_sides(unallocated: u64, tolerance: u64, minus_tolerance: u64) -> (bool, bool) {
    (ieee::lt64(tolerance, unallocated), ieee::lt64(unallocated, minus_tolerance))
}

/// Whether an axis could not be given more torque one way or the other, from the torque that was not
/// allocated and the tolerance.
pub fn saturation(unallocated: u64, tolerance: u64, minus_tolerance: u64) -> (r: (bool, bool))
    ensures
        r == saturated_sides(unallocated, tolerance, minus_tolerance),
{
    (ieee::is_lt64(tolerance, unallocated), ieee::is_lt64(unallocated, minus_tolerance))
}

/// The part of a rate error that the integrator may take up: none that pushes further into
/// saturation.
pub open spec fn usable(e: u64, sat_pos: bool, sat_neg: bool) -> u64 {
    let a = if sat_pos && !ieee::lt64(e, 0) {
        0
    } else {
        e
    };
    if sat_neg && !ieee::lt64(0, a) {
        0
    } else {
        a
    }
}

pub fn usable_error(e: u64, sat_pos: bool, sat_neg: bool) -> (r: u64)
    ensures
        r == usable(e, sat_pos, sat_neg),
{
    let a: u64 = if sat_pos && !ieee::is_lt64(e, 0) {
        0
    } else {
        e
    };
    if sat_neg && !ieee::is_lt64(0, a) {
        0
    } else {
        a
    }
}

/// The integrator never grows into saturation.
pub proof fn lemma_no_windup(e: u64, sat_pos: bool, sat_neg: bool)
    ensures
        sat_pos ==> !ieee::lt64(0, usable(e, sat_pos, sat_neg)),
        sat_neg ==> !ieee::lt64(usable(e, sat_pos, sat_neg), 0),
{
}

/// What a desaturation pass shifts the rotor thrusts along.
#[derive(Clone, Copy, Debug, PartialEq, Eq, Structural)]
pub enum Along {
    Roll,
    Pitch,
    Yaw,
    Thrust,
}

/// A step of the allocation.
#[derive(Clone, Copy, Debug, PartialEq, Eq, Structural)]
pub enum Pass {
    /// Add the yaw torque.
    AddYaw,
    /// Shift the thrusts to bring them into their range, which the flags say more of.
    Desaturate {
        along: Along,
        /// Skip a first step that would raise the collective.
        reduce_only: bool,
        /// Allow headroom above the top thrust.
        headroom: bool,
    },
}

/// The steps of the allocation: the collective gives way first, then roll and pitch, and yaw last.
pub open spec fn passes_of(airmode: bool) -> Seq<Pass> {
    let first = if airmode {
        seq![Pass::Desaturate { along: Along::Thrust, reduce_only: false, headroom: false }]
    } else {
        seq![
            Pass::Desaturate { along: Along::Thrust, reduce_only: true, headroom: false },
            Pass::Desaturate { along: Along::Roll, reduce_only: false, headroom: false },
            Pass::Desaturate { along: Along::Pitch, reduce_only: false, headroom: false },
        ]
    };
    first + seq![
        Pass::AddYaw,
        Pass::Desaturate { along: Along::Yaw, reduce_only: false, headroom: true },
        Pass::Desaturate { along: Along::Thrust, reduce_only: true, headroom: false },
    ]
}

/// The steps of the allocation, in order.
pub fn passes(airmode: bool) -> (r: Vec<Pass>)
    ensures
        r@ == passes_of(airmode),
{
    let mut r: Vec<Pass> = Vec::new();
    if airmode {
        r.push(Pass::Desaturate { along: Along::Thrust, reduce_only: false, headroom: false });
    } else {
        r.push(Pass::Desaturate { along: Along::Thrust, reduce_only: true, headroom: false });
        r.push(Pass::Desaturate { along: Along::Roll, reduce_only: false, headroom: false });
        r.push(Pass::Desaturate { along: Along::Pitch, reduce_only: false, headroom: false });
    }
    r.push(Pass::AddYaw);
    r.push(Pass::Desaturate { along: Along::Yaw, reduce_only: false, headroom: true });
    r.push(Pass::Desaturate { along: Along::Thrust, reduce_only: true, headroom: false });
    assert(r@ =~= passes_of(airmode));
    r
}

/// A pass that may only reduce moves nothing where its first gain would raise.
pub open spec fn moves_nothing(reduce_only: bool, gain: u64) -> bool {
    reduce_only && ieee::lt64(0, gain)
}

/// Whether a pass with this first gain moves nothing.
pub fn skips(reduce_only: bool, gain: u64) -> (r: bool)
    ensures
        r == moves_nothing(reduce_only, gain),
{
    reduce_only && ieee::is_lt64(0, gain)
}

/// Outside airmode no pass may raise the collective; roll and pitch are shifted only before yaw is
/// added, and yaw only after.
pub proof fn lemma_order_of_sacrifice(i: int)
    requires
        0 <= i < passes_of(false).len(),
    ensures
        passes_of(false)[3] == Pass::AddYaw,
        passes_of(false)[i] matches Pass::Desaturate { along, reduce_only, .. } ==> {
            &&& along == Along::Thrust ==> reduce_only
            &&& along == Along::Roll || along == Along::Pitch ==> i < 3
            &&& along == Along::Yaw ==> i > 3
        },
{
}

/// Which bound a rotor thrust violates.
#[derive(Clone, Copy, Debug, PartialEq, Eq, Structural)]
pub enum Violation {
    Neither,
    Low,
    High,
}

/// Which bound a pass has to bring a thrust back to: none where the shift hardly moves the rotor.
pub open spec fn violation_of(x: u64, lo: u64, hi: u64, effect: u64, least: u64) -> Violation {
    if ieee::le64(effect, least) {
        Violation::Neither
    } else if ieee::lt64(x, lo) {
        Violation::Low
    } else if ieee::lt64(hi, x) {
        Violation::High
    } else {
        Violation::Neither
    }
}

pub fn violation(x: u64, lo: u64, hi: u64, effect: u64, least: u64) -> (r: Violation)
    ensures
        r == violation_of(x, lo, hi, effect, least),
{
    if ieee::is_le64(effect, least) {
        Violation::Neither
    } else if ieee::is_lt64(x, lo) {
        Violation::Low
    } else if ieee::is_lt64(hi, x) {
        Violation::High
    } else {
        Violation::Neither
    }
}

/// `k` is the least of some numbers and zero.
pub open spec fn least_of(k: u64, all: Seq<u64>) -> bool {
    &&& k == 0 || all.contains(k)
    &&& ieee::le64(k, 0)
    &&& forall|i: int| 0 <= i < all.len() ==> ieee::nan64(#[trigger] all[i]) || ieee::le64(k, all[i])
}

/// `k` is the greatest of some numbers and zero.
pub open spec fn greatest_of(k: u64, all: Seq<u64>) -> bool {
    &&& k == 0 || all.contains(k)
    &&& ieee::le64(0, k)
    &&& forall|i: int| 0 <= i < all.len() ==> ieee::nan64(#[trigger] all[i]) || ieee::le64(all[i], k)
}

/// The most negative and the most positive of the shifts that bring saturated rotors back; zero where
/// there is none.
pub fn extreme_shifts(shifts: &Vec<u64>) -> (r: (u64, u64))
    ensures
        least_of(r.0, shifts@),
        greatest_of(r.1, shifts@),
{
    let (mut least, mut greatest): (u64, u64) = (0, 0);
    let mut i: usize = 0;
    while i < shifts.len()
        invariant
            i <= shifts@.len(),
            least_of(least, shifts@.take(i as int)),
            greatest_of(greatest, shifts@.take(i as int)),
        decreases shifts@.len() - i,
    {
        let ghost before = shifts@.take(i as int);
        let ghost after = shifts@.take(i + 1);
        let k: u64 = shifts[i];
        proof {
            assert(after =~= before.push(k));
            assert(after[i as int] == k);
            if before.contains(least) {
                let j = before.index_of(least);
                assert(after[j] == least);
            }
            if before.contains(greatest) {
                let j = before.index_of(greatest);
                assert(after[j] == greatest);
            }
            assert forall|j: int| 0 <= j < before.len() implies after[j] == #[trigger] before[j] by {}
        }
        least = ieee::min64(least, k);
        greatest = ieee::max64(greatest, k);
        i += 1;
    }
    assert(shifts@.take(i as int) =~= shifts@);
    (least, greatest)
}

/// Rotor thrusts held within their range.
pub open spec fn limited(thrusts: Seq<u64>, lo: u64, hi: u64) -> Seq<u64> {
    thrusts.map_values(|x: u64| ieee::clamped64(x, lo, hi))
}

/// The last step of the allocation: no thrust leaves the range.
pub fn limit_thrusts(thrusts: &Vec<u64>, lo: u64, hi: u64) -> (r: Vec<u64>)
    requires
        ieee::le64(lo, hi),
    ensures
        r@ == limited(thrusts@, lo, hi),
{
    let mut r: Vec<u64> = Vec::new();
    let mut i: usize = 0;
    while i < thrusts.len()
        invariant
            i <= thrusts@.len(),
            ieee::le64(lo, hi),
            r@ == limited(thrusts@.take(i as int), lo, hi),
        decreases thrusts@.len() - i,
    {
        r.push(ieee::clamp64(thrusts[i], lo, hi));
        i += 1;
        assert(r@ =~= limited(thrusts@.take(i as int), lo, hi));
    }
    assert(thrusts@.take(i as int) =~= thrusts@);
    r
}

/// Every rotor that is asked for a number is given a thrust within the range.
pub proof fn lemma_thrusts_stay_within_limits(thrusts: Seq<u64>, lo: u64, hi: u64, i: int)
    requires
        ieee::le64(lo, hi),
        0 <= i < thrusts.len(),
        !ieee::nan64(thrusts[i]),
    ensures
        limited(thrusts, lo, hi).len() == thrusts.len(),
        ieee::le64(lo, limited(thrusts, lo, hi)[i]),
        ieee::le64(limited(thrusts, lo, hi)[i], hi),
{
}

/// Thrusts within the range are met as they are: no pass finds a violation to shift away, so that it
/// shifts by nothing, and the last step changes none.
pub proof fn lemma_unsaturated_thrusts_are_kept(thrusts: Seq<u64>, lo: u64, hi: u64)
    requires
        ieee::le64(lo, hi),
        forall|i: int|
            0 <= i < thrusts.len() ==> ieee::le64(lo, #[trigger] thrusts[i]) && ieee::le64(thrusts[i], hi),
    ensures
        forall|i: int, effect: u64, least: u64|
            0 <= i < thrusts.len() ==> #[trigger] violation_of(thrusts[i], lo, hi, effect, least)
                == Violation::Neither,
        forall|k: u64| #[trigger] least_of(k, Seq::empty()) ==> k == 0,
        forall|k: u64| #[trigger] greatest_of(k, Seq::empty()) ==> k == 0,
        limited(thrusts, lo, hi) == thrusts,
{
    assert(limited(thrusts, lo, hi) =~= thrusts);
}

/// The determinant of the scaled rotor effects up to which they count as dependent, `1e-6`.
pub const LEAST_DETERMINANT: u64 = 0x3eb0_c6f7_a0b5_ed8d;

/// What is said of rotors that cannot be allocated.
pub open spec fn dependent_rotors(name: Seq<char>, shown: Seq<char>) -> Seq<char> {
    name + ": rotors cannot produce roll, pitch, yaw and thrust independently (det "@ + shown + ")"@
}

/// Checks that the rotors of a vehicle produce roll, pitch, yaw and thrust independently, by the
/// determinant of their scaled effects; `shown` is what an error shows of it.
pub fn check_rotors(determinant: u64, name: &str, shown: &str) -> (r: Result<(), ControlError>)
    ensures
        r is Ok <==> ieee::lt64(LEAST_DETERMINANT, determinant),
        r matches Err(e) ==> e is Unallocatable && (e->Unallocatable_0)@ == dependent_rotors(name@, shown@),
{
    if ieee::is_lt64(LEAST_DETERMINANT, determinant) {
        return Ok(());
    }
    let mut m = name.to_owned();
    m.append(": rotors cannot produce roll, pitch, yaw and thrust independently (det ");
    m.append(shown);
    m.append(")");
    Err(ControlError::Unallocatable(m))
}

/// What errors show of the numbers that a controller is built from.
#[derive(Clone, Debug)]
pub struct Shown {
    pub config: String,
    pub dt: String,
    pub determinant: String,
}

/// Checks what a controller is built from: its configuration first, then the period `dt` at which
/// it runs, then the rotors of the vehicle `name` by the determinant of their scaled effects. The
/// first that fails gives the error.
pub fn check_controller(
    config: &ControllerConfig,
    dt: u64,
    determinant: u64,
    name: &str,
    shown: &Shown,
) -> (r: Result<(), ControlError>)
    ensures
        r is Ok <==> config.valid() && tuning::is_period(dt) && ieee::lt64(
            LEAST_DETERMINANT,
            determinant,
        ),
        !config.valid() ==> (r matches Err(e) && e is InvalidConfig && (e->InvalidConfig_0)@
            == shown.config@),
        config.valid() && !tuning::is_period(dt) ==> (r matches Err(e) && e is InvalidConfig
            && (e->InvalidConfig_0)@ == "control period "@ + shown.dt@),
        config.valid() && tuning::is_period(dt) && !ieee::lt64(LEAST_DETERMINANT, determinant) ==> (
        r matches Err(e) && e is Unallocatable && (e->Unallocatable_0)@ == dependent_rotors(
            name@,
            shown.determinant@,
        )),
{
    if let Err(e) = config.validate(shown.config.as_str()) {
        return Err(e);
    }
    if let Err(e) = tuning::check_period(dt, shown.dt.as_str()) {
        return Err(e);
    }
    check_rotors(determinant, name, shown.determinant.as_str())
}

/// What the disturbance observer does in an update.
#[derive(Clone, Copy, Debug, PartialEq, Eq, Structural)]
pub enum Observer {
    Estimate,
    Clear,
    Keep,
}

/// What becomes of the estimate of the disturbance.
pub open spec fn observed(has_velocity: bool, recorded: u32, observe: bool) -> Observer {
    if !observe {
        Observer::Clear
    } else if has_velocity && recorded > 0 {
        Observer::Estimate
    } else {
        Observer::Keep
    }
}

/// What the disturbance observer does: it estimates where a velocity and accelerations have been
/// recorded, and is cleared while the vehicle rests on something.
pub fn observer(has_velocity: bool, recorded: u32, observe: bool) -> (r: Observer)
    ensures
        r == observed(has_velocity, recorded, observe),
{
    if !observe {
        Observer::Clear
    } else if has_velocity && recorded > 0 {
        Observer::Estimate
    } else {
        Observer::Keep
    }
}

/// Whether a command lies above the speed of a rotor.
pub open spec fn speeds_up(command: u64, speed: u64) -> bool {
    ieee::finite64(command) && ieee::lt64(speed, command)
}

/// Whether a rotor speeds up towards a command, and so which of its time constants applies. A command
/// that is not finite holds the speed.
pub fn spins_up(command: u64, speed: u64) -> (r: bool)
    ensures
        r == speeds_up(command, speed),
{
    ieee::is_finite64(command) && ieee::is_lt64(speed, command)
}

/// Without saturation the integrator takes up the whole error; with saturation on one side, all of an
/// error that points to the other and nothing of one that points into it; with saturation on both,
/// nothing. Never does it take up anything but the error or nothing.
pub proof fn lemma_unsaturated_errors_are_used(e: u64, sat_pos: bool, sat_neg: bool)
    ensures
        usable(e, false, false) == e,
        ieee::lt64(e, 0) ==> usable(e, true, false) == e && usable(e, false, true) == 0,
        ieee::lt64(0, e) ==> usable(e, false, true) == e && usable(e, true, false) == 0,
        usable(e, true, true) == 0,
        ieee::nan64(e) && (sat_pos || sat_neg) ==> usable(e, sat_pos, sat_neg) == 0,
        usable(e, sat_pos, sat_neg) == e || usable(e, sat_pos, sat_neg) == 0,
{
}

/// With airmode and without, the yaw torque is added once. Roll and pitch are shifted only before that,
/// and yaw only after, first of all and with headroom. Headroom is for yaw alone. The thrust is shifted
/// first and last; last it may only be reduced, and first it may be raised exactly with airmode. Without
/// airmode roll and pitch give way too.
pub proof fn lemma_yaw_is_added_once(airmode: bool) -> (y: int)
    ensures
        0 < y < passes_of(airmode).len() - 2,
        passes_of(airmode)[y] == Pass::AddYaw,
        passes_of(airmode)[y + 1] matches Pass::Desaturate { along, reduce_only, headroom } && along == Along::Yaw
            && !reduce_only && headroom,
        passes_of(airmode)[0] matches Pass::Desaturate { along, reduce_only, .. } && along == Along::Thrust
            && reduce_only == !airmode,
        passes_of(airmode).last() matches Pass::Desaturate { along, reduce_only, .. } && along == Along::Thrust
            && reduce_only,
        forall|i: int|
            0 <= i < passes_of(airmode).len() ==> match #[trigger] passes_of(airmode)[i] {
                Pass::AddYaw => i == y,
                Pass::Desaturate { along, reduce_only, headroom } => {
                    &&& along == Along::Roll || along == Along::Pitch ==> i < y && !airmode
                    &&& along == Along::Yaw ==> i == y + 1
                    &&& along == Along::Thrust ==> i == 0 || i == passes_of(airmode).len() - 1
                    &&& along != Along::Thrust ==> !reduce_only
                    &&& headroom <==> along == Along::Yaw
                },
            },
        !airmode ==> exists|i: int, j: int|
            0 < i < y && 0 < j < y && #[trigger] passes_of(airmode)[i]->along == Along::Roll
                && #[trigger] passes_of(airmode)[j]->along == Along::Pitch,
{
    let p = passes_of(airmode);
    if airmode {
        assert(p.len() == 4 && p[1] == Pass::AddYaw);
        1
    } else {
        assert(p.len() == 6 && p[3] == Pass::AddYaw);
        assert(p[1]->along == Along::Roll && p[2]->along == Along::Pitch);
        3
    }
}

/// Entering a mode restarts the outer loops, which run at once; staying in one restarts neither them nor
/// the rate integrator. The integrator restarts exactly on entering a mode first of all or from motor
/// commands, which alone pass through.
pub proof fn lemma_modes_are_entered(c: Cascade, mode: ActionMode, frame: Frame)
    ensures
        c.step_of(mode, frame).reset_outer <==> c.mode != Some(mode),
        c.mode != Some(mode) ==> c.step_of(mode, frame).outer,
        c.mode == Some(mode) ==> !c.step_of(mode, frame).reset_rate && c.step_of(mode, frame).outer == (c.phase == 0),
        c.mode is None ==> c.step_of(mode, frame).reset_rate,
        c.mode == Some(ActionMode::Motors) && mode != ActionMode::Motors ==> c.step_of(mode, frame).reset_rate,
        c.step_of(mode, frame).pass_through <==> mode == ActionMode::Motors,
        c.after(mode, frame).mode == Some(mode),
        c.after(mode, frame).every == c.every,
{
}

/// The velocity reference restarts exactly when the outer loops run in velocity mode and the frame is
/// not the one of the last such run since the mode was entered. Held in one frame, it restarts once.
pub proof fn lemma_reference_follows_the_frame(c: Cascade, mode: ActionMode, frame: Frame, next: Frame)
    ensures
        c.step_of(mode, frame).reset_reference ==> mode == ActionMode::Velocity && c.step_of(mode, frame).outer,
        c.mode != Some(ActionMode::Velocity) ==> c.step_of(ActionMode::Velocity, frame).reset_reference,
        c.mode == Some(ActionMode::Velocity) && c.phase == 0 ==> c.step_of(ActionMode::Velocity, frame).reset_reference
            == (c.frame != Some(frame)),
        c.step_of(ActionMode::Velocity, frame).outer ==> c.after(ActionMode::Velocity, frame).frame == Some(frame),
        c.step_of(ActionMode::Velocity, frame).outer ==> {
            let n = c.after(ActionMode::Velocity, frame);
            n.step_of(ActionMode::Velocity, next).reset_reference == (n.step_of(ActionMode::Velocity, next).outer && next
                != frame)
        },
        !c.step_of(mode, frame).outer ==> c.after(mode, frame).frame == c.frame,
        mode != ActionMode::Velocity && c.mode != Some(mode) ==> c.after(mode, frame).frame is None,
{
}

/// A thrust counts as violating a bound exactly if it lies beyond it and the shift moves the rotor.
pub proof fn lemma_violations_lie_beyond_bounds(x: u64, lo: u64, hi: u64, effect: u64, least: u64)
    requires
        ieee::le64(lo, hi),
    ensures
        violation_of(x, lo, hi, effect, least) == Violation::Low <==> ieee::lt64(x, lo) && !ieee::le64(effect, least),
        violation_of(x, lo, hi, effect, least) == Violation::High <==> ieee::lt64(hi, x) && !ieee::le64(
            effect,
            least,
        ),
{
}

/// A thrust beyond the range is held at the nearer bound, whatever the others are.
pub proof fn lemma_thrusts_are_held_at_the_nearer_bound(thrusts: Seq<u64>, lo: u64, hi: u64, i: int)
    requires
        ieee::le64(lo, hi),
        0 <= i < thrusts.len(),
    ensures
        ieee::lt64(thrusts[i], lo) ==> limited(thrusts, lo, hi)[i] == lo,
        ieee::lt64(hi, thrusts[i]) ==> limited(thrusts, lo, hi)[i] == hi,
        ieee::le64(lo, thrusts[i]) && ieee::le64(thrusts[i], hi) ==> limited(thrusts, lo, hi)[i] == thrusts[i],
{
}

/// The shifts that bring saturated rotors back are the extremes of those needed: no rotor needs a larger
/// one either way, and where none needs one that way nothing is shifted.
pub proof fn lemma_shifts_are_extreme(least: u64, greatest: u64, all: Seq<u64>)
    requires
        least_of(least, all),
        greatest_of(greatest, all),
    ensures
        forall|i: int|
            0 <= i < all.len() && !ieee::nan64(#[trigger] all[i]) ==> ieee::rank64(least) <= ieee::rank64(all[i])
                <= ieee::rank64(greatest),
        ieee::rank64(least) <= 0 <= ieee::rank64(greatest),
        ieee::rank64(least) < 0 ==> all.contains(least),
        ieee::rank64(greatest) > 0 ==> all.contains(greatest),
{
}

/// An axis is saturated on the side that torque is missing on, by more than the tolerance, and never on
/// both; within the tolerance it is saturated on neither.
pub proof fn lemma_saturated_sides(unallocated: u64, tolerance: u64, minus_tolerance: u64)
    requires
        ieee::le64(minus_tolerance, tolerance),
        !ieee::nan64(unallocated),
    ensures
        ({
            let (pos, neg) = saturated_sides(unallocated, tolerance, minus_tolerance);
            &&& pos <==> ieee::rank64(unallocated) > ieee::rank64(tolerance)
            &&& neg <==> ieee::rank64(unallocated) < ieee::rank64(minus_tolerance)
            &&& !pos || !neg
        }),
{
}

/// A pass that may raise the collective is never skipped, and one that may not only where it would.
pub proof fn lemma_passes_that_raise_are_skipped(gain: u64)
    ensures
        !moves_nothing(false, gain),
        moves_nothing(true, gain) <==> 0 < ieee::rank64(gain) <= ieee::INFINITY64,
{
}

/// The disturbance is estimated only from what was recorded, cleared exactly while the vehicle is not
/// observed, and kept otherwise.
pub proof fn lemma_disturbances_are_observed(has_velocity: bool, recorded: u32, observe: bool)
    ensures
        observed(has_velocity, recorded, observe) == Observer::Clear <==> !observe,
        observed(has_velocity, recorded, observe) == Observer::Estimate <==> observe && has_velocity && recorded > 0,
        observed(has_velocity, 0, true) == Observer::Keep,
        observed(false, recorded, true) == Observer::Keep,
{
}

/// A rotor speeds up exactly towards a finite command above its speed; at its command it does not.
pub proof fn lemma_rotors_speed_up(command: u64, speed: u64)
    ensures
        !speeds_up(speed, speed),
        speeds_up(command, speed) ==> ieee::rank64(speed) < ieee::rank64(command) < ieee::INFINITY64,
        ieee::finite64(command) && ieee::lt64(speed, command) ==> speeds_up(command, speed),
        !(speeds_up(command, speed) && speeds_up(speed, command)),
{
}

/// What is said of rotors that cannot be allocated starts with the vehicle and ends with the determinant.
pub proof fn lemma_dependent_rotors_are_named(name: Seq<char>, shown: Seq<char>)
    ensures
        ({
            let s = dependent_rotors(name, shown);
            &&& s.take(name.len() as int) == name
            &&& s.subrange(s.len() - 1 - shown.len(), s.len() - 1) == shown
            &&& s.last() == ')'
        }),
{
    reveal_strlit(")");
    let s = dependent_rotors(name, shown);
    assert(s.take(name.len() as int) =~= name);
    assert(s.subrange(s.len() - 1 - shown.len(), s.len() - 1) =~= shown);
}

} // verus!

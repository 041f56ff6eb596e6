//! The decisions of the ground vehicle controller: gear direction, holding on the brakes, traction, and
//! which integrators run.
//!
//! Numbers are the bits of 64-bit numbers.

use vstd::prelude::*;

use crate::config;
use crate::ground_actions;
use crate::ground_actions::{GroundSetpoint, MotorSide};
use crate::ieee;
use crate::modes::ControlError;

verus! {

/// Loop tuning.
#[derive(Clone, Copy, Debug, PartialEq, Eq)]
pub struct GroundConfig {
    /// Speed loop time constant (s).
    pub speed_time_constant: u64,
    /// Speed integral gain, and the speed error (m/s) within which the integrator runs.
    pub speed_integral: u64,
    pub speed_integral_band: u64,
    /// Acceleration and deceleration the speed loop may ask for (m/s²).
    pub max_accel: u64,
    pub max_decel: u64,
    /// Below this speed (m/s) a zero speed request holds the vehicle on its brakes.
    pub hold_speed: u64,
    /// Slip at which traction control acts, as a fraction of the travel speed, and its floor (m/s).
    pub traction_slip: u64,
    pub traction_slip_floor: u64,
    /// Integral gain on the curvature error (1/s), and its largest correction (rad).
    pub curvature_integral: u64,
    pub curvature_correction: u64,
    /// Integral gains on the yaw-rate and speed errors of side drives (1/s).
    pub yaw_integral: u64,
    pub side_speed_integral: u64,
    /// Wheel-speed loop time constant of side drives (s).
    pub wheel_time_constant: u64,
}

/// Whether a number is positive and finite.
pub open spec fn sound(v: u64) -> bool {
    config::positive(v) && ieee::finite64(v)
}

pub fn is_sound(v: u64) -> (r: bool)
    ensures
        r == sound(v),
{
    config::is_positive(v) && ieee::is_finite64(v)
}

impl GroundConfig {
    /// The values that a file need not give.
    pub open spec fn defaults() -> GroundConfig {
        GroundConfig {
            speed_time_constant: 0x3fe0_0000_0000_0000,
            speed_integral: 0x3fd0_0000_0000_0000,
            speed_integral_band: 0x3ff0_0000_0000_0000,
            max_accel: 0x4008_0000_0000_0000,
            max_decel: 0x4018_0000_0000_0000,
            hold_speed: 0x3fd3_3333_3333_3333,
            traction_slip: 0x3fb9_9999_9999_999a,
            traction_slip_floor: 0x3fd3_3333_3333_3333,
            curvature_integral: 0x3ff0_0000_0000_0000,
            curvature_correction: 0x3fc3_3333_3333_3333,
            yaw_integral: 0x4000_0000_0000_0000,
            side_speed_integral: 0x4000_0000_0000_0000,
            wheel_time_constant: 0x3fa9_9999_9999_999a,
        }
    }

    /// Whether the gains fit a controller that runs every `dt` seconds.
    pub open spec fn valid(&self, dt: u64) -> bool {
        &&& sound(dt)
        &&& sound(self.speed_time_constant)
        &&& config::non_negative(self.speed_integral)
        &&& sound(self.speed_integral_band)
        &&& sound(self.max_accel)
        &&& sound(self.max_decel)
        &&& config::non_negative(self.hold_speed)
        &&& config::non_negative(self.traction_slip)
        &&& sound(self.traction_slip_floor)
        &&& config::non_negative(self.curvature_integral)
        &&& config::non_negative(self.curvature_correction)
        &&& config::non_negative(self.yaw_integral)
        &&& config::non_negative(self.side_speed_integral)
        &&& sound(self.wheel_time_constant)
    }

    /// Checks the gains of a controller that runs every `dt` seconds.
    pub fn validate(&self, dt: u64) -> (r: Result<(), ControlError>)
        ensures
            r is Ok <==> self.valid(dt),
            r matches Err(e) ==> e is InvalidConfig && (e->InvalidConfig_0)@
                == "ground controller gains must be positive"@,
    {
        if is_sound(dt) && is_sound(self.speed_time_constant) && config::is_non_negative(self.speed_integral)
            && is_sound(self.speed_integral_band) && is_sound(self.max_accel) && is_sound(self.max_decel)
            && config::is_non_negative(self.hold_speed) && config::is_non_negative(self.traction_slip)
            && is_sound(self.traction_slip_floor) && config::is_non_negative(self.curvature_integral)
            && config::is_non_negative(self.curvature_correction) && config::is_non_negative(
            self.yaw_integral,
        ) && config::is_non_negative(self.side_speed_integral) && is_sound(self.wheel_time_constant) {
            Ok(())
        } else {
            Err(ControlError::InvalidConfig("ground controller gains must be positive".to_owned()))
        }
    }
}

impl Default for GroundConfig {
    fn default() -> (r: GroundConfig)
        ensures
            r == GroundConfig::defaults(),
    {
        GroundConfig {
            speed_time_constant: 0x3fe0_0000_0000_0000,  // 0.5
            speed_integral: 0x3fd0_0000_0000_0000,  // 0.25
            speed_integral_band: 0x3ff0_0000_0000_0000,  // 1
            max_accel: 0x4008_0000_0000_0000,  // 3
            max_decel: 0x4018_0000_0000_0000,  // 6
            hold_speed: 0x3fd3_3333_3333_3333,  // 0.3
            traction_slip: 0x3fb9_9999_9999_999a,  // 0.1
            traction_slip_floor: 0x3fd3_3333_3333_3333,  // 0.3
            curvature_integral: 0x3ff0_0000_0000_0000,  // 1
            curvature_correction: 0x3fc3_3333_3333_3333,  // 0.15
            yaw_integral: 0x4000_0000_0000_0000,  // 2
            side_speed_integral: 0x4000_0000_0000_0000,  // 2
            wheel_time_constant: 0x3fa9_9999_9999_999a,  // 0.05
        }
    }
}

/// The wheels of driven axles: axle `a` holds wheels `2a` and `2a + 1`.
pub open spec fn wheels_of(axles: Seq<usize>) -> Seq<int> {
    Seq::new(2 * axles.len(), |i: int| 2 * axles[i / 2] + i % 2)
}

pub fn driven_wheels(axles: &Vec<usize>) -> (r: Vec<usize>)
    requires
        forall|i: int| 0 <= i < axles@.len() ==> 2 * #[trigger] axles@[i] + 1 <= usize::MAX,
    ensures
        r@.map_values(|w: usize| w as int) == wheels_of(axles@),
{
    let mut r: Vec<usize> = Vec::new();
    let mut i: usize = 0;
    while i < axles.len()
        invariant
            i <= axles@.len(),
            forall|j: int| 0 <= j < axles@.len() ==> 2 * #[trigger] axles@[j] + 1 <= usize::MAX,
            r@.len() == 2 * i,
            forall|k: int| 0 <= k < r@.len() ==> #[trigger] r@[k] == 2 * axles@[k / 2] + k % 2,
        decreases axles@.len() - i,
    {
        let a: usize = axles[i];
        r.push(2 * a);
        r.push(2 * a + 1);
        i += 1;
    }
    assert(r@.map_values(|w: usize| w as int) =~= wheels_of(axles@));
    r
}

/// Whether axle `a` is the one that the bicycle model takes: it is steered, by the largest share, and
/// the last of those with that share.
pub open spec fn leads(steer: Seq<u64>, a: int) -> bool {
    &&& 0 <= a < steer.len()
    &&& !zero(steer[a])
    &&& forall|b: int|
        0 <= b < steer.len() && !zero(#[trigger] steer[b]) ==> magnitude(steer[b]) < magnitude(steer[a])
            || magnitude(steer[b]) == magnitude(steer[a]) && b <= a
}

/// Whether a number is 0.
pub open spec fn zero(v: u64) -> bool {
    ieee::le64(v, 0) && ieee::le64(0, v)
}

fn is_zero(v: u64) -> (r: bool)
    ensures
        r == zero(v),
{
    ieee::is_le64(v, 0) && ieee::is_le64(0, v)
}

/// A number without its sign, in the total order.
pub open spec fn magnitude(v: u64) -> int {
    if v >= ieee::SIGN64 {
        v - ieee::SIGN64
    } else {
        v as int
    }
}

fn magnitude_of(v: u64) -> (r: u64)
    ensures
        r == magnitude(v),
{
    if v >= ieee::SIGN64 {
        v - ieee::SIGN64
    } else {
        v
    }
}

/// The steered axle that the bicycle model takes, given the steering share of each axle.
pub fn leading_axle(steer: &Vec<u64>) -> (r: Option<usize>)
    ensures
        match r {
            Some(a) => leads(steer@, a as int),
            None => forall|b: int| 0 <= b < steer@.len() ==> zero(#[trigger] steer@[b]),
        },
{
    let mut best: Option<usize> = None;
    let mut i: usize = 0;
    while i < steer.len()
        invariant
            i <= steer@.len(),
            match best {
                Some(a) => a < i && leads(steer@.take(i as int), a as int),
                None => forall|b: int| 0 <= b < i ==> zero(#[trigger] steer@[b]),
            },
        decreases steer@.len() - i,
    {
        let ghost before = steer@.take(i as int);
        let ghost old_best = best;
        if !is_zero(steer[i]) {
            best = match best {
                Some(a) => if magnitude_of(steer[i]) >= magnitude_of(steer[a]) {
                    Some(i)
                } else {
                    Some(a)
                },
                None => Some(i),
            };
        }
        proof {
            let now = steer@.take(i + 1);
            if let Some(a) = best {
                assert forall|b: int| 0 <= b < now.len() && !zero(#[trigger] now[b]) implies magnitude(now[b])
                    < magnitude(now[a as int]) || magnitude(now[b]) == magnitude(now[a as int]) && b <= a by {
                    if b < i {
                        assert(before[b] == now[b]);
                        assert(steer@[b] == now[b]);
                    }
                }
            }
        }
        i += 1;
    }
    assert(steer@.take(steer@.len() as int) =~= steer@);
    best
}

/// Whether axle `a` has the largest steering share, and is the last of those with that share.
pub open spec fn widest(steer: Seq<u64>, a: int) -> bool {
    &&& 0 <= a < steer.len()
    &&& forall|b: int|
        0 <= b < steer.len() ==> magnitude(#[trigger] steer[b]) < magnitude(steer[a]) || magnitude(steer[b])
            == magnitude(steer[a]) && b <= a
}

/// The axle with the largest steering share, steered or not.
pub fn widest_axle(steer: &Vec<u64>) -> (r: Option<usize>)
    ensures
        match r {
            Some(a) => widest(steer@, a as int),
            None => steer@.len() == 0,
        },
{
    if steer.len() == 0 {
        return None;
    }
    let mut best: usize = 0;
    let mut i: usize = 1;
    while i < steer.len()
        invariant
            best < i <= steer@.len(),
            forall|b: int|
                0 <= b < i ==> magnitude(#[trigger] steer@[b]) < magnitude(steer@[best as int]) || magnitude(
                    steer@[b],
                ) == magnitude(steer@[best as int]) && b <= best,
        decreases steer@.len() - i,
    {
        if magnitude_of(steer[i]) >= magnitude_of(steer[best]) {
            best = i;
        }
        i += 1;
    }
    Some(best)
}

/// The place of a gear among the forward ratios: gears count from 1, and those beyond the last, as well
/// as neutral and reverse, take the nearest.
pub open spec fn gear_place(gear: i32, n: int) -> int {
    if gear <= 1 {
        0
    } else if gear - 1 >= n {
        n - 1
    } else {
        gear - 1
    }
}

pub fn gear_index(gear: i32, n: usize) -> (r: usize)
    requires
        0 < n,
    ensures
        r == gear_place(gear, n as int),
        r < n,
{
    if gear <= 1 {
        0
    } else if (gear - 1) as usize >= n {
        n - 1
    } else {
        (gear - 1) as usize
    }
}

/// The loop that a setpoint enters.
#[derive(Clone, Copy, Debug, PartialEq, Eq, Structural)]
pub enum Loop {
    /// None: the driver input is passed on.
    PassThrough,
    /// None: the motors of the sides are commanded.
    Sides,
    /// The pedal axis.
    Pedal,
    /// The speed loop, with the wheels steered.
    Steered,
    /// The wheel speeds of the two sides.
    SideDrive,
    /// The speed loop, with one side braked by the differential.
    BrakedSide,
    /// The speed loop alone, on vehicles that can be turned neither way.
    SpeedOnly,
}

/// The loop that a setpoint enters on a vehicle.
pub open spec fn entered(setpoint: GroundSetpoint, steered: bool, side_drive: bool, differential: bool) -> Loop {
    match setpoint {
        GroundSetpoint::Direct(_) => Loop::PassThrough,
        GroundSetpoint::Sides { .. } => Loop::Sides,
        GroundSetpoint::Pedal { .. } => Loop::Pedal,
        GroundSetpoint::SpeedCurvature { .. } => if steered {
            Loop::Steered
        } else {
            turning(side_drive, differential)
        },
        GroundSetpoint::SpeedYawRate { .. } => turning(side_drive, differential),
    }
}

/// The loop for a setpoint: vehicles that steer by their wheels follow a curvature with them; those that
/// turn by their sides follow a curvature or a yaw rate with these, by their motors or by the brakes of
/// a differential.
pub fn entry(setpoint: &GroundSetpoint, steered: bool, side_drive: bool, differential: bool) -> (r: Loop)
    ensures
        r == entered(*setpoint, steered, side_drive, differential),
{
    match setpoint {
        GroundSetpoint::Direct(_) => Loop::PassThrough,
        GroundSetpoint::Sides { .. } => Loop::Sides,
        GroundSetpoint::Pedal { .. } => Loop::Pedal,
        GroundSetpoint::SpeedCurvature { .. } if steered => Loop::Steered,
        _ => if side_drive {
            Loop::SideDrive
        } else if differential {
            Loop::BrakedSide
        } else {
            Loop::SpeedOnly
        },
    }
}

/// The loop that turns a vehicle by its sides.
pub open spec fn turning(side_drive: bool, differential: bool) -> Loop {
    if side_drive {
        Loop::SideDrive
    } else if differential {
        Loop::BrakedSide
    } else {
        Loop::SpeedOnly
    }
}

/// A vehicle that has the speed and yaw-rate mode is turned in it.
pub proof fn lemma_yaw_rates_are_followed(c: ground_actions::Chassis)
    requires
        c.turns_by_sides(),
    ensures
        turning(c.side_drive(), c.combustion && c.differential_steering) != Loop::SpeedOnly,
{
}

/// A request as it is read: 0 if it is not finite.
pub open spec fn read_of(x: u64) -> u64 {
    if ieee::finite64(x) {
        x
    } else {
        0
    }
}

pub fn read_request(x: u64) -> (r: u64)
    ensures
        r == read_of(x),
{
    if ieee::is_finite64(x) {
        x
    } else {
        0
    }
}

/// The speed below which a vehicle counts as near standstill: the holding speed, but at least 0.5 m/s.
pub open spec fn rolling_of(hold_speed: u64) -> u64 {
    ieee::larger64(hold_speed, 0x3fe0_0000_0000_0000)
}

pub fn rolling_speed(hold_speed: u64) -> (r: u64)
    ensures
        r == rolling_of(hold_speed),
{
    ieee::max64(hold_speed, 0x3fe0_0000_0000_0000)
}

/// The speed asked of a vehicle that turns by braking one side: it turns only while it rolls, so that a
/// turn on the spot becomes one at the speed `creep`.
pub open spec fn rolls_at(speed: u64, yaw_rate: u64, creep: u64) -> u64 {
    if zero(read_of(speed)) && !zero(read_of(yaw_rate)) {
        creep
    } else {
        read_of(speed)
    }
}

pub fn turning_speed(speed: u64, yaw_rate: u64, creep: u64) -> (r: u64)
    ensures
        r == rolls_at(speed, yaw_rate, creep),
{
    if is_zero(read_request(speed)) && !is_zero(read_request(yaw_rate)) {
        creep
    } else {
        read_request(speed)
    }
}

/// Asked to turn, such a vehicle rolls; asked for nothing, it stands.
pub proof fn lemma_turns_keep_rolling(speed: u64, yaw_rate: u64, creep: u64)
    requires
        !zero(creep),
    ensures
        zero(rolls_at(speed, yaw_rate, creep)) <==> zero(read_of(speed)) && zero(read_of(yaw_rate)),
{
}

/// Which pedal an axis presses.
#[derive(Clone, Copy, Debug, PartialEq, Eq, Structural)]
pub enum Pedal {
    Throttle,
    Brake,
}

/// What the speed loop does in a step.
#[derive(Clone, Copy, Debug, PartialEq, Eq, Structural)]
pub enum Longitudinal {
    /// Hold the vehicle on its brakes, with the integrator at rest.
    Hold,
    Drive,
}

/// What an update asks of the pedals.
#[derive(Clone, Copy, Debug, PartialEq, Eq, Structural)]
pub enum Move {
    /// Nothing: what is commanded does not depend on the gear direction.
    Pass,
    /// The pedal axis presses one of them.
    Press(Pedal),
    /// The speed loop decides.
    Run(Longitudinal),
}

/// The gear direction, and whether a side motor saturated in the last step.
#[derive(Clone, Copy, Debug, PartialEq, Eq, Structural)]
pub struct DriveState {
    pub reverse: bool,
    pub saturated: bool,
}

impl DriveState {
    pub fn new() -> (r: DriveState)
        ensures
            !r.reverse,
            !r.saturated,
    {
        DriveState { reverse: false, saturated: false }
    }

    /// The direction after a request at this speed: it changes only near standstill.
    pub open spec fn direction(&self, request: u64, speed: u64, hold_speed: u64) -> bool {
        let wants = ieee::lt64(read_of(request), 0);
        if wants != self.reverse && ieee::lt64(speed, rolling_of(hold_speed)) {
            wants
        } else {
            self.reverse
        }
    }

    fn turn(&mut self, request: u64, speed: u64, hold_speed: u64)
        ensures
            final(self).reverse == old(self).direction(request, speed, hold_speed),
            final(self).saturated == old(self).saturated,
    {
        let wants: bool = ieee::is_lt64(read_request(request), 0);
        if wants != self.reverse && ieee::is_lt64(speed, rolling_speed(hold_speed)) {
            self.reverse = wants;
        }
    }

    /// One pedal axis of a vehicle with an engine: the throttle, or the brake while it still rolls the
    /// other way. `speed` is without sign.
    fn pedal(&mut self, drive: u64, speed: u64, hold_speed: u64) -> (p: Pedal)
        ensures
            final(self).reverse == old(self).direction(drive, speed, hold_speed),
            final(self).saturated == old(self).saturated,
            p == Pedal::Throttle <==> ieee::lt64(read_of(drive), 0) == final(self).reverse,
    {
        self.turn(drive, speed, hold_speed);
        if ieee::is_lt64(read_request(drive), 0) == self.reverse {
            Pedal::Throttle
        } else {
            Pedal::Brake
        }
    }

    /// The start of a speed loop step: the gear direction, and whether to hold. `speed` is without
    /// sign.
    fn longitudinal(&mut self, request: u64, speed: u64, hold_speed: u64) -> (l: Longitudinal)
        ensures
            final(self).reverse == old(self).direction(request, speed, hold_speed),
            final(self).saturated == old(self).saturated,
            l == Longitudinal::Hold <==> zero(read_of(request)) && ieee::lt64(speed, hold_speed),
    {
        self.turn(request, speed, hold_speed);
        if is_zero(read_request(request)) && ieee::is_lt64(speed, hold_speed) {
            Longitudinal::Hold
        } else {
            Longitudinal::Drive
        }
    }

    /// Whether a quantity points along the gear direction: an acceleration under drive.
    pub open spec fn along(&self, x: u64) -> bool {
        self.reverse && ieee::lt64(x, 0) || !self.reverse && ieee::lt64(0, x)
    }

    pub fn under_drive(&self, accel: u64) -> (r: bool)
        ensures
            r == self.along(accel),
    {
        self.reverse && ieee::is_lt64(accel, 0) || !self.reverse && ieee::is_lt64(0, accel)
    }

    /// Whether a quantity points against the gear direction.
    pub open spec fn against(&self, x: u64) -> bool {
        self.reverse && ieee::lt64(0, x) || !self.reverse && ieee::lt64(x, 0)
    }

    /// Whether the brakes have to take away what the engine cannot.
    pub fn needs_brakes(&self, residual: u64) -> (r: bool)
        ensures
            r == self.against(residual),
    {
        self.reverse && ieee::is_lt64(0, residual) || !self.reverse && ieee::is_lt64(residual, 0)
    }

    /// The state in which an update goes on: the loops that drive through a gearbox or command a
    /// speed turn the gear direction, the others leave the state as it is.
    pub open spec fn begun(
        self,
        entry: Loop,
        engine: bool,
        request: u64,
        speed: u64,
        hold_speed: u64,
    ) -> DriveState {
        let turned = DriveState {
            reverse: self.direction(request, speed, hold_speed),
            saturated: self.saturated,
        };
        match entry {
            Loop::PassThrough | Loop::Sides | Loop::SideDrive => self,
            Loop::Pedal => if engine {
                turned
            } else {
                self
            },
            Loop::Steered | Loop::BrakedSide | Loop::SpeedOnly => turned,
        }
    }

    /// What an update asks of the pedals, once the gear direction is settled.
    pub open spec fn asks(self, entry: Loop, engine: bool, request: u64, speed: u64, hold_speed: u64) -> Move {
        match entry {
            Loop::PassThrough | Loop::Sides | Loop::SideDrive => Move::Pass,
            Loop::Pedal => if !engine {
                Move::Pass
            } else if ieee::lt64(read_of(request), 0) == self.reverse {
                Move::Press(Pedal::Throttle)
            } else {
                Move::Press(Pedal::Brake)
            },
            Loop::Steered | Loop::BrakedSide | Loop::SpeedOnly => if zero(read_of(request)) && ieee::lt64(
                speed,
                hold_speed,
            ) {
                Move::Run(Longitudinal::Hold)
            } else {
                Move::Run(Longitudinal::Drive)
            },
        }
    }

    /// Begins an update in the loop `entry` of a vehicle that has an engine or not. `request` is the
    /// pedal axis or the speed asked for, `speed` the present one without its sign.
    pub fn advance(
        &mut self,
        entry: Loop,
        engine: bool,
        request: u64,
        speed: u64,
        hold_speed: u64,
    ) -> (m: Move)
        ensures
            *final(self) == old(self).begun(entry, engine, request, speed, hold_speed),
            m == final(self).asks(entry, engine, request, speed, hold_speed),
    {
        match entry {
            Loop::PassThrough | Loop::Sides | Loop::SideDrive => Move::Pass,
            Loop::Pedal => if engine {
                Move::Press(self.pedal(request, speed, hold_speed))
            } else {
                Move::Pass
            },
            Loop::Steered | Loop::BrakedSide | Loop::SpeedOnly => {
                Move::Run(self.longitudinal(request, speed, hold_speed))
            },
        }
    }

    /// The state behind the commands, without their signs, that an update gives to the sides.
    pub open spec fn commanded(self, commands: Seq<u64>) -> DriveState {
        DriveState { reverse: self.reverse, saturated: any_full(commands) }
    }

    /// Notes the commands, without their signs, that an update gives to the sides: a full one holds
    /// the outer integrators in the next.
    pub fn note_commands(&mut self, commands: &Vec<u64>)
        ensures
            *final(self) == old(self).commanded(commands@),
    {
        let mut full: bool = false;
        let mut i: usize = 0;
        while i < commands.len()
            invariant
                i <= commands@.len(),
                full == any_full(commands@.take(i as int)),
            decreases commands@.len() - i,
        {
            assert(commands@.take(i + 1).drop_last() =~= commands@.take(i as int));
            full = full || ieee::is_le64(ground_actions::ONE, commands[i]);
            i += 1;
        }
        assert(commands@.take(i as int) =~= commands@);
        self.saturated = full;
    }
}

/// Whether one of some commands is full.
pub open spec fn any_full(commands: Seq<u64>) -> bool
    decreases commands.len(),
{
    commands.len() > 0 && (any_full(commands.drop_last()) || ieee::le64(
        ground_actions::ONE,
        commands.last(),
    ))
}

/// One update: the loop that its setpoint enters, what that loop reads, and the commands that it
/// then gives to the sides, if it gives any.
pub ghost struct Update {
    pub entry: Loop,
    pub engine: bool,
    pub request: u64,
    pub speed: u64,
    pub hold_speed: u64,
    pub commands: Option<Seq<u64>>,
}

/// Whether an update passes its setpoint on: driver input, or commands of the sides.
pub open spec fn passes_on(u: Update) -> bool {
    (u.entry == Loop::PassThrough || u.entry == Loop::Sides) && u.commands is None
}

/// The state behind an update.
pub open spec fn updated(s: DriveState, u: Update) -> DriveState {
    let begun = s.begun(u.entry, u.engine, u.request, u.speed, u.hold_speed);
    match u.commands {
        Some(c) => begun.commanded(c),
        None => begun,
    }
}

/// The state behind some updates, one after the other.
pub open spec fn driven(s: DriveState, updates: Seq<Update>) -> DriveState
    decreases updates.len(),
{
    if updates.len() == 0 {
        s
    } else {
        updated(driven(s, updates.drop_last()), updates.last())
    }
}

/// Direct input and side commands leave no trace: what comes later goes on as if they had not been.
pub proof fn lemma_passed_input_leaves_no_trace(
    s: DriveState,
    before: Seq<Update>,
    u: Update,
    after: Seq<Update>,
)
    requires
        passes_on(u),
    ensures
        driven(s, before.push(u) + after) == driven(s, before + after),
    decreases after.len(),
{
    let (with, without) = (before.push(u) + after, before + after);
    if after.len() == 0 {
        assert(with =~= before.push(u));
        assert(without =~= before);
        assert(with.drop_last() =~= before);
    } else {
        lemma_passed_input_leaves_no_trace(s, before, u, after.drop_last());
        assert(with.drop_last() =~= before.push(u) + after.drop_last());
        assert(without.drop_last() =~= before + after.drop_last());
        assert(with.last() == without.last());
    }
}

/// The direction changes only near standstill, whatever is asked.
pub proof fn lemma_no_gear_change_while_rolling(s: DriveState, request: u64, speed: u64, hold_speed: u64)
    requires
        !ieee::lt64(speed, rolling_of(hold_speed)),
    ensures
        s.direction(request, speed, hold_speed) == s.reverse,
{
}

/// Near standstill the gear direction follows the request; one that is not finite asks for none.
pub proof fn lemma_gear_follows_request(s: DriveState, request: u64, speed: u64, hold_speed: u64)
    requires
        ieee::lt64(speed, rolling_of(hold_speed)),
    ensures
        s.direction(request, speed, hold_speed) == ieee::lt64(read_of(request), 0),
        !ieee::finite64(request) ==> !s.direction(request, speed, hold_speed),
{
}

/// Whether every driven wheel slips more than it may under a force that is asked for.
pub open spec fn slipping(accel: u64, least_slip: u64, allowed: u64) -> bool {
    !zero(accel) && ieee::lt64(allowed, least_slip)
}

/// Whether traction control fades the drive force: it is asked for, and even the least slipping wheel
/// slips too much.
pub fn fades(accel: u64, least_slip: u64, allowed: u64) -> (r: bool)
    ensures
        r == slipping(accel, least_slip, allowed),
{
    !is_zero(accel) && ieee::is_lt64(allowed, least_slip)
}

/// Whether the speed integrator runs: near the target, and not further into a limit. `error` is given
/// with its sign and without.
pub open spec fn integrates(error: u64, size: u64, band: u64, raw: u64, limited: u64) -> bool {
    &&& ieee::lt64(size, band)
    &&& (ieee::le64(limited, raw) && ieee::le64(raw, limited)) || (ieee::lt64(limited, raw) != ieee::lt64(0, error))
}

pub fn speed_integrates(error: u64, size: u64, band: u64, raw: u64, limited: u64) -> (r: bool)
    ensures
        r == integrates(error, size, band, raw, limited),
{
    ieee::is_lt64(size, band) && (ieee::is_le64(limited, raw) && ieee::is_le64(raw, limited) || ieee::is_lt64(
        limited,
        raw,
    ) != ieee::is_lt64(0, error))
}

/// At a limit the speed integrator runs only against it.
pub proof fn lemma_speed_integrator_leaves_limits(error: u64, size: u64, band: u64, raw: u64, limited: u64)
    requires
        integrates(error, size, band, raw, limited),
    ensures
        ieee::lt64(limited, raw) ==> !ieee::lt64(0, error),
        ieee::lt64(raw, limited) ==> ieee::lt64(0, error),
{
}

/// What the speed loop may ask for: an acceleration that the vehicle can give, between `lo` and `hi`,
/// and within the configured limits. Where these leave nothing, the lower end wins.
pub open spec fn demand_of(raw: u64, lo: u64, hi: u64, least: u64, most: u64) -> u64 {
    let lower = ieee::larger64(lo, least);
    ieee::clamped64(raw, lower, ieee::larger64(ieee::smaller64(hi, most), lower))
}

pub fn demand(raw: u64, lo: u64, hi: u64, least: u64, most: u64) -> (r: u64)
    requires
        !ieee::nan64(least),
        !ieee::nan64(most),
    ensures
        r == demand_of(raw, lo, hi, least, most),
{
    let lower: u64 = ieee::max64(lo, least);
    ieee::clamp64(raw, lower, ieee::max64(ieee::min64(hi, most), lower))
}

/// The demand never exceeds what the powertrain and the brakes can give, nor the configured limits,
/// unless one range lies beyond the other.
pub proof fn lemma_demand_stays_within_limits(raw: u64, lo: u64, hi: u64, least: u64, most: u64)
    requires
        !ieee::nan64(raw),
        ieee::le64(lo, hi),
        ieee::le64(least, most),
        ieee::le64(lo, most),
        ieee::le64(least, hi),
    ensures
        ieee::le64(lo, demand_of(raw, lo, hi, least, most)),
        ieee::le64(demand_of(raw, lo, hi, least, most), hi),
        ieee::le64(least, demand_of(raw, lo, hi, least, most)),
        ieee::le64(demand_of(raw, lo, hi, least, most), most),
{
}

/// Whether the integrator of a motor runs.
pub open spec fn motor_runs(command: u64, size: u64, error: u64) -> bool {
    ieee::lt64(size, ground_actions::ONE) || ieee::lt64(0, command) != ieee::lt64(0, error)
}

/// Whether a side motor's integrator runs: below full command, or back from it. `size` is the command
/// without its sign.
pub fn motor_integrates(command: u64, size: u64, error: u64) -> (r: bool)
    ensures
        r == motor_runs(command, size, error),
{
    ieee::is_lt64(size, ground_actions::ONE) || ieee::is_lt64(0, command) != ieee::is_lt64(0, error)
}

/// The accelerations that a vehicle can give: those of the powertrain, widened by the brakes, which act
/// against the motion, and at standstill either way. The brakes' share is given with both signs.
pub open spec fn bounds_of(lo: u64, hi: u64, back: u64, forth: u64, speed: u64) -> (u64, u64) {
    (
        if ieee::le64(0, speed) {
            ieee::smaller64(lo, back)
        } else {
            lo
        },
        if ieee::le64(speed, 0) {
            ieee::larger64(hi, forth)
        } else {
            hi
        },
    )
}

pub fn accel_bounds(lo: u64, hi: u64, back: u64, forth: u64, speed: u64) -> (r: (u64, u64))
    ensures
        r == bounds_of(lo, hi, back, forth, speed),
{
    let least: u64 = if ieee::is_le64(0, speed) {
        ieee::min64(lo, back)
    } else {
        lo
    };
    let most: u64 = if ieee::is_le64(speed, 0) {
        ieee::max64(hi, forth)
    } else {
        hi
    };
    (least, most)
}

/// Brakes take nothing away from what the powertrain can give, and always help against the motion.
pub proof fn lemma_brakes_widen_the_range(lo: u64, hi: u64, back: u64, forth: u64, speed: u64)
    requires
        ieee::le64(lo, hi),
        !ieee::nan64(back),
        !ieee::nan64(forth),
    ensures
        ieee::le64(bounds_of(lo, hi, back, forth, speed).0, lo),
        ieee::le64(hi, bounds_of(lo, hi, back, forth, speed).1),
        ieee::le64(0, speed) ==> ieee::le64(bounds_of(lo, hi, back, forth, speed).0, back),
        ieee::le64(speed, 0) ==> ieee::le64(forth, bounds_of(lo, hi, back, forth, speed).1),
{
}

/// Whether a side drive that is asked for nothing stands nearly still.
pub open spec fn held_still(
    speed_request: u64,
    yaw_request: u64,
    speed: u64,
    hold_speed: u64,
    yaw_rate: u64,
    still: u64,
) -> bool {
    zero(read_of(speed_request)) && zero(read_of(yaw_request)) && ieee::lt64(speed, hold_speed) && ieee::lt64(
        yaw_rate,
        still,
    )
}

/// Whether a side drive is held on its brakes: nothing is asked for and it hardly moves or turns. Speed
/// and yaw rate are without sign.
pub fn side_drive_holds(
    speed_request: u64,
    yaw_request: u64,
    speed: u64,
    hold_speed: u64,
    yaw_rate: u64,
    still: u64,
) -> (r: bool)
    ensures
        r == held_still(speed_request, yaw_request, speed, hold_speed, yaw_rate, still),
{
    is_zero(read_request(speed_request)) && is_zero(read_request(yaw_request)) && ieee::is_lt64(speed, hold_speed) && ieee::is_lt64(
        yaw_rate,
        still,
    )
}

/// How a motor takes part in turning left: the right side pushes, the left side pulls.
pub open spec fn turning_share(side: MotorSide) -> i8 {
    match side {
        MotorSide::Left => -1i8,
        MotorSide::Right => 1i8,
        MotorSide::Both => 0i8,
    }
}

/// The sign with which a motor takes part in turning left.
pub fn turning_sign(side: MotorSide) -> (r: i8)
    ensures
        r == turning_share(side),
{
    match side {
        MotorSide::Left => -1,
        MotorSide::Right => 1,
        MotorSide::Both => 0,
    }
}

/// A request that the vehicle can give and that the configuration allows is passed on unchanged; one
/// beyond that becomes the nearest that is allowed, and one that is not a number stays.
pub proof fn lemma_demands_within_limits_are_met(raw: u64, lo: u64, hi: u64, least: u64, most: u64)
    requires
        ieee::le64(lo, hi),
        ieee::le64(least, most),
        ieee::le64(lo, most),
        ieee::le64(least, hi),
    ensures
        ieee::le64(lo, raw) && ieee::le64(least, raw) && ieee::le64(raw, hi) && ieee::le64(raw, most) ==> demand_of(
            raw,
            lo,
            hi,
            least,
            most,
        ) == raw,
        ({
            let r = demand_of(raw, lo, hi, least, most);
            &&& ieee::lt64(raw, lo) || ieee::lt64(raw, least) ==> (r == lo || r == least) && ieee::le64(lo, r)
                && ieee::le64(least, r)
            &&& ieee::lt64(hi, raw) || ieee::lt64(most, raw) ==> (r == hi || r == most) && ieee::le64(r, hi)
                && ieee::le64(r, most)
        }),
        ieee::nan64(raw) ==> demand_of(raw, lo, hi, least, most) == raw,
{
}

/// A limit of the vehicle that is not a number limits nothing; and where the two ranges do not meet, the
/// larger lower end is asked for, whatever the request.
pub proof fn lemma_demands_between_ranges(raw: u64, lo: u64, hi: u64, least: u64, most: u64)
    requires
        !ieee::nan64(raw),
        ieee::le64(least, most),
    ensures
        ieee::nan64(lo) && ieee::nan64(hi) && ieee::le64(least, raw) && ieee::le64(raw, most) ==> demand_of(
            raw,
            lo,
            hi,
            least,
            most,
        ) == raw,
        ieee::lt64(most, lo) ==> ieee::rank64(demand_of(raw, lo, hi, least, most)) == ieee::rank64(lo),
        ieee::lt64(hi, least) && ieee::le64(lo, hi) ==> ieee::rank64(demand_of(raw, lo, hi, least, most))
            == ieee::rank64(least),
{
}

/// Asking for more never gives less.
pub proof fn lemma_demand_grows_with_the_request(a: u64, b: u64, lo: u64, hi: u64, least: u64, most: u64)
    requires
        ieee::le64(a, b),
        !ieee::nan64(least),
        !ieee::nan64(most),
    ensures
        ieee::le64(demand_of(a, lo, hi, least, most), demand_of(b, lo, hi, least, most)),
{
}

/// Motors of the sides turn a vehicle wherever it has them, brakes of the sides only where it does not.
pub proof fn lemma_motors_turn_before_brakes(side_drive: bool, differential: bool)
    ensures
        turning(side_drive, differential) == Loop::SideDrive <==> side_drive,
        turning(side_drive, differential) == Loop::BrakedSide <==> differential && !side_drive,
        turning(side_drive, differential) == Loop::SpeedOnly <==> !differential && !side_drive,
{
}

/// What is read of a request is finite, and is the request wherever that is.
pub proof fn lemma_requests_are_read(x: u64)
    ensures
        ieee::finite64(read_of(x)),
        ieee::finite64(x) ==> read_of(x) == x,
        !ieee::finite64(x) ==> zero(read_of(x)),
        zero(x) <==> x == 0 || x == ieee::SIGN64,
{
}

/// A vehicle is near standstill at every speed below the holding speed, and at every speed below half a
/// metre per second, and at no other.
pub proof fn lemma_standstill(hold_speed: u64, speed: u64)
    requires
        !ieee::nan64(hold_speed),
    ensures
        ieee::lt64(speed, rolling_of(hold_speed)) <==> ieee::lt64(speed, hold_speed) || ieee::lt64(
            speed,
            0x3fe0_0000_0000_0000,
        ),
{
}

/// A vehicle that turns by braking one side keeps the speed it is asked for, unless it is asked to turn
/// on the spot.
pub proof fn lemma_turning_keeps_the_speed(speed: u64, yaw_rate: u64, creep: u64)
    requires
        ieee::finite64(speed),
        ieee::finite64(yaw_rate),
    ensures
        !zero(speed) ==> rolls_at(speed, yaw_rate, creep) == speed,
        zero(yaw_rate) ==> rolls_at(speed, yaw_rate, creep) == speed,
        zero(speed) && !zero(yaw_rate) ==> rolls_at(speed, yaw_rate, creep) == creep,
{
}

/// A quantity points along the gear direction exactly if it has its sign; turning the direction turns
/// that, but for nothing.
pub proof fn lemma_along_is_the_gear_direction(x: u64, saturated: bool)
    ensures
        (DriveState { reverse: false, saturated }).along(x) <==> ieee::lt64(0, x),
        (DriveState { reverse: true, saturated }).along(x) <==> ieee::lt64(x, 0),
{
}

/// Turning the direction takes a request for the other one near standstill. Only the loops that drive
/// through a gearbox or command a speed turn it, and none touches the saturation.
pub proof fn lemma_direction_is_turned_by_requests(
    s: DriveState,
    entry: Loop,
    engine: bool,
    request: u64,
    speed: u64,
    hold_speed: u64,
)
    ensures
        ({
            let r = s.begun(entry, engine, request, speed, hold_speed);
            let drives = entry == Loop::Steered || entry == Loop::BrakedSide || entry == Loop::SpeedOnly || entry
                == Loop::Pedal && engine;
            let near = ieee::lt64(speed, rolling_of(hold_speed));
            let back = ieee::finite64(request) && ieee::lt64(request, 0);
            &&& r.saturated == s.saturated
            &&& drives && near ==> r.reverse == back
            &&& !drives || !near ==> r.reverse == s.reverse
        }),
{
}

/// A full command of one side is noticed, whichever it is, and nothing else is.
pub proof fn lemma_full_commands_are_noticed(commands: Seq<u64>)
    ensures
        any_full(commands) <==> exists|i: int|
            0 <= i < commands.len() && ieee::le64(ground_actions::ONE, #[trigger] commands[i]),
    decreases commands.len(),
{
    if commands.len() > 0 {
        let front = commands.drop_last();
        lemma_full_commands_are_noticed(front);
        if any_full(front) {
            let i = choose|i: int| 0 <= i < front.len() && ieee::le64(ground_actions::ONE, #[trigger] front[i]);
            assert(commands[i] == front[i]);
        }
        if exists|i: int| 0 <= i < commands.len() && ieee::le64(ground_actions::ONE, #[trigger] commands[i]) {
            let i = choose|i: int|
                0 <= i < commands.len() && ieee::le64(ground_actions::ONE, #[trigger] commands[i]);
            if i < front.len() {
                assert(front[i] == commands[i]);
            }
        }
    }
}

/// Near its target and within the limits the speed integrator runs, and at a limit it runs on errors
/// that lead away from it; away from its target it never runs.
pub proof fn lemma_speed_integrator_runs(error: u64, size: u64, band: u64, raw: u64, limited: u64)
    ensures
        ieee::lt64(size, band) && !ieee::nan64(raw) && raw == limited ==> integrates(error, size, band, raw, limited),
        ieee::lt64(size, band) && ieee::lt64(limited, raw) && ieee::lt64(error, 0) ==> integrates(
            error,
            size,
            band,
            raw,
            limited,
        ),
        ieee::lt64(size, band) && ieee::lt64(raw, limited) && ieee::lt64(0, error) ==> integrates(
            error,
            size,
            band,
            raw,
            limited,
        ),
        !ieee::lt64(size, band) ==> !integrates(error, size, band, raw, limited),
{
}

/// Brakes do not push: they widen the range only against the motion, by no more than their share.
pub proof fn lemma_brakes_do_not_push(lo: u64, hi: u64, back: u64, forth: u64, speed: u64)
    requires
        ieee::le64(lo, hi),
        !ieee::nan64(back),
        !ieee::nan64(forth),
    ensures
        ({
            let r = bounds_of(lo, hi, back, forth, speed);
            &&& ieee::lt64(0, speed) ==> r.1 == hi
            &&& ieee::lt64(speed, 0) ==> r.0 == lo
            &&& r.0 == lo || r.0 == back
            &&& r.1 == hi || r.1 == forth
            &&& ieee::nan64(speed) ==> r == (lo, hi)
        }),
{
}

/// Gears take their own ratio, and those beyond either end the one at that end.
pub proof fn lemma_gears_take_their_ratio(gear: i32, n: int)
    requires
        0 < n,
    ensures
        1 <= gear <= n ==> gear_place(gear, n) == gear - 1,
        gear < 1 ==> gear_place(gear, n) == 0,
        gear > n ==> gear_place(gear, n) == n - 1,
        0 <= gear_place(gear, n) < n,
{
}

/// The wheels of driven axles are exactly those on them.
pub proof fn lemma_driven_wheels_are_on_driven_axles(axles: Seq<usize>, w: int)
    ensures
        wheels_of(axles).len() == 2 * axles.len(),
        wheels_of(axles).contains(w) <==> exists|i: int|
            0 <= i < axles.len() && (w == 2 * #[trigger] axles[i] || w == 2 * axles[i] + 1),
{
    let all = wheels_of(axles);
    if all.contains(w) {
        let k = all.index_of(w);
        assert(w == 2 * axles[k / 2] + k % 2);
    }
    if exists|i: int| 0 <= i < axles.len() && (w == 2 * #[trigger] axles[i] || w == 2 * axles[i] + 1) {
        let i = choose|i: int| 0 <= i < axles.len() && (w == 2 * #[trigger] axles[i] || w == 2 * axles[i] + 1);
        let k = if w == 2 * axles[i] {
            2 * i
        } else {
            2 * i + 1
        };
        assert(all[k] == w);
    }
}

/// A vehicle is steered, and held, by gains that are numbers: the periods, time constants and limits
/// positive and finite, the other gains not negative.
pub proof fn lemma_valid_gains(c: GroundConfig, dt: u64)
    ensures
        c.valid(dt) <==> (forall|v: u64|
            v == dt || v == c.speed_time_constant || v == c.speed_integral_band || v == c.max_accel || v == c.max_decel
                || v == c.traction_slip_floor || v == c.wheel_time_constant ==> 0 < #[trigger] ieee::rank64(v)
                < ieee::INFINITY64) && (forall|v: u64|
            v == c.speed_integral || v == c.hold_speed || v == c.traction_slip || v == c.curvature_integral || v
                == c.curvature_correction || v == c.yaw_integral || v == c.side_speed_integral ==> 0
                <= #[trigger] ieee::rank64(v) <= ieee::INFINITY64),
{
    let r = ieee::rank64(dt) + ieee::rank64(c.speed_time_constant) + ieee::rank64(c.speed_integral_band) + ieee::rank64(
        c.max_accel,
    ) + ieee::rank64(c.max_decel) + ieee::rank64(c.traction_slip_floor) + ieee::rank64(c.wheel_time_constant);
    let s = ieee::rank64(c.speed_integral) + ieee::rank64(c.hold_speed) + ieee::rank64(c.traction_slip) + ieee::rank64(
        c.curvature_integral,
    ) + ieee::rank64(c.curvature_correction) + ieee::rank64(c.yaw_integral) + ieee::rank64(c.side_speed_integral);
}

/// The default gains fit a controller at any period.
pub proof fn lemma_default_gains_are_valid(dt: u64)
    requires
        0 < ieee::rank64(dt) < ieee::INFINITY64,
    ensures
        GroundConfig::defaults().valid(dt),
{
}

/// The axle that leads is steered, no axle is steered by a larger share, and none behind it by as large
/// a one; so there is only one.
pub proof fn lemma_leading_axle(steer: Seq<u64>, a: int, b: int)
    requires
        leads(steer, a),
        0 <= b < steer.len(),
    ensures
        steer[a] != 0 && steer[a] != ieee::SIGN64,
        steer[b] != 0 && steer[b] != ieee::SIGN64 ==> magnitude(steer[b]) <= magnitude(steer[a]),
        steer[b] != 0 && steer[b] != ieee::SIGN64 && b > a ==> magnitude(steer[b]) < magnitude(steer[a]),
        leads(steer, b) ==> a == b,
{
}

/// The widest axle is steered by the largest share, and none behind it by as large a one.
pub proof fn lemma_widest_axle(steer: Seq<u64>, a: int, b: int)
    requires
        widest(steer, a),
        0 <= b < steer.len(),
    ensures
        magnitude(steer[b]) <= magnitude(steer[a]),
        b > a ==> magnitude(steer[b]) < magnitude(steer[a]),
        widest(steer, b) ==> a == b,
{
    if widest(steer, b) {
        assert(magnitude(steer[a]) <= magnitude(steer[b]) && magnitude(steer[b]) <= magnitude(steer[a]));
    }
}

/// A share has the same size to either side.
pub proof fn lemma_magnitude_ignores_the_sign(v: u64)
    requires
        v < ieee::SIGN64,
    ensures
        magnitude(v) == v,
        magnitude((v + ieee::SIGN64) as u64) == v,
{
}

/// The defaults of [`GroundConfig`], as fractions.
pub proof fn lemma_default_gains()
    ensures
        ({
            let c = GroundConfig::defaults();
            &&& ieee::nearest(c.speed_time_constant, 1, 2)
            &&& ieee::nearest(c.speed_integral, 1, 4)
            &&& ieee::nearest(c.speed_integral_band, 1, 1)
            &&& ieee::nearest(c.max_accel, 3, 1)
            &&& ieee::nearest(c.max_decel, 6, 1)
            &&& ieee::nearest(c.hold_speed, 3, 10)
            &&& ieee::nearest(c.traction_slip, 1, 10)
            &&& ieee::nearest(c.traction_slip_floor, 3, 10)
            &&& ieee::nearest(c.curvature_integral, 1, 1)
            &&& ieee::nearest(c.curvature_correction, 3, 20)
            &&& ieee::nearest(c.yaw_integral, 2, 1)
            &&& ieee::nearest(c.side_speed_integral, 2, 1)
            &&& ieee::nearest(c.wheel_time_constant, 1, 20)
        }),
{
    vstd::arithmetic::power2::lemma2_to64();
    vstd::arithmetic::power2::lemma2_to64_rest();
}

/// Commands of the sides leave the gear direction, and only the newest of them count: a full one among
/// them is noted, and forgotten with the next that have none.
pub proof fn lemma_newest_commands_count(s: DriveState, first: Seq<u64>, then_given: Seq<u64>)
    ensures
        s.commanded(first).reverse == s.reverse,
        s.commanded(first).commanded(then_given) == s.commanded(then_given),
        s.commanded(first).saturated <==> exists|i: int|
            0 <= i < first.len() && ieee::le64(ground_actions::ONE, #[trigger] first[i]),
        !s.commanded(Seq::empty()).saturated,
{
    lemma_full_commands_are_noticed(first);
    lemma_full_commands_are_noticed(Seq::<u64>::empty());
}

/// Every setpoint enters the loop of its kind. Curvatures are followed by the wheels where they steer, and
/// else, as yaw rates always are, by the sides: by their motors before the brakes of a differential.
pub proof fn lemma_setpoints_enter_their_loops(s: GroundSetpoint, steered: bool, side_drive: bool, differential: bool)
    ensures
        ({
            let l = entered(s, steered, side_drive, differential);
            let sides = s is SpeedYawRate || s is SpeedCurvature && !steered;
            &&& l == Loop::PassThrough <==> s is Direct
            &&& l == Loop::Sides <==> s is Sides
            &&& l == Loop::Pedal <==> s is Pedal
            &&& l == Loop::Steered <==> s is SpeedCurvature && steered
            &&& l == Loop::SideDrive <==> sides && side_drive
            &&& l == Loop::BrakedSide <==> sides && !side_drive && differential
            &&& l == Loop::SpeedOnly <==> sides && !side_drive && !differential
        }),
{
}

/// Traction control fades a force exactly where one is asked for, either way, and even the least slipping
/// wheel slips more than it may.
pub proof fn lemma_traction_control_fades(accel: u64, least_slip: u64, allowed: u64)
    ensures
        ieee::le64(least_slip, allowed) ==> !slipping(accel, least_slip, allowed),
        accel == 0 || accel == ieee::SIGN64 ==> !slipping(accel, least_slip, allowed),
        (ieee::lt64(0, accel) || ieee::lt64(accel, 0)) && ieee::lt64(allowed, least_slip) ==> slipping(
            accel,
            least_slip,
            allowed,
        ),
{
}

/// The integrator of a motor runs below full command, and at full command on errors that lead away from
/// it and on no others.
pub proof fn lemma_motor_integrator_leaves_limits(command: u64, size: u64, error: u64)
    ensures
        ieee::lt64(size, ground_actions::ONE) ==> motor_runs(command, size, error),
        ieee::le64(ground_actions::ONE, size) && ieee::lt64(0, command) ==> (motor_runs(command, size, error)
            <==> !ieee::lt64(0, error)),
        ieee::le64(ground_actions::ONE, size) && ieee::lt64(command, 0) ==> (motor_runs(command, size, error)
            <==> ieee::lt64(0, error)),
{
}

/// A side drive is held exactly if it is asked neither to move nor to turn and does hardly either.
pub proof fn lemma_side_drives_are_held(
    speed_request: u64,
    yaw_request: u64,
    speed: u64,
    hold_speed: u64,
    yaw_rate: u64,
    still: u64,
)
    ensures
        ({
            let r = held_still(speed_request, yaw_request, speed, hold_speed, yaw_rate, still);
            let asks = |x: u64| ieee::finite64(x) && x != 0 && x != ieee::SIGN64;
            &&& asks(speed_request) || asks(yaw_request) ==> !r
            &&& ieee::le64(hold_speed, speed) || ieee::le64(still, yaw_rate) ==> !r
            &&& !asks(speed_request) && !asks(yaw_request) && ieee::lt64(speed, hold_speed) && ieee::lt64(yaw_rate, still)
                ==> r
        }),
{
}

/// To turn left the right side pushes as much as the left side pulls, and motors of both sides do neither.
pub proof fn lemma_sides_turn_the_vehicle()
    ensures
        turning_share(MotorSide::Right) == 1,
        turning_share(MotorSide::Left) == -turning_share(MotorSide::Right),
        turning_share(MotorSide::Both) == 0,
{
}

/// Whatever is not nothing points either along the gear direction or against it.
pub proof fn lemma_along_or_against(s: DriveState, x: u64)
    ensures
        !(s.along(x) && s.against(x)),
        zero(x) || ieee::nan64(x) ==> !s.along(x) && !s.against(x),
        !zero(x) && !ieee::nan64(x) ==> s.along(x) || s.against(x),
        !s.reverse ==> (s.against(x) <==> ieee::lt64(x, 0)),
        s.reverse ==> (s.against(x) <==> ieee::lt64(0, x)),
{
}

/// The pedal axis of an engine accelerates in the gear direction and brakes against it; at rest it always
/// accelerates, as the direction then follows it, and rolling it brakes a vehicle before it reverses. Loops
/// that command a speed hold the vehicle exactly if none is asked for below the holding speed.
pub proof fn lemma_pedals_brake_before_they_reverse(
    s: DriveState,
    entry: Loop,
    engine: bool,
    request: u64,
    speed: u64,
    hold_speed: u64,
)
    ensures
        ({
            let next = s.begun(entry, engine, request, speed, hold_speed);
            let m = next.asks(entry, engine, request, speed, hold_speed);
            let back = ieee::finite64(request) && ieee::lt64(request, 0);
            let near = ieee::lt64(speed, rolling_of(hold_speed));
            let commands = entry == Loop::Steered || entry == Loop::BrakedSide || entry == Loop::SpeedOnly;
            &&& m is Press <==> entry == Loop::Pedal && engine
            &&& m is Run <==> commands
            &&& entry == Loop::Pedal && engine && near ==> m == Move::Press(Pedal::Throttle) && next.reverse == back
            &&& entry == Loop::Pedal && engine && !near && back == s.reverse ==> m == Move::Press(Pedal::Throttle)
            &&& entry == Loop::Pedal && engine && !near && back != s.reverse ==> m == Move::Press(Pedal::Brake)
                && next.reverse == s.reverse
            &&& commands ==> (m == Move::Run(Longitudinal::Hold) <==> (!ieee::finite64(request) || request == 0 || request
                == ieee::SIGN64) && ieee::lt64(speed, hold_speed))
        }),
{
}

} // verus!

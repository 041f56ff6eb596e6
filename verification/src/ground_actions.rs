//! Normalised actions of ground vehicles: which components they have, what the components are called,
//! and how they are read.
//!
//! Actions and limits are the bits of 64-bit numbers.

use vstd::prelude::*;
use vstd::string::StringExecFns;

use crate::config;
use crate::ieee;
use crate::modes::{ControlError, GroundActionMode};
use crate::text;

verus! {

/// The bits of 1 and of −1.
pub const ONE: u64 = 0x3ff0_0000_0000_0000;

pub const MINUS_ONE: u64 = 0xbff0_0000_0000_0000;

/// A component of an action as it is read: clipped to `[−1, 1]`, and 0 if it is not finite.
pub open spec fn clipped(x: u64) -> u64 {
    if !ieee::finite64(x) {
        0
    } else if ieee::lt64(x, MINUS_ONE) {
        MINUS_ONE
    } else if ieee::lt64(ONE, x) {
        ONE
    } else {
        x
    }
}

pub fn clip(x: u64) -> (r: u64)
    ensures
        r == clipped(x),
{
    if !ieee::is_finite64(x) {
        0
    } else if ieee::is_lt64(x, MINUS_ONE) {
        MINUS_ONE
    } else if ieee::is_lt64(ONE, x) {
        ONE
    } else {
        x
    }
}

/// Whatever an action holds, what is read is a number in `[−1, 1]`, and reading it again changes
/// nothing.
pub proof fn lemma_actions_are_bounded(x: u64)
    ensures
        ieee::le64(MINUS_ONE, clipped(x)),
        ieee::le64(clipped(x), ONE),
        clipped(clipped(x)) == clipped(x),
{
}

/// A component of a one-sided channel: negative ones read as 0.
pub open spec fn one_sided(x: u64) -> u64 {
    if ieee::lt64(clipped(x), 0) {
        0
    } else {
        clipped(x)
    }
}

fn clip_one_sided(x: u64) -> (r: u64)
    ensures
        r == one_sided(x),
{
    let c: u64 = clip(x);
    if ieee::is_lt64(c, 0) {
        0
    } else {
        c
    }
}

/// One channel of the per-wheel mode.
#[derive(Clone, Copy, Debug, PartialEq, Eq, Structural)]
pub enum PerWheelChannel {
    Throttle,
    Steering,
    /// Motor driving the wheels in the bit mask.
    Drive(u32),
    Brake(usize),
    Steer(usize),
}

/// Whether wheel `w` is in a mask.
pub open spec fn in_mask(mask: u32, w: int) -> bool {
    0 <= w < 32 && (mask >> (w as u32)) & 1 == 1
}

fn is_in_mask(mask: u32, w: u32) -> (r: bool)
    requires
        w < 32,
    ensures
        r == in_mask(mask, w as int),
{
    (mask >> w) & 1 == 1
}

/// The numbers of the wheels before `n` in a mask, as text.
pub open spec fn wheels_named(mask: u32, n: int) -> Seq<Seq<char>>
    decreases n,
{
    if n <= 0 {
        Seq::empty()
    } else if in_mask(mask, n - 1) {
        wheels_named(mask, n - 1).push(text::decimal_of((n - 1) as nat))
    } else {
        wheels_named(mask, n - 1)
    }
}

fn wheel_names(mask: u32) -> (r: Vec<String>)
    ensures
        text::views(r@) == wheels_named(mask, 32),
{
    let mut r: Vec<String> = Vec::new();
    let mut w: u32 = 0;
    assert(text::views(r@) =~= wheels_named(mask, 0));
    while w < 32
        invariant
            w <= 32,
            text::views(r@) == wheels_named(mask, w as int),
        decreases 32 - w,
    {
        let ghost before = r@;
        if is_in_mask(mask, w) {
            let s = text::decimal(w as u64);
            r.push(s);
            assert(text::views(r@) =~= text::views(before).push(text::decimal_of(w as nat)));
        }
        w += 1;
    }
    r
}

impl PerWheelChannel {
    pub open spec fn title(self) -> Seq<char> {
        match self {
            PerWheelChannel::Throttle => "throttle"@,
            PerWheelChannel::Steering => "steering"@,
            PerWheelChannel::Drive(mask) => "drive_"@ + text::joined(wheels_named(mask, 32), "_"@),
            PerWheelChannel::Brake(w) => "brake_"@ + text::decimal_of(w as nat),
            PerWheelChannel::Steer(w) => "steer_"@ + text::decimal_of(w as nat),
        }
    }

    pub fn name(self) -> (r: String)
        ensures
            r@ == self.title(),
    {
        match self {
            PerWheelChannel::Throttle => "throttle".to_owned(),
            PerWheelChannel::Steering => "steering".to_owned(),
            PerWheelChannel::Drive(mask) => {
                let mut s = "drive_".to_owned();
                s.append(text::join(&wheel_names(mask), "_").as_str());
                s
            },
            PerWheelChannel::Brake(w) => {
                let mut s = "brake_".to_owned();
                s.append(text::decimal(w as u64).as_str());
                s
            },
            PerWheelChannel::Steer(w) => {
                let mut s = "steer_".to_owned();
                s.append(text::decimal(w as u64).as_str());
                s
            },
        }
    }
}

proof fn lemma_wheels_are_decimals(mask: u32, n: int)
    ensures
        forall|i: int|
            0 <= i < wheels_named(mask, n).len() ==> exists|w: int|
                0 <= w < n && #[trigger] wheels_named(mask, n)[i] == #[trigger] text::decimal_of(w as nat),
        forall|i: int|
            0 <= i < wheels_named(mask, n).len() ==> text::free_of(#[trigger] wheels_named(mask, n)[i], '_'),
    decreases n,
{
    if n > 0 {
        lemma_wheels_are_decimals(mask, n - 1);
        text::lemma_decimal_is_digits((n - 1) as nat);
        let (s, t) = (wheels_named(mask, n - 1), wheels_named(mask, n));
        assert forall|i: int| 0 <= i < t.len() implies exists|w: int|
            0 <= w < n && #[trigger] t[i] == #[trigger] text::decimal_of(w as nat) by {
            if i < s.len() {
                assert(t[i] == s[i]);
                let w = choose|w: int| 0 <= w < n - 1 && s[i] == #[trigger] text::decimal_of(w as nat);
                assert(t[i] == text::decimal_of(w as nat));
            } else {
                assert(t[i] == text::decimal_of((n - 1) as nat));
            }
        }
        assert forall|i: int| 0 <= i < t.len() implies text::free_of(#[trigger] t[i], '_') by {
            if i < s.len() {
                assert(t[i] == s[i]);
            }
        }
    }
}

/// The named wheels tell which wheels are in a mask.
proof fn lemma_wheels_tell_masks(a: u32, b: u32, n: int)
    requires
        0 <= n <= 32,
        wheels_named(a, n) == wheels_named(b, n),
    ensures
        forall|w: int| 0 <= w < n ==> (#[trigger] in_mask(a, w) <==> in_mask(b, w)),
    decreases n,
{
    if n > 0 {
        let (x, y) = (wheels_named(a, n - 1), wheels_named(b, n - 1));
        if in_mask(a, n - 1) && in_mask(b, n - 1) {
            assert(x =~= wheels_named(a, n).drop_last());
            assert(y =~= wheels_named(b, n).drop_last());
        } else if in_mask(a, n - 1) {
            lemma_wheels_are_decimals(b, n - 1);
            let last = y.len() - 1;
            assert(y[last] == text::decimal_of((n - 1) as nat));
            let w = choose|w: int| 0 <= w < n - 1 && y[last] == #[trigger] text::decimal_of(w as nat);
            text::lemma_decimals_differ(w as nat, (n - 1) as nat);
        } else if in_mask(b, n - 1) {
            lemma_wheels_are_decimals(a, n - 1);
            let last = x.len() - 1;
            assert(x[last] == text::decimal_of((n - 1) as nat));
            let w = choose|w: int| 0 <= w < n - 1 && x[last] == #[trigger] text::decimal_of(w as nat);
            text::lemma_decimals_differ(w as nat, (n - 1) as nat);
        }
        lemma_wheels_tell_masks(a, b, n - 1);
    }
}

/// A mask is its wheels.
proof fn lemma_masks_differ(a: u32, b: u32, k: u32)
    requires
        k < 32,
        forall|w: int| 0 <= w < 32 ==> (#[trigger] in_mask(a, w) <==> in_mask(b, w)),
    ensures
        a >> k == b >> k,
    decreases 32 - k,
{
    assert(in_mask(a, k as int) <==> in_mask(b, k as int));
    if k < 31 {
        let j: u32 = (k + 1) as u32;
        lemma_masks_differ(a, b, j);
        assert(a >> k == b >> k) by (bit_vector)
            requires
                k < 31,
                j == k + 1,
                a >> j == b >> j,
                (a >> k) & 1 == 1 <==> (b >> k) & 1 == 1,
        ;
    } else {
        assert(a >> k == b >> k) by (bit_vector)
            requires
                k == 31,
                (a >> k) & 1 == 1 <==> (b >> k) & 1 == 1,
        ;
    }
}

/// Different channels have different names.
pub proof fn lemma_names_differ(a: PerWheelChannel, b: PerWheelChannel)
    ensures
        (a.title() == b.title()) == (a == b),
{
    reveal_strlit("throttle");
    reveal_strlit("steering");
    reveal_strlit("drive_");
    reveal_strlit("brake_");
    reveal_strlit("steer_");
    reveal_strlit("_");
    if a.title() == b.title() {
        assert(a.title()[0] == b.title()[0]);
        assert(a.title()[5] == b.title()[5]);
        let (x, y) = (a.title().skip(6), b.title().skip(6));
        match (a, b) {
            (PerWheelChannel::Drive(m), PerWheelChannel::Drive(n)) => {
                assert("_"@ =~= seq!['_']);
                assert(x =~= text::joined(wheels_named(m, 32), "_"@));
                assert(y =~= text::joined(wheels_named(n, 32), "_"@));
                lemma_wheels_are_decimals(m, 32);
                lemma_wheels_are_decimals(n, 32);
                text::lemma_joined_differ(wheels_named(m, 32), wheels_named(n, 32));
                lemma_wheels_tell_masks(m, n, 32);
                lemma_masks_differ(m, n, 0);
                assert(m == n) by (bit_vector)
                    requires
                        m >> 0u32 == n >> 0u32,
                ;
            },
            (PerWheelChannel::Brake(v), PerWheelChannel::Brake(w)) => {
                assert(x =~= text::decimal_of(v as nat));
                assert(y =~= text::decimal_of(w as nat));
                text::lemma_decimals_differ(v as nat, w as nat);
            },
            (PerWheelChannel::Steer(v), PerWheelChannel::Steer(w)) => {
                assert(x =~= text::decimal_of(v as nat));
                assert(y =~= text::decimal_of(w as nat));
                text::lemma_decimals_differ(v as nat, w as nat);
            },
            _ => {},
        }
    }
}

/// The side of the vehicle that a motor drives.
#[derive(Clone, Copy, Debug, PartialEq, Eq, Structural)]
pub enum MotorSide {
    Left,
    Right,
    Both,
}

/// Whether left and right motors drive the vehicle, and no others.
pub open spec fn side_driven(sides: Seq<MotorSide>) -> bool {
    sides.contains(MotorSide::Left) && sides.contains(MotorSide::Right) && !sides.contains(MotorSide::Both)
}

fn drives(sides: &Vec<MotorSide>, side: MotorSide) -> (r: bool)
    ensures
        r == sides@.contains(side),
{
    let mut i: usize = 0;
    while i < sides.len()
        invariant
            i <= sides@.len(),
            forall|j: int| 0 <= j < i ==> #[trigger] sides@[j] != side,
        decreases sides@.len() - i,
    {
        if sides[i] == side {
            assert(sides@[i as int] == side);
            return true;
        }
        i += 1;
    }
    false
}

/// Whether left and right motors drive the vehicle (skid-steer or diff-drive), and no others.
pub fn is_side_drive(sides: &Vec<MotorSide>) -> (r: bool)
    ensures
        r == side_driven(sides@),
{
    drives(sides, MotorSide::Left) && drives(sides, MotorSide::Right) && !drives(sides, MotorSide::Both)
}

/// How an axle is steered and braked.
#[derive(Clone, Copy, Debug, PartialEq, Eq, Structural)]
pub struct Axle {
    /// Steered by the Ackermann linkage with a share other than 0.
    pub linked: bool,
    /// Wheels steered independently.
    pub independent: bool,
    /// Has a service brake.
    pub braked: bool,
}

/// What an action map needs to know about a vehicle. Axle `a` holds wheels `2a` and `2a + 1`.
pub struct Chassis {
    /// Driven by an engine; else by the motors below.
    pub combustion: bool,
    /// The engine's differential turns the vehicle by braking one side.
    pub differential_steering: bool,
    /// The wheels of each motor, as bit masks, and the side it drives.
    pub motors: Vec<u32>,
    pub sides: Vec<MotorSide>,
    pub axles: Vec<Axle>,
}

/// The channels of wheels before `n` on braked axles.
pub open spec fn brakes(axles: Seq<Axle>, n: int) -> Seq<PerWheelChannel>
    decreases n,
{
    if n <= 0 {
        Seq::empty()
    } else if axles[(n - 1) / 2].braked {
        brakes(axles, n - 1).push(PerWheelChannel::Brake((n - 1) as usize))
    } else {
        brakes(axles, n - 1)
    }
}

/// The channels of wheels before `n` on independently steered axles.
pub open spec fn steers(axles: Seq<Axle>, n: int) -> Seq<PerWheelChannel>
    decreases n,
{
    if n <= 0 {
        Seq::empty()
    } else if axles[(n - 1) / 2].independent {
        steers(axles, n - 1).push(PerWheelChannel::Steer((n - 1) as usize))
    } else {
        steers(axles, n - 1)
    }
}

impl Chassis {
    pub open spec fn linked(&self) -> bool {
        exists|i: int| 0 <= i < self.axles@.len() && (#[trigger] self.axles@[i]).linked
    }

    pub open spec fn side_drive(&self) -> bool {
        !self.combustion && side_driven(self.sides@)
    }

    /// Whether the vehicle follows a yaw rate with its two sides: by their motors, or by a differential
    /// that brakes one of them.
    pub open spec fn turns_by_sides(&self) -> bool {
        if self.combustion {
            self.differential_steering
        } else {
            side_driven(self.sides@)
        }
    }

    /// The channels that the vehicle has: throttle, steering, motors, brakes, steered wheels.
    pub open spec fn channels_of(&self) -> Seq<PerWheelChannel> {
        let throttle = if self.combustion {
            seq![PerWheelChannel::Throttle]
        } else {
            Seq::empty()
        };
        let steering = if self.linked() {
            seq![PerWheelChannel::Steering]
        } else {
            Seq::empty()
        };
        let motors = if self.combustion {
            Seq::empty()
        } else {
            self.motors@.map_values(|m: u32| PerWheelChannel::Drive(m))
        };
        let n = 2 * self.axles@.len();
        throttle + steering + motors + brakes(self.axles@, n as int) + steers(self.axles@, n as int)
    }

    fn is_linked(&self) -> (r: bool)
        ensures
            r == self.linked(),
    {
        let mut i: usize = 0;
        while i < self.axles.len()
            invariant
                i <= self.axles@.len(),
                forall|j: int| 0 <= j < i ==> !(#[trigger] self.axles@[j]).linked,
            decreases self.axles@.len() - i,
        {
            if self.axles[i].linked {
                return true;
            }
            i += 1;
        }
        false
    }

    fn is_side_drive(&self) -> (r: bool)
        ensures
            r == self.side_drive(),
    {
        !self.combustion && is_side_drive(&self.sides)
    }

    fn has_turning_sides(&self) -> (r: bool)
        ensures
            r == self.turns_by_sides(),
    {
        if self.combustion {
            self.differential_steering
        } else {
            is_side_drive(&self.sides)
        }
    }

    /// The channels that the vehicle has, in their order.
    pub fn channels(&self) -> (r: Vec<PerWheelChannel>)
        requires
            2 * self.axles@.len() <= usize::MAX,
        ensures
            r@ == self.channels_of(),
    {
        let ghost motors = self.motors@.map_values(|m: u32| PerWheelChannel::Drive(m));
        let mut r: Vec<PerWheelChannel> = Vec::new();
        if self.combustion {
            r.push(PerWheelChannel::Throttle);
        }
        if self.is_linked() {
            r.push(PerWheelChannel::Steering);
        }
        let ghost start = r@;
        if !self.combustion {
            let mut i: usize = 0;
            while i < self.motors.len()
                invariant
                    i <= self.motors@.len(),
                    motors == self.motors@.map_values(|m: u32| PerWheelChannel::Drive(m)),
                    r@ == start + motors.take(i as int),
                decreases self.motors@.len() - i,
            {
                r.push(PerWheelChannel::Drive(self.motors[i]));
                i += 1;
                assert(r@ =~= start + motors.take(i as int));
            }
            assert(motors.take(i as int) =~= motors);
        }
        let n: usize = 2 * self.axles.len();
        let ghost driven = r@;
        let mut w: usize = 0;
        assert(r@ =~= driven + brakes(self.axles@, 0));
        while w < n
            invariant
                w <= n == 2 * self.axles@.len(),
                r@ == driven + brakes(self.axles@, w as int),
            decreases n - w,
        {
            if self.axles[w / 2].braked {
                r.push(PerWheelChannel::Brake(w));
            }
            w += 1;
            assert(r@ =~= driven + brakes(self.axles@, w as int));
        }
        let ghost braked = r@;
        let mut w: usize = 0;
        assert(r@ =~= braked + steers(self.axles@, 0));
        while w < n
            invariant
                w <= n == 2 * self.axles@.len(),
                r@ == braked + steers(self.axles@, w as int),
            decreases n - w,
        {
            if self.axles[w / 2].independent {
                r.push(PerWheelChannel::Steer(w));
            }
            w += 1;
            assert(r@ =~= braked + steers(self.axles@, w as int));
        }
        assert(r@ =~= self.channels_of());
        r
    }
}

/// Full-scale values of the normalised actions: speed and reverse speed (m/s), curvature (1/m) and yaw
/// rate (rad/s).
#[derive(Clone, Copy, Debug, PartialEq, Eq, Structural)]
pub struct Scales {
    pub speed: u64,
    pub reverse: u64,
    pub curvature: u64,
    pub yaw_rate: u64,
}

impl Scales {
    pub open spec fn positive(&self) -> bool {
        &&& config::positive(self.speed) && ieee::finite64(self.speed)
        &&& config::positive(self.reverse) && ieee::finite64(self.reverse)
        &&& config::positive(self.curvature) && ieee::finite64(self.curvature)
        &&& config::positive(self.yaw_rate) && ieee::finite64(self.yaw_rate)
    }

    pub fn is_positive(&self) -> (r: bool)
        ensures
            r == self.positive(),
    {
        config::is_positive(self.speed) && ieee::is_finite64(self.speed) && config::is_positive(self.reverse)
            && ieee::is_finite64(self.reverse) && config::is_positive(self.curvature)
            && ieee::is_finite64(self.curvature) && config::is_positive(self.yaw_rate)
            && ieee::is_finite64(self.yaw_rate)
    }
}

/// The fastest that a vehicle is driven by default, 20 m/s.
pub const FASTEST: u64 = 0x4034_0000_0000_0000;

/// Full-scale values that a user gives; omitted ones follow from the vehicle.
#[derive(Clone, Copy, Debug, PartialEq, Eq)]
pub struct GroundActionLimits {
    pub speed: Option<u64>,
    pub reverse: Option<u64>,
    pub curvature: Option<u64>,
    pub yaw_rate: Option<u64>,
}

impl Default for GroundActionLimits {
    fn default() -> (r: GroundActionLimits)
        ensures
            r == (GroundActionLimits { speed: None, reverse: None, curvature: None, yaw_rate: None }),
    {
        GroundActionLimits { speed: None, reverse: None, curvature: None, yaw_rate: None }
    }
}

/// What omitted limits follow from, computed from a vehicle's data.
#[derive(Clone, Copy, Debug, PartialEq, Eq)]
pub struct Defaults {
    /// Top speed: of the engine or the motors without load, in the top gear.
    pub top: u64,
    /// 0.3·speed.
    pub reduced: u64,
    /// 95 % of the tightest curvature of a vehicle that steers by its wheels.
    pub tightest: Option<u64>,
    /// 2/track.
    pub pivot: u64,
    /// 0.8·speed/track.
    pub by_track: u64,
    /// speed·curvature.
    pub by_path: u64,
}

/// A limit that is given, or the one that follows from the vehicle.
pub open spec fn resolved(given: Option<u64>, derived: u64) -> u64 {
    match given {
        Some(x) => x,
        None => derived,
    }
}

pub fn resolve(given: Option<u64>, derived: u64) -> (r: u64)
    ensures
        r == resolved(given, derived),
{
    match given {
        Some(x) => x,
        None => derived,
    }
}

impl GroundActionLimits {
    pub open spec fn speed_of(&self, top: u64) -> u64 {
        resolved(self.speed, ieee::smaller64(top, FASTEST))
    }

    pub open spec fn curvature_of(&self, tightest: Option<u64>, pivot: u64) -> u64 {
        resolved(self.curvature, resolved(tightest, pivot))
    }

    /// The full-scale values for a vehicle: the given ones, and for the others the top speed up to 20 m/s;
    /// reverse reduced for engines; the tightest curvature, or that of a turn about one side; the yaw
    /// rate by the track for vehicles that turn by their sides, and else by the path.
    pub open spec fn scales_of(&self, d: Defaults, c: Chassis) -> Scales {
        let speed = self.speed_of(d.top);
        Scales {
            speed,
            reverse: resolved(
                self.reverse,
                if c.combustion {
                    d.reduced
                } else {
                    speed
                },
            ),
            curvature: self.curvature_of(d.tightest, d.pivot),
            yaw_rate: resolved(
                self.yaw_rate,
                if c.turns_by_sides() {
                    d.by_track
                } else {
                    d.by_path
                },
            ),
        }
    }

    /// The forward speed of a vehicle with this top speed.
    pub fn full_speed(&self, top: u64) -> (r: u64)
        ensures
            r == self.speed_of(top),
    {
        resolve(self.speed, ieee::min64(top, FASTEST))
    }

    /// The curvature of a vehicle, by its tightest one where it steers by its wheels.
    pub fn full_curvature(&self, tightest: Option<u64>, pivot: u64) -> (r: u64)
        ensures
            r == self.curvature_of(tightest, pivot),
    {
        resolve(self.curvature, resolve(tightest, pivot))
    }

    /// The full-scale values for a vehicle.
    pub fn scales(&self, d: &Defaults, c: &Chassis) -> (r: Scales)
        ensures
            r == self.scales_of(*d, *c),
    {
        let speed: u64 = self.full_speed(d.top);
        let back: u64 = if c.combustion {
            d.reduced
        } else {
            speed
        };
        let turn: u64 = if c.has_turning_sides() {
            d.by_track
        } else {
            d.by_path
        };
        Scales {
            speed,
            reverse: resolve(self.reverse, back),
            curvature: self.full_curvature(d.tightest, d.pivot),
            yaw_rate: resolve(self.yaw_rate, turn),
        }
    }
}

/// A limit that is given is kept, whatever the vehicle; one that is not positive and finite spoils them
/// all.
pub proof fn lemma_given_limits_are_kept(l: GroundActionLimits, d: Defaults, c: Chassis)
    ensures
        l.speed matches Some(x) ==> l.scales_of(d, c).speed == x,
        l.reverse matches Some(x) ==> l.scales_of(d, c).reverse == x,
        l.curvature matches Some(x) ==> l.scales_of(d, c).curvature == x,
        l.yaw_rate matches Some(x) ==> l.scales_of(d, c).yaw_rate == x,
        ({
            ||| l.speed matches Some(x) && !(config::positive(x) && ieee::finite64(x))
            ||| l.reverse matches Some(x) && !(config::positive(x) && ieee::finite64(x))
            ||| l.curvature matches Some(x) && !(config::positive(x) && ieee::finite64(x))
            ||| l.yaw_rate matches Some(x) && !(config::positive(x) && ieee::finite64(x))
        }) ==> !l.scales_of(d, c).positive(),
{
}

/// What is said of limits that are not positive, and of a mode for vehicles that turn by their sides.
pub open spec fn bad_limits(name: Seq<char>, shown: Seq<char>) -> Seq<char> {
    name + ": action limits must be positive ("@ + shown + ")"@
}

pub open spec fn needs_sides(name: Seq<char>) -> Seq<char> {
    name + ": vw needs a skid-steer or diff-drive vehicle"@
}

/// Maps normalised actions of one mode to setpoints for one vehicle.
#[derive(Clone, Debug)]
pub struct GroundActionMap {
    mode: GroundActionMode,
    side_drive: bool,
    scales: Scales,
    channels: Vec<PerWheelChannel>,
}

impl GroundActionMap {
    pub closed spec fn mode_of(&self) -> GroundActionMode {
        self.mode
    }

    pub closed spec fn side_drive(&self) -> bool {
        self.side_drive
    }

    pub closed spec fn scales_of(&self) -> Scales {
        self.scales
    }

    pub closed spec fn channels_of(&self) -> Seq<PerWheelChannel> {
        self.channels@
    }

    /// The map for a vehicle called `name`, whose omitted limits follow from `defaults`; `shown` is how
    /// its limits read.
    pub fn new(
        mode: GroundActionMode,
        limits: &GroundActionLimits,
        defaults: &Defaults,
        chassis: &Chassis,
        name: &str,
        shown: &str,
    ) -> (r: Result<GroundActionMap, ControlError>)
        requires
            2 * chassis.axles@.len() <= usize::MAX,
        ensures
            match r {
                Ok(m) => {
                    &&& limits.scales_of(*defaults, *chassis).positive()
                    &&& mode == GroundActionMode::Vw ==> chassis.turns_by_sides()
                    &&& m.mode_of() == mode
                    &&& m.side_drive() == chassis.side_drive()
                    &&& m.scales_of() == limits.scales_of(*defaults, *chassis)
                    &&& m.channels_of() == if mode == GroundActionMode::PerWheel {
                        chassis.channels_of()
                    } else {
                        Seq::empty()
                    }
                    &&& m.covers(2 * chassis.axles@.len() as int)
                },
                Err(e) => {
                    &&& e is InvalidConfig
                    &&& !limits.scales_of(*defaults, *chassis).positive() ==> (e->InvalidConfig_0)@
                        == bad_limits(name@, shown@)
                    &&& limits.scales_of(*defaults, *chassis).positive() ==> mode == GroundActionMode::Vw
                        && !chassis.turns_by_sides() && (e->InvalidConfig_0)@ == needs_sides(name@)
                },
            },
    {
        let mut e = String::new();
        e.append(name);
        assert(e@ =~= name@);
        let scales: Scales = limits.scales(defaults, chassis);
        if !scales.is_positive() {
            e.append(": action limits must be positive (");
            e.append(shown);
            e.append(")");
            return Err(ControlError::InvalidConfig(e));
        }
        let side_drive: bool = chassis.is_side_drive();
        if mode == GroundActionMode::Vw && !chassis.has_turning_sides() {
            e.append(": vw needs a skid-steer or diff-drive vehicle");
            return Err(ControlError::InvalidConfig(e));
        }
        let channels = if mode == GroundActionMode::PerWheel {
            chassis.channels()
        } else {
            Vec::new()
        };
        proof {
            if mode == GroundActionMode::PerWheel {
                assert forall|i: int| 0 <= i < channels@.len() implies match #[trigger] channels@[i] {
                    PerWheelChannel::Brake(w) => w < 2 * chassis.axles@.len(),
                    PerWheelChannel::Steer(w) => w < 2 * chassis.axles@.len(),
                    _ => true,
                } by {
                    lemma_channels_are_the_vehicles_own(chassis, i);
                }
            }
        }
        Ok(GroundActionMap { mode, side_drive, scales, channels })
    }

    pub fn mode(&self) -> (r: GroundActionMode)
        ensures
            r == self.mode_of(),
    {
        self.mode
    }

    pub fn scales(&self) -> (r: Scales)
        ensures
            r == self.scales_of(),
    {
        self.scales
    }

    pub fn speed(&self) -> (r: u64)
        ensures
            r == self.scales_of().speed,
    {
        self.scales.speed
    }

    pub fn reverse(&self) -> (r: u64)
        ensures
            r == self.scales_of().reverse,
    {
        self.scales.reverse
    }

    pub fn curvature(&self) -> (r: u64)
        ensures
            r == self.scales_of().curvature,
    {
        self.scales.curvature
    }

    pub fn yaw_rate(&self) -> (r: u64)
        ensures
            r == self.scales_of().yaw_rate,
    {
        self.scales.yaw_rate
    }

    /// The channels of the per-wheel mode (none in other modes).
    pub fn channels(&self) -> (r: &Vec<PerWheelChannel>)
        ensures
            r@ == self.channels_of(),
    {
        &self.channels
    }

    /// The length of an action.
    pub open spec fn width(&self) -> nat {
        if self.mode_of() == GroundActionMode::PerWheel {
            self.channels_of().len()
        } else {
            2
        }
    }

    pub fn dim(&self) -> (n: usize)
        ensures
            n == self.width(),
    {
        match self.mode {
            GroundActionMode::PerWheel => self.channels.len(),
            _ => 2,
        }
    }

    /// The names of the action components.
    pub open spec fn titles(&self) -> Seq<Seq<char>> {
        match self.mode_of() {
            GroundActionMode::Raw => if self.side_drive() {
                seq!["left"@, "right"@]
            } else {
                seq!["drive"@, "steering"@]
            },
            GroundActionMode::Vk => seq!["speed"@, "curvature"@],
            GroundActionMode::Vw => seq!["speed"@, "yaw_rate"@],
            GroundActionMode::PerWheel => self.channels_of().map_values(|c: PerWheelChannel| c.title()),
        }
    }

    /// Names of the action components.
    pub fn names(&self) -> (r: Vec<String>)
        ensures
            text::views(r@) == self.titles(),
            r@.len() == self.width(),
    {
        let mut r: Vec<String> = Vec::new();
        let (a, b) = match self.mode {
            GroundActionMode::Raw => if self.side_drive {
                ("left", "right")
            } else {
                ("drive", "steering")
            },
            GroundActionMode::Vk => ("speed", "curvature"),
            GroundActionMode::Vw => ("speed", "yaw_rate"),
            GroundActionMode::PerWheel => {
                let ghost all = self.channels@.map_values(|c: PerWheelChannel| c.title());
                let mut i: usize = 0;
                while i < self.channels.len()
                    invariant
                        i <= self.channels@.len(),
                        all == self.channels@.map_values(|c: PerWheelChannel| c.title()),
                        text::views(r@) == all.take(i as int),
                    decreases self.channels@.len() - i,
                {
                    let ghost before = r@;
                    let s = self.channels[i].name();
                    r.push(s);
                    i += 1;
                    assert(text::views(r@) =~= text::views(before).push(s@));
                    assert(all.take(i as int) =~= all.take(i - 1).push(s@));
                }
                assert(all.take(i as int) =~= all);
                assert(r@.len() == text::views(r@).len());
                return r;
            },
        };
        r.push(a.to_owned());
        r.push(b.to_owned());
        assert(text::views(r@) =~= seq![a@, b@]);
        r
    }

    /// The scale of a speed component: the forward speed, or the reverse speed for negative ones.
    pub fn speed_scale(&self, x: u64) -> (r: u64)
        ensures
            r == self.speed_of(x).scale,
    {
        if ieee::is_le64(0, clip(x)) {
            self.scales.speed
        } else {
            self.scales.reverse
        }
    }

    /// Whether the channels speak of the first `wheels` wheels only.
    pub open spec fn covers(&self, wheels: int) -> bool {
        forall|i: int|
            0 <= i < self.channels_of().len() ==> match #[trigger] self.channels_of()[i] {
                PerWheelChannel::Brake(w) => w < wheels,
                PerWheelChannel::Steer(w) => w < wheels,
                _ => true,
            }
    }

    /// Whether a vehicle with `wheels` wheels has all the wheels that the channels speak of.
    pub fn fits(&self, wheels: usize) -> (r: bool)
        ensures
            r == self.covers(wheels as int),
    {
        let mut i: usize = 0;
        while i < self.channels.len()
            invariant
                i <= self.channels@.len(),
                forall|j: int|
                    0 <= j < i ==> match #[trigger] self.channels_of()[j] {
                        PerWheelChannel::Brake(w) => w < wheels,
                        PerWheelChannel::Steer(w) => w < wheels,
                        _ => true,
                    },
            decreases self.channels@.len() - i,
        {
            let c: PerWheelChannel = self.channels[i];
            assert(c == self.channels_of()[i as int]);
            match c {
                PerWheelChannel::Brake(w) => if w >= wheels {
                    return false;
                },
                PerWheelChannel::Steer(w) => if w >= wheels {
                    return false;
                },
                _ => {},
            }
            i += 1;
        }
        true
    }

    /// What an action asks for.
    pub open spec fn asks(&self, a: Seq<u64>, wheels: nat, r: GroundSetpoint) -> bool {
        match self.mode_of() {
            GroundActionMode::Raw => if self.side_drive() {
                r == (GroundSetpoint::Sides { left: clipped(a[0]), right: clipped(a[1]) })
            } else {
                r == (GroundSetpoint::Pedal {
                    drive: clipped(a[0]),
                    steering: clipped(a[1]),
                    handbrake: false,
                })
            },
            GroundActionMode::Vk => r == (GroundSetpoint::SpeedCurvature {
                speed: self.speed_of(a[0]),
                curvature: (Scaled { action: clipped(a[1]), scale: self.scales_of().curvature }),
            }),
            GroundActionMode::Vw => r == (GroundSetpoint::SpeedYawRate {
                speed: self.speed_of(a[0]),
                yaw_rate: (Scaled { action: clipped(a[1]), scale: self.scales_of().yaw_rate }),
            }),
            GroundActionMode::PerWheel => (r matches GroundSetpoint::Direct(input) && input@ == read(
                self.channels_of(),
                a,
                wheels,
                a.len() as int,
            )),
        }
    }

    /// The setpoint of an action, for a vehicle with `wheels` wheels.
    pub fn setpoint(&self, action: &Vec<u64>, wheels: usize) -> (r: GroundSetpoint)
        requires
            action@.len() == self.width(),
            wheels <= 32,
            self.covers(wheels as int),
        ensures
            self.asks(action@, wheels as nat, r),
    {
        match self.mode {
            GroundActionMode::Raw => {
                let (a, b): (u64, u64) = (clip(action[0]), clip(action[1]));
                if self.side_drive {
                    GroundSetpoint::Sides { left: a, right: b }
                } else {
                    GroundSetpoint::Pedal { drive: a, steering: b, handbrake: false }
                }
            },
            GroundActionMode::Vk => {
                let speed = Scaled { action: clip(action[0]), scale: self.speed_scale(action[0]) };
                let curvature = Scaled { action: clip(action[1]), scale: self.scales.curvature };
                GroundSetpoint::SpeedCurvature { speed, curvature }
            },
            GroundActionMode::Vw => {
                let speed = Scaled { action: clip(action[0]), scale: self.speed_scale(action[0]) };
                let yaw_rate = Scaled { action: clip(action[1]), scale: self.scales.yaw_rate };
                GroundSetpoint::SpeedYawRate { speed, yaw_rate }
            },
            GroundActionMode::PerWheel => GroundSetpoint::Direct(self.per_wheel(action, wheels)),
        }
    }

    /// A speed component with its scale.
    pub open spec fn speed_of(&self, x: u64) -> Scaled {
        Scaled {
            action: clipped(x),
            scale: if ieee::le64(0, clipped(x)) {
                self.scales_of().speed
            } else {
                self.scales_of().reverse
            },
        }
    }

    /// The driver input of an action in the per-wheel mode, for a vehicle with `wheels` wheels.
    pub fn per_wheel(&self, action: &Vec<u64>, wheels: usize) -> (r: WheelInput)
        requires
            action@.len() == self.channels_of().len(),
            wheels <= 32,
            self.covers(wheels as int),
        ensures
            r@ == read(self.channels_of(), action@, wheels as nat, action@.len() as int),
    {
        let n: usize = action.len();
        let mut r = WheelInput {
            throttle: 0,
            steering: 0,
            drive: vec![0; wheels],
            brake: vec![0; wheels],
            steer: vec![0; wheels],
        };
        let mut i: usize = 0;
        assert(r@ =~= read(self.channels_of(), action@, wheels as nat, 0));
        while i < n
            invariant
                i <= n == action@.len() == self.channels@.len(),
                wheels <= 32,
                self.covers(wheels as int),
                r.drive@.len() == wheels,
                r.brake@.len() == wheels,
                r.steer@.len() == wheels,
                r@ == read(self.channels_of(), action@, wheels as nat, i as int),
            decreases n - i,
        {
            let x: u64 = action[i];
            let ghost before = r@;
            let c: PerWheelChannel = self.channels[i];
            assert(c == self.channels_of()[i as int]);
            match c {
                PerWheelChannel::Throttle => {
                    r.throttle = clip_one_sided(x);
                },
                PerWheelChannel::Steering => {
                    r.steering = clip(x);
                },
                PerWheelChannel::Drive(mask) => {
                    let y: u64 = clip(x);
                    let ghost drive = r.drive@;
                    let mut w: usize = 0;
                    while w < wheels
                        invariant
                            w <= wheels <= 32,
                            r.drive@.len() == wheels == drive.len(),
                            r.throttle == before.throttle,
                            r.steering == before.steering,
                            r.brake@ == before.brake,
                            r.steer@ == before.steer,
                            forall|k: int|
                                0 <= k < wheels ==> #[trigger] r.drive@[k] == if k < w && in_mask(mask, k) {
                                    y
                                } else {
                                    drive[k]
                                },
                        decreases wheels - w,
                    {
                        if is_in_mask(mask, w as u32) {
                            r.drive.set(w, y);
                        }
                        w += 1;
                    }
                    assert(r.drive@ =~= driven(drive, mask, y));
                },
                PerWheelChannel::Brake(w) => {
                    r.brake.set(w, clip_one_sided(x));
                },
                PerWheelChannel::Steer(w) => {
                    r.steer.set(w, clip(x));
                },
            }
            i += 1;
            assert(r@ == read(self.channels_of(), action@, wheels as nat, i as int));
        }
        r
    }
}

/// A component of a setpoint: a number in `[−1, 1]`, and the full-scale value that it is multiplied
/// by.
#[derive(Clone, Copy, Debug, PartialEq, Eq, Structural)]
pub struct Scaled {
    pub action: u64,
    pub scale: u64,
}

/// Input to the controller of a ground vehicle, at the level it enters.
pub enum GroundSetpoint {
    /// Driver input, passed through.
    Direct(WheelInput),
    /// One pedal axis (accelerate forward, or brake and then reverse) and steering.
    Pedal { drive: u64, steering: u64, handbrake: bool },
    /// Left and right motor commands, for side drives.
    Sides { left: u64, right: u64 },
    /// Forward speed (negative reverses) and path curvature (positive turns left).
    SpeedCurvature { speed: Scaled, curvature: Scaled },
    /// Forward speed and yaw rate, for vehicles that turn by their sides.
    SpeedYawRate { speed: Scaled, yaw_rate: Scaled },
}

/// Driver input with a command per wheel.
pub struct WheelInput {
    pub throttle: u64,
    pub steering: u64,
    pub drive: Vec<u64>,
    pub brake: Vec<u64>,
    pub steer: Vec<u64>,
}

/// Driver input with a command per wheel, as sequences.
#[verifier::ext_equal]
pub ghost struct Commands {
    pub throttle: u64,
    pub steering: u64,
    pub drive: Seq<u64>,
    pub brake: Seq<u64>,
    pub steer: Seq<u64>,
}

impl View for WheelInput {
    type V = Commands;

    open spec fn view(&self) -> Commands {
        Commands {
            throttle: self.throttle,
            steering: self.steering,
            drive: self.drive@,
            brake: self.brake@,
            steer: self.steer@,
        }
    }
}

/// Drive commands with those of the wheels in a mask replaced.
pub open spec fn driven(drive: Seq<u64>, mask: u32, x: u64) -> Seq<u64> {
    Seq::new(
        drive.len(),
        |k: int|
            if in_mask(mask, k) {
                x
            } else {
                drive[k]
            },
    )
}

/// What the first `n` components of an action ask for: each sets its channel, and what no channel
/// sets is 0.
pub open spec fn read(channels: Seq<PerWheelChannel>, action: Seq<u64>, wheels: nat, n: int) -> Commands
    decreases n,
{
    if n <= 0 {
        let none = Seq::new(wheels, |i: int| 0u64);
        Commands { throttle: 0, steering: 0, drive: none, brake: none, steer: none }
    } else {
        let r = read(channels, action, wheels, n - 1);
        let x = action[n - 1];
        match channels[n - 1] {
            PerWheelChannel::Throttle => Commands { throttle: one_sided(x), ..r },
            PerWheelChannel::Steering => Commands { steering: clipped(x), ..r },
            PerWheelChannel::Drive(mask) => Commands { drive: driven(r.drive, mask, clipped(x)), ..r },
            PerWheelChannel::Brake(w) => Commands { brake: r.brake.update(w as int, one_sided(x)), ..r },
            PerWheelChannel::Steer(w) => Commands { steer: r.steer.update(w as int, clipped(x)), ..r },
        }
    }
}

/// Every command stays in its range, whatever the action: throttle and brakes in `[0, 1]`, the others
/// in `[−1, 1]`.
pub proof fn lemma_commands_stay_in_range(
    channels: Seq<PerWheelChannel>,
    action: Seq<u64>,
    wheels: nat,
    n: int,
    w: int,
)
    requires
        0 <= w < wheels,
        0 <= n <= channels.len() == action.len(),
        forall|i: int|
            0 <= i < channels.len() ==> match #[trigger] channels[i] {
                PerWheelChannel::Brake(b) => b < wheels,
                PerWheelChannel::Steer(b) => b < wheels,
                _ => true,
            },
    ensures
        ({
            let r = read(channels, action, wheels, n);
            &&& r.drive.len() == r.brake.len() == r.steer.len() == wheels
            &&& ieee::le64(0, r.throttle) && ieee::le64(r.throttle, ONE)
            &&& ieee::le64(MINUS_ONE, r.steering) && ieee::le64(r.steering, ONE)
            &&& ieee::le64(MINUS_ONE, r.drive[w]) && ieee::le64(r.drive[w], ONE)
            &&& ieee::le64(0, r.brake[w]) && ieee::le64(r.brake[w], ONE)
            &&& ieee::le64(MINUS_ONE, r.steer[w]) && ieee::le64(r.steer[w], ONE)
        }),
    decreases n,
{
    if n > 0 {
        lemma_commands_stay_in_range(channels, action, wheels, n - 1, w);
        lemma_actions_are_bounded(action[n - 1]);
    }
}

proof fn lemma_read_clipped(channels: Seq<PerWheelChannel>, action: Seq<u64>, wheels: nat, n: int)
    requires
        0 <= n <= channels.len() == action.len(),
    ensures
        read(channels, action.map_values(|x: u64| clipped(x)), wheels, n) == read(channels, action, wheels, n),
    decreases n,
{
    if n > 0 {
        lemma_read_clipped(channels, action, wheels, n - 1);
        lemma_actions_are_bounded(action[n - 1]);
    }
}

/// Components outside `[−1, 1]` read as the nearest in it, and those that are not finite as 0: an action
/// asks for the same as its clipped components.
pub proof fn lemma_clipping_first_changes_nothing(
    m: GroundActionMap,
    action: Seq<u64>,
    wheels: nat,
    r: GroundSetpoint,
)
    requires
        action.len() == m.width(),
    ensures
        m.asks(action.map_values(|x: u64| clipped(x)), wheels, r) == m.asks(action, wheels, r),
{
    if m.mode_of() == GroundActionMode::PerWheel {
        lemma_read_clipped(m.channels_of(), action, wheels, action.len() as int);
    } else {
        lemma_actions_are_bounded(action[0]);
        lemma_actions_are_bounded(action[1]);
    }
}

/// Whether one of the first `n` channels commands wheel `w`: its motor, its brake, its steering.
pub open spec fn drives_wheel(channels: Seq<PerWheelChannel>, n: int, w: int) -> bool {
    exists|i: int| 0 <= i < n && (#[trigger] channels[i] matches PerWheelChannel::Drive(mask) && in_mask(mask, w))
}

pub open spec fn brakes_wheel(channels: Seq<PerWheelChannel>, n: int, w: int) -> bool {
    exists|i: int| 0 <= i < n && (#[trigger] channels[i] matches PerWheelChannel::Brake(b) && b == w)
}

pub open spec fn steers_wheel(channels: Seq<PerWheelChannel>, n: int, w: int) -> bool {
    exists|i: int| 0 <= i < n && (#[trigger] channels[i] matches PerWheelChannel::Steer(b) && b == w)
}

/// Wheels without a channel are not commanded.
pub proof fn lemma_wheels_without_channels_rest(
    channels: Seq<PerWheelChannel>,
    action: Seq<u64>,
    wheels: nat,
    n: int,
    w: int,
)
    requires
        0 <= w < wheels,
        0 <= n <= channels.len() == action.len(),
        forall|i: int|
            0 <= i < channels.len() ==> match #[trigger] channels[i] {
                PerWheelChannel::Brake(b) => b < wheels,
                PerWheelChannel::Steer(b) => b < wheels,
                _ => true,
            },
    ensures
        ({
            let r = read(channels, action, wheels, n);
            &&& r.drive.len() == r.brake.len() == r.steer.len() == wheels
            &&& !drives_wheel(channels, n, w) ==> r.drive[w] == 0
            &&& !brakes_wheel(channels, n, w) ==> r.brake[w] == 0
            &&& !steers_wheel(channels, n, w) ==> r.steer[w] == 0
        }),
    decreases n,
{
    if n > 0 {
        lemma_wheels_without_channels_rest(channels, action, wheels, n - 1, w);
        if !drives_wheel(channels, n, w) {
            assert(!drives_wheel(channels, n - 1, w));
        }
        if !brakes_wheel(channels, n, w) {
            assert(!brakes_wheel(channels, n - 1, w));
        }
        if !steers_wheel(channels, n, w) {
            assert(!steers_wheel(channels, n - 1, w));
        }
    }
}

proof fn lemma_brakes_on_wheels(axles: Seq<Axle>, n: int)
    requires
        0 <= n <= 2 * axles.len() <= usize::MAX,
    ensures
        forall|i: int|
            0 <= i < brakes(axles, n).len() ==> (#[trigger] brakes(axles, n)[i] matches PerWheelChannel::Brake(w) && w < n),
        forall|i: int|
            0 <= i < steers(axles, n).len() ==> (#[trigger] steers(axles, n)[i] matches PerWheelChannel::Steer(w) && w < n),
    decreases n,
{
    if n > 0 {
        lemma_brakes_on_wheels(axles, n - 1);
    }
}

/// The channels of a vehicle speak of its own wheels only.
pub proof fn lemma_channels_are_the_vehicles_own(c: &Chassis, i: int)
    requires
        2 * c.axles@.len() <= usize::MAX,
        0 <= i < c.channels_of().len(),
    ensures
        match c.channels_of()[i] {
            PerWheelChannel::Throttle => c.combustion,
            PerWheelChannel::Steering => c.linked(),
            PerWheelChannel::Drive(mask) => !c.combustion && c.motors@.contains(mask),
            PerWheelChannel::Brake(w) => w < 2 * c.axles@.len(),
            PerWheelChannel::Steer(w) => w < 2 * c.axles@.len(),
        },
{
    lemma_brakes_on_wheels(c.axles@, 2 * c.axles@.len() as int);
    let throttle = if c.combustion {
        seq![PerWheelChannel::Throttle]
    } else {
        Seq::empty()
    };
    let steering = if c.linked() {
        seq![PerWheelChannel::Steering]
    } else {
        Seq::empty()
    };
    let motors = if c.combustion {
        Seq::empty()
    } else {
        c.motors@.map_values(|m: u32| PerWheelChannel::Drive(m))
    };
    let (a, b) = (brakes(c.axles@, 2 * c.axles@.len() as int), steers(c.axles@, 2 * c.axles@.len() as int));
    assert(c.channels_of() =~= throttle + steering + motors + a + b);
    let k = i - throttle.len() - steering.len();
    if 0 <= k < motors.len() {
        assert(c.channels_of()[i] == motors[k]);
        assert(c.motors@.contains(c.motors@[k]));
    } else if motors.len() <= k < motors.len() + a.len() {
        assert(c.channels_of()[i] == a[k - motors.len()]);
    } else if motors.len() + a.len() <= k {
        assert(c.channels_of()[i] == b[k - motors.len() - a.len()]);
    }
}

/// Components within `[−1, 1]` are read as they are, those beyond as the nearer end, and those that are
/// not finite as nothing; those of one-sided channels likewise, but nothing below 0.
pub proof fn lemma_components_are_read(x: u64)
    ensures
        ieee::le64(MINUS_ONE, x) && ieee::le64(x, ONE) ==> clipped(x) == x,
        ieee::finite64(x) && ieee::lt64(ONE, x) ==> clipped(x) == ONE && one_sided(x) == ONE,
        ieee::finite64(x) && ieee::lt64(x, MINUS_ONE) ==> clipped(x) == MINUS_ONE,
        !ieee::finite64(x) ==> clipped(x) == 0 && one_sided(x) == 0,
        ieee::le64(0, x) && ieee::le64(x, ONE) ==> one_sided(x) == x,
        ieee::lt64(x, 0) ==> one_sided(x) == 0,
{
}

/// The wheels of two motors together are those of the one and those of the other, and a motor of one
/// wheel drives that one alone.
pub proof fn lemma_masks_are_sets_of_wheels(a: u32, b: u32, w: u32, v: u32)
    requires
        w < 32,
        v < 32,
    ensures
        in_mask(a | b, w as int) <==> in_mask(a, w as int) || in_mask(b, w as int),
        in_mask(1u32 << v, w as int) <==> v == w,
        !in_mask(0, w as int),
{
    assert(((a | b) >> w) & 1 == 1 <==> (a >> w) & 1 == 1 || (b >> w) & 1 == 1) by (bit_vector);
    assert(((1u32 << v) >> w) & 1 == 1 <==> v == w) by (bit_vector)
        requires
            w < 32,
            v < 32,
    ;
    assert((0u32 >> w) & 1 == 0) by (bit_vector);
}

/// A vehicle is driven by its sides exactly if it has a motor on each side, and none that drives both.
pub proof fn lemma_sides_are_driven(sides: Seq<MotorSide>)
    ensures
        side_driven(sides) <==> (exists|i: int| 0 <= i < sides.len() && #[trigger] sides[i] == MotorSide::Left) && (
        exists|i: int| 0 <= i < sides.len() && #[trigger] sides[i] == MotorSide::Right) && (forall|i: int|
            0 <= i < sides.len() ==> #[trigger] sides[i] != MotorSide::Both),
{
}

/// Vehicles with an engine turn by their sides by its differential, the others by their motors, and
/// only the latter are commanded by their sides.
pub proof fn lemma_turning_needs_sides(c: Chassis)
    ensures
        c.combustion ==> (c.turns_by_sides() <==> c.differential_steering) && !c.side_drive(),
        !c.combustion ==> (c.turns_by_sides() <==> side_driven(c.sides@)) && (c.side_drive() <==> side_driven(
            c.sides@,
        )),
{
}

proof fn lemma_brakes_and_steers(axles: Seq<Axle>, n: int, w: usize)
    requires
        0 <= n <= 2 * axles.len() <= usize::MAX,
    ensures
        brakes(axles, n).contains(PerWheelChannel::Brake(w)) <==> w < n && axles[w as int / 2].braked,
        steers(axles, n).contains(PerWheelChannel::Steer(w)) <==> w < n && axles[w as int / 2].independent,
    decreases n,
{
    lemma_brakes_on_wheels(axles, n);
    if n > 0 {
        lemma_brakes_and_steers(axles, n - 1, w);
        lemma_brakes_on_wheels(axles, n - 1);
        let (a, b) = (brakes(axles, n - 1), brakes(axles, n));
        let (c, d) = (steers(axles, n - 1), steers(axles, n));
        let (x, y) = (PerWheelChannel::Brake(w), PerWheelChannel::Steer(w));
        if a.contains(x) {
            assert(b[a.index_of(x)] == x);
        }
        if b.contains(x) && w != n - 1 {
            assert(a[b.index_of(x)] == x);
        }
        if axles[(n - 1) / 2].braked {
            assert(b[a.len() as int] == PerWheelChannel::Brake((n - 1) as usize));
        }
        if b.contains(x) && w == n - 1 && !axles[(n - 1) / 2].braked {
            assert(a[b.index_of(x)] == x);
        }
        if c.contains(y) {
            assert(d[c.index_of(y)] == y);
        }
        if d.contains(y) && w != n - 1 {
            assert(c[d.index_of(y)] == y);
        }
        if axles[(n - 1) / 2].independent {
            assert(d[c.len() as int] == PerWheelChannel::Steer((n - 1) as usize));
        }
        if d.contains(y) && w == n - 1 && !axles[(n - 1) / 2].independent {
            assert(c[d.index_of(y)] == y);
        }
    }
}

/// A vehicle has exactly the channels of its parts: a throttle for an engine, steering for a linkage, a
/// drive for each motor, and a brake and a steering angle for each wheel of a braked and of an
/// independently steered axle.
pub proof fn lemma_every_part_has_its_channel(c: &Chassis, w: usize, mask: u32)
    requires
        2 * c.axles@.len() <= usize::MAX,
    ensures
        c.channels_of().contains(PerWheelChannel::Throttle) <==> c.combustion,
        c.channels_of().contains(PerWheelChannel::Steering) <==> exists|i: int|
            0 <= i < c.axles@.len() && (#[trigger] c.axles@[i]).linked,
        c.channels_of().contains(PerWheelChannel::Drive(mask)) <==> !c.combustion && c.motors@.contains(mask),
        c.channels_of().contains(PerWheelChannel::Brake(w)) <==> w < 2 * c.axles@.len() && c.axles@[w as int
            / 2].braked,
        c.channels_of().contains(PerWheelChannel::Steer(w)) <==> w < 2 * c.axles@.len() && c.axles@[w as int
            / 2].independent,
{
    let n = 2 * c.axles@.len() as int;
    let all = c.channels_of();
    let throttle = if c.combustion {
        seq![PerWheelChannel::Throttle]
    } else {
        Seq::empty()
    };
    let steering = if c.linked() {
        seq![PerWheelChannel::Steering]
    } else {
        Seq::empty()
    };
    let motors = if c.combustion {
        Seq::empty()
    } else {
        c.motors@.map_values(|m: u32| PerWheelChannel::Drive(m))
    };
    let (b, s) = (brakes(c.axles@, n), steers(c.axles@, n));
    assert(all == throttle + steering + motors + b + s);
    lemma_brakes_and_steers(c.axles@, n, w);
    lemma_brakes_on_wheels(c.axles@, n);
    assert forall|x: PerWheelChannel| #[trigger] all.contains(x) <==> throttle.contains(x) || steering.contains(x)
        || motors.contains(x) || b.contains(x) || s.contains(x) by {
        let (p, q, r) = (throttle.len() as int, steering.len() as int, motors.len() as int);
        if throttle.contains(x) {
            assert(all[throttle.index_of(x)] == x);
        }
        if steering.contains(x) {
            assert(all[p + steering.index_of(x)] == x);
        }
        if motors.contains(x) {
            assert(all[p + q + motors.index_of(x)] == x);
        }
        if b.contains(x) {
            assert(all[p + q + r + b.index_of(x)] == x);
        }
        if s.contains(x) {
            assert(all[p + q + r + b.len() + s.index_of(x)] == x);
        }
        if all.contains(x) {
            let i = all.index_of(x);
            if i < p {
                assert(throttle[i] == x);
            } else if i < p + q {
                assert(steering[i - p] == x);
            } else if i < p + q + r {
                assert(motors[i - p - q] == x);
            } else if i < p + q + r + b.len() {
                assert(b[i - p - q - r] == x);
            } else {
                assert(s[i - p - q - r - b.len()] == x);
            }
        }
    }
    if c.combustion {
        assert(throttle[0] == PerWheelChannel::Throttle);
    } else {
        let d = PerWheelChannel::Drive(mask);
        if c.motors@.contains(mask) {
            assert(motors[c.motors@.index_of(mask)] == d);
        }
        if motors.contains(d) {
            assert(c.motors@[motors.index_of(d)] == mask);
        }
    }
    if c.linked() {
        assert(steering[0] == PerWheelChannel::Steering);
    }
}

/// What limits that are not given follow from: the top speed, but no more than 20 m/s; backwards the
/// same, or less with an engine; the tightest curvature of wheels that steer, or that of a turn about one
/// side; and the yaw rate by the track for vehicles that turn by their sides, else along the path.
pub proof fn lemma_omitted_limits_follow_from_the_vehicle(l: GroundActionLimits, d: Defaults, c: Chassis)
    ensures
        l.speed is None && ieee::le64(d.top, FASTEST) ==> l.scales_of(d, c).speed == d.top,
        l.speed is None && ieee::lt64(FASTEST, d.top) ==> l.scales_of(d, c).speed == FASTEST,
        l.reverse is None && c.combustion ==> l.scales_of(d, c).reverse == d.reduced,
        l.reverse is None && !c.combustion ==> l.scales_of(d, c).reverse == l.scales_of(d, c).speed,
        l.curvature is None ==> (d.tightest matches Some(k) ==> l.scales_of(d, c).curvature == k),
        l.curvature is None && d.tightest is None ==> l.scales_of(d, c).curvature == d.pivot,
        l.yaw_rate is None && c.turns_by_sides() ==> l.scales_of(d, c).yaw_rate == d.by_track,
        l.yaw_rate is None && !c.turns_by_sides() ==> l.scales_of(d, c).yaw_rate == d.by_path,
        l.scales_of(d, c).speed == l.speed_of(d.top),
        l.scales_of(d, c).curvature == l.curvature_of(d.tightest, d.pivot),
{
}

/// Scales are in order exactly if each is positive and finite.
pub proof fn lemma_positive_scales(s: Scales)
    ensures
        s.positive() <==> 0 < ieee::rank64(s.speed) < ieee::INFINITY64 && 0 < ieee::rank64(s.reverse) < ieee::INFINITY64
            && 0 < ieee::rank64(s.curvature) < ieee::INFINITY64 && 0 < ieee::rank64(s.yaw_rate) < ieee::INFINITY64,
{
}

/// An action within `[−1, 1]` is passed on component by component, the first as drive, left side or speed
/// and the second as steering, right side, curvature or yaw rate. Speeds are scaled by the forward speed,
/// negative ones by the reverse speed. No action pulls the handbrake.
pub proof fn lemma_actions_are_passed_on(m: GroundActionMap, a: Seq<u64>, wheels: nat, r: GroundSetpoint)
    requires
        m.asks(a, wheels, r),
        m.mode_of() != GroundActionMode::PerWheel,
        a.len() == 2,
        ieee::le64(MINUS_ONE, a[0]) && ieee::le64(a[0], ONE),
        ieee::le64(MINUS_ONE, a[1]) && ieee::le64(a[1], ONE),
    ensures
        match r {
            GroundSetpoint::Direct(_) => false,
            GroundSetpoint::Sides { left, right } => m.mode_of() == GroundActionMode::Raw && m.side_drive() && left == a[0]
                && right == a[1],
            GroundSetpoint::Pedal { drive, steering, handbrake } => m.mode_of() == GroundActionMode::Raw
                && !m.side_drive() && drive == a[0] && steering == a[1] && !handbrake,
            GroundSetpoint::SpeedCurvature { speed, curvature } => {
                &&& m.mode_of() == GroundActionMode::Vk
                &&& speed.action == a[0]
                &&& ieee::lt64(a[0], 0) ==> speed.scale == m.scales_of().reverse
                &&& ieee::lt64(0, a[0]) ==> speed.scale == m.scales_of().speed
                &&& curvature.action == a[1]
                &&& curvature.scale == m.scales_of().curvature
            },
            GroundSetpoint::SpeedYawRate { speed, yaw_rate } => {
                &&& m.mode_of() == GroundActionMode::Vw
                &&& speed.action == a[0]
                &&& ieee::lt64(a[0], 0) ==> speed.scale == m.scales_of().reverse
                &&& ieee::lt64(0, a[0]) ==> speed.scale == m.scales_of().speed
                &&& yaw_rate.action == a[1]
                &&& yaw_rate.scale == m.scales_of().yaw_rate
            },
        },
{
}

/// Whether channel `i` and channel `j` command the same thing.
pub open spec fn same_target(a: PerWheelChannel, b: PerWheelChannel) -> bool {
    match (a, b) {
        (PerWheelChannel::Drive(x), PerWheelChannel::Drive(y)) => exists|w: int| #[trigger] in_mask(x, w) && in_mask(y, w),
        _ => a == b,
    }
}

/// In the per-wheel mode every component reaches what its channel names, unless a later channel names it
/// too: throttle and brakes one-sided, steering and motors both ways, a motor all of its wheels.
pub proof fn lemma_channels_command_their_targets(
    channels: Seq<PerWheelChannel>,
    action: Seq<u64>,
    wheels: nat,
    n: int,
    i: int,
)
    requires
        0 <= i < n <= channels.len() == action.len(),
        forall|j: int|
            0 <= j < channels.len() ==> match #[trigger] channels[j] {
                PerWheelChannel::Brake(b) => b < wheels,
                PerWheelChannel::Steer(b) => b < wheels,
                _ => true,
            },
        forall|j: int| i < j < n ==> !same_target(channels[i], #[trigger] channels[j]),
    ensures
        ({
            let r = read(channels, action, wheels, n);
            let x = action[i];
            &&& r.drive.len() == wheels && r.brake.len() == wheels && r.steer.len() == wheels
            &&& match channels[i] {
                PerWheelChannel::Throttle => r.throttle == one_sided(x),
                PerWheelChannel::Steering => r.steering == clipped(x),
                PerWheelChannel::Drive(mask) => forall|w: int|
                    0 <= w < wheels && #[trigger] in_mask(mask, w) ==> r.drive[w] == clipped(x),
                PerWheelChannel::Brake(w) => r.brake[w as int] == one_sided(x),
                PerWheelChannel::Steer(w) => r.steer[w as int] == clipped(x),
            }
        }),
    decreases n,
{
    lemma_read_sizes(channels, action, wheels, n - 1);
    if n - 1 > i {
        lemma_channels_command_their_targets(channels, action, wheels, n - 1, i);
        assert(!same_target(channels[i], channels[n - 1]));
        if let (PerWheelChannel::Drive(x), PerWheelChannel::Drive(y)) = (channels[i], channels[n - 1]) {
            assert forall|w: int| 0 <= w < wheels && #[trigger] in_mask(x, w) implies !in_mask(y, w) by {}
        }
    }
}

proof fn lemma_read_sizes(channels: Seq<PerWheelChannel>, action: Seq<u64>, wheels: nat, n: int)
    requires
        0 <= n <= channels.len() == action.len(),
        forall|j: int|
            0 <= j < channels.len() ==> match #[trigger] channels[j] {
                PerWheelChannel::Brake(b) => b < wheels,
                PerWheelChannel::Steer(b) => b < wheels,
                _ => true,
            },
    ensures
        read(channels, action, wheels, n).drive.len() == wheels,
        read(channels, action, wheels, n).brake.len() == wheels,
        read(channels, action, wheels, n).steer.len() == wheels,
    decreases n,
{
    if n > 0 {
        lemma_read_sizes(channels, action, wheels, n - 1);
    }
}

/// Actions have a name for each component, and no two modes or kinds of drive name theirs alike.
pub proof fn lemma_components_are_named(m: GroundActionMap, o: GroundActionMap)
    requires
        m.mode_of() != GroundActionMode::PerWheel,
        o.mode_of() != GroundActionMode::PerWheel,
    ensures
        m.titles().len() == m.width(),
        m.titles()[0] != m.titles()[1],
        m.titles() == o.titles() <==> m.mode_of() == o.mode_of() && (m.mode_of() == GroundActionMode::Raw
            ==> m.side_drive() == o.side_drive()),
{
    reveal_strlit("left");
    reveal_strlit("right");
    reveal_strlit("drive");
    reveal_strlit("steering");
    reveal_strlit("speed");
    reveal_strlit("curvature");
    reveal_strlit("yaw_rate");
    assert("left"@.len() == 4 && "right"@.len() == 5 && "drive"@.len() == 5 && "speed"@.len() == 5);
    assert("steering"@.len() == 8 && "curvature"@.len() == 9 && "yaw_rate"@.len() == 8);
    assert("drive"@[0] != "speed"@[0]);
    let (a, b) = (m.titles(), o.titles());
    if a == b {
        assert(a[0] == b[0] && a[1] == b[1]);
    }
}

/// The ends of a component, and the fastest that a vehicle is driven by default.
pub proof fn lemma_full_scale()
    ensures
        ieee::nearest(ONE, 1, 1),
        MINUS_ONE >= ieee::SIGN64 && ieee::nearest((MINUS_ONE - ieee::SIGN64) as u64, 1, 1),
        ieee::nearest(FASTEST, 20, 1),
{
    vstd::arithmetic::power2::lemma2_to64();
    vstd::arithmetic::power2::lemma2_to64_rest();
}

/// Speeds forwards are scaled by the forward speed and speeds backwards by the reverse speed; what is not
/// finite asks for no speed, and is scaled as one forwards.
pub proof fn lemma_speeds_are_scaled(m: GroundActionMap, x: u64)
    ensures
        ieee::finite64(x) && ieee::lt64(x, 0) ==> m.speed_of(x).scale == m.scales_of().reverse,
        ieee::le64(0, x) ==> m.speed_of(x).scale == m.scales_of().speed,
        !ieee::finite64(x) ==> m.speed_of(x) == (Scaled { action: 0, scale: m.scales_of().speed }),
        m.speed_of(x).action == clipped(x),
{
}

/// What is said of limits and of modes that do not fit starts with the vehicle, and that of limits ends
/// with them.
pub proof fn lemma_refused_vehicles_are_named(name: Seq<char>, shown: Seq<char>)
    ensures
        bad_limits(name, shown).take(name.len() as int) == name,
        ({
            let s = bad_limits(name, shown);
            s.subrange(s.len() - 1 - shown.len(), s.len() - 1) == shown && s.last() == ')'
        }),
        needs_sides(name).take(name.len() as int) == name,
        bad_limits(name, shown) != needs_sides(name),
{
    reveal_strlit(")");
    reveal_strlit(": action limits must be positive (");
    reveal_strlit(": vw needs a skid-steer or diff-drive vehicle");
    let s = bad_limits(name, shown);
    assert(s.take(name.len() as int) =~= name);
    assert(s.subrange(s.len() - 1 - shown.len(), s.len() - 1) =~= shown);
    assert(needs_sides(name).take(name.len() as int) =~= name);
    let i = name.len() as int + 2;
    assert(s[i] == 'a' && needs_sides(name)[i] == 'v');
}

} // verus!

//! Configuration of the multirotor controller, and whether it is sound.
//!
//! Every number is given by the bits of a 64-bit number.

use vstd::prelude::*;
use vstd::string::StringExecFns;

use crate::config;
use crate::ieee;
use crate::modes::{ControlError, Frame};

verus! {

/// The bits of 1 and of π/2.
pub const ONE: u64 = 0x3ff0_0000_0000_0000;

pub const RIGHT_ANGLE: u64 = 0x3ff9_21fb_5444_2d18;

/// Loop bandwidths as ratios.
#[derive(Clone, Copy, Debug, PartialEq, Eq)]
pub struct Tuning {
    /// Upper bound of the roll/pitch rate-loop natural frequency (rad/s).
    pub rate_omega_max: u64,
    /// Largest ratio of that frequency to the motor corner frequency.
    pub rate_lead: u64,
    /// Largest phase (rad) that the one-step control delay may cost.
    pub rate_delay: u64,
    /// Rate-loop damping ratio.
    pub rate_zeta: u64,
    /// Rate-integrator pole as a fraction of the natural frequency, and its limit as a fraction of the
    /// torque authority.
    pub rate_integral: u64,
    pub rate_i_limit: u64,
    /// Yaw-rate natural frequency relative to roll and pitch.
    pub yaw_ratio: u64,
    /// Cutoff of the derivative low-pass relative to the natural frequency (0: unfiltered).
    pub d_cutoff_ratio: u64,
    /// Rate natural frequency / attitude gain.
    pub attitude_ratio: u64,
    /// Share of the yaw error that the attitude loop corrects together with the tilt.
    pub yaw_weight: u64,
    /// Attitude gain / velocity gain.
    pub velocity_ratio: u64,
    /// Disturbance-observer bandwidth / velocity gain.
    pub disturbance_ratio: u64,
    /// Velocity gain / position gain.
    pub position_ratio: u64,
    /// Natural frequency of the velocity reference / velocity gain (0: no setpoint shaping).
    pub reference_ratio: u64,
    /// Rate of the velocity and position loops (Hz).
    pub outer_rate: u64,
}

impl Tuning {
    /// The values that a file need not give.
    pub open spec fn defaults() -> Tuning {
        Tuning {
            rate_omega_max: 0x404e_0000_0000_0000,
            rate_lead: 0x400c_0000_0000_0000,
            rate_delay: 0x3fc3_3333_3333_3333,
            rate_zeta: 0x3fe6_6666_6666_6666,
            rate_integral: 0x3fa9_9999_9999_999a,
            rate_i_limit: 0x3fd3_3333_3333_3333,
            yaw_ratio: 0x3fe0_0000_0000_0000,
            d_cutoff_ratio: 0x0000_0000_0000_0000,
            attitude_ratio: 0x400c_0000_0000_0000,
            yaw_weight: 0x3fd9_9999_9999_999a,
            velocity_ratio: 0x4008_0000_0000_0000,
            disturbance_ratio: 0x3ff0_0000_0000_0000,
            position_ratio: 0x4008_0000_0000_0000,
            reference_ratio: 0x3fe0_0000_0000_0000,
            outer_rate: 0x4059_0000_0000_0000,
        }
    }

}

impl Default for Tuning {
    fn default() -> (r: Tuning)
        ensures
            r == Tuning::defaults(),
    {
        Tuning {
            rate_omega_max: 0x404e_0000_0000_0000,  // 60
            rate_lead: 0x400c_0000_0000_0000,  // 3.5
            rate_delay: 0x3fc3_3333_3333_3333,  // 0.15
            rate_zeta: 0x3fe6_6666_6666_6666,  // 0.7
            rate_integral: 0x3fa9_9999_9999_999a,  // 0.05
            rate_i_limit: 0x3fd3_3333_3333_3333,  // 0.3
            yaw_ratio: 0x3fe0_0000_0000_0000,  // 0.5
            d_cutoff_ratio: 0x0000_0000_0000_0000,  // 0
            attitude_ratio: 0x400c_0000_0000_0000,  // 3.5
            yaw_weight: 0x3fd9_9999_9999_999a,  // 0.4
            velocity_ratio: 0x4008_0000_0000_0000,  // 3
            disturbance_ratio: 0x3ff0_0000_0000_0000,  // 1
            position_ratio: 0x4008_0000_0000_0000,  // 3
            reference_ratio: 0x3fe0_0000_0000_0000,  // 0.5
            outer_rate: 0x4059_0000_0000_0000,  // 100
        }
    }
}

/// Setpoint limits of the cascade.
#[derive(Clone, Copy, Debug, PartialEq, Eq)]
pub struct Limits {
    /// Body-rate setpoints of the attitude loop (rad/s).
    pub rate: (u64, u64, u64),
    /// Tilt in the velocity and position modes (rad).
    pub tilt: u64,
    /// Horizontal speed, climb and descent rate (m/s).
    pub vel_xy: u64,
    pub vel_up: u64,
    pub vel_down: u64,
    /// Smallest collective in the velocity and position modes, as a fraction of the maximum.
    pub thrust_min: u64,
    /// Horizontal thrust kept when the vertical demand saturates, as a fraction of the maximum.
    pub xy_margin: u64,
    /// Acceleration limits of the shaped velocity reference (m/s²).
    pub accel_xy: u64,
    pub accel_up: u64,
    pub accel_down: u64,
}

impl Limits {
    /// The values that a file need not give.
    pub open spec fn defaults() -> Limits {
        Limits {
            rate: (0x400e_b7c1_66fd_fe3a, 0x400e_b7c1_66fd_fe3a, 0x400b_ecde_5da1_15a9),
            tilt: 0x3fe9_21fb_5444_2d18,
            vel_xy: 0x4028_0000_0000_0000,
            vel_up: 0x4008_0000_0000_0000,
            vel_down: 0x3ff8_0000_0000_0000,
            thrust_min: 0x3fbe_b851_eb85_1eb8,
            xy_margin: 0x3fd3_3333_3333_3333,
            accel_xy: 0x4014_0000_0000_0000,
            accel_up: 0x4010_0000_0000_0000,
            accel_down: 0x4008_0000_0000_0000,
        }
    }

}

impl Default for Limits {
    fn default() -> (r: Limits)
        ensures
            r == Limits::defaults(),
    {
        Limits {
            rate: (0x400e_b7c1_66fd_fe3a, 0x400e_b7c1_66fd_fe3a, 0x400b_ecde_5da1_15a9),  // 3.839724354387525, 3.839724354387525, 3.490658503988659
            tilt: 0x3fe9_21fb_5444_2d18,  // 0.7853981633974483
            vel_xy: 0x4028_0000_0000_0000,  // 12
            vel_up: 0x4008_0000_0000_0000,  // 3
            vel_down: 0x3ff8_0000_0000_0000,  // 1.5
            thrust_min: 0x3fbe_b851_eb85_1eb8,  // 0.12
            xy_margin: 0x3fd3_3333_3333_3333,  // 0.3
            accel_xy: 0x4014_0000_0000_0000,  // 5
            accel_up: 0x4010_0000_0000_0000,  // 4
            accel_down: 0x4008_0000_0000_0000,  // 3
        }
    }
}

/// Everything configurable about the multirotor controller.
#[derive(Clone, Copy, Debug, PartialEq, Eq)]
pub struct ControllerConfig {
    pub tuning: Tuning,
    pub limits: Limits,
    /// Let the collective rise to keep roll and pitch authority at low thrust.
    pub airmode: bool,
    /// Air density the controller assumes (kg/m³); by default that of the rotors.
    pub design_density: Option<u64>,
    /// Gravity (m/s²).
    pub gravity: u64,
}

impl ControllerConfig {
    /// The values that a file need not give.
    pub open spec fn defaults() -> ControllerConfig {
        ControllerConfig {
            tuning: Tuning::defaults(),
            limits: Limits::defaults(),
            airmode: false,
            design_density: None,
            gravity: 0x4023_9d01_3a92_a305,
        }
    }

}

impl Default for ControllerConfig {
    fn default() -> (r: ControllerConfig)
        ensures
            r == ControllerConfig::defaults(),
    {
        ControllerConfig {
            tuning: Tuning::default(),
            limits: Limits::default(),
            airmode: false,
            design_density: None,
            gravity: 0x4023_9d01_3a92_a305,  // 9.80665
        }
    }
}

/// Full-scale values of the normalised actions.
#[derive(Clone, Copy, Debug, PartialEq, Eq)]
pub struct ActionLimits {
    /// Body rates (rad/s).
    pub rates: (u64, u64, u64),
    /// Tilt (rad).
    pub tilt: u64,
    /// Heading rate (rad/s).
    pub yaw_rate: u64,
    /// Horizontal and vertical speed (m/s).
    pub speed_xy: u64,
    pub speed_z: u64,
    pub velocity_frame: Frame,
    /// Position offset (m) and heading change (rad).
    pub offset: (u64, u64, u64),
    pub yaw_offset: u64,
}

impl ActionLimits {
    /// The values that a file need not give.
    pub open spec fn defaults() -> ActionLimits {
        ActionLimits {
            rates: (0x4019_21fb_5444_2d18, 0x4019_21fb_5444_2d18, 0x4009_21fb_5444_2d18),
            tilt: 0x3fe3_8c35_418a_5bf6,
            yaw_rate: 0x3ff9_21fb_5444_2d18,
            speed_xy: 0x4014_0000_0000_0000,
            speed_z: 0x4000_0000_0000_0000,
            velocity_frame: Frame::Heading,
            offset: (0x4014_0000_0000_0000, 0x4014_0000_0000_0000, 0x4000_0000_0000_0000),
            yaw_offset: 0x4009_21fb_5444_2d18,
        }
    }

}

impl Default for ActionLimits {
    fn default() -> (r: ActionLimits)
        ensures
            r == ActionLimits::defaults(),
    {
        ActionLimits {
            rates: (0x4019_21fb_5444_2d18, 0x4019_21fb_5444_2d18, 0x4009_21fb_5444_2d18),  // 6.283185307179586, 6.283185307179586, 3.141592653589793
            tilt: 0x3fe3_8c35_418a_5bf6,  // 0.6108652381980153
            yaw_rate: 0x3ff9_21fb_5444_2d18,  // 1.5707963267948966
            speed_xy: 0x4014_0000_0000_0000,  // 5
            speed_z: 0x4000_0000_0000_0000,  // 2
            velocity_frame: Frame::Heading,
            offset: (0x4014_0000_0000_0000, 0x4014_0000_0000_0000, 0x4000_0000_0000_0000),  // 5, 5, 2
            yaw_offset: 0x4009_21fb_5444_2d18,  // 3.141592653589793
        }
    }
}

/// The least component of a vector; where a comparison with what is not a number decides, the later
/// component stands.
pub open spec fn least_of(v: (u64, u64, u64)) -> u64 {
    let m = if ieee::lt64(v.1, v.2) {
        v.1
    } else {
        v.2
    };
    if ieee::lt64(v.0, m) {
        v.0
    } else {
        m
    }
}

fn least(v: (u64, u64, u64)) -> (r: u64)
    ensures
        r == least_of(v),
{
    let m: u64 = if ieee::is_lt64(v.1, v.2) {
        v.1
    } else {
        v.2
    };
    if ieee::is_lt64(v.0, m) {
        v.0
    } else {
        m
    }
}

impl ControllerConfig {
    /// Whether the values fit each other.
    pub open spec fn valid(&self) -> bool {
        &&& config::positive(self.tuning.rate_omega_max)
        &&& config::positive(self.tuning.rate_lead)
        &&& config::positive(self.tuning.rate_delay)
        &&& config::positive(self.tuning.rate_zeta)
        &&& config::positive(self.tuning.attitude_ratio)
        &&& config::positive(self.tuning.velocity_ratio)
        &&& config::positive(self.tuning.position_ratio)
        &&& config::positive(self.tuning.outer_rate)
        &&& config::positive(self.tuning.yaw_ratio)
        &&& config::positive(self.tuning.disturbance_ratio)
        &&& config::positive(self.limits.tilt)
        &&& config::positive(self.limits.vel_xy)
        &&& config::positive(self.limits.vel_up)
        &&& config::positive(self.limits.vel_down)
        &&& config::positive(self.limits.accel_xy)
        &&& config::positive(self.limits.accel_up)
        &&& config::positive(self.limits.accel_down)
        &&& config::positive(self.gravity)
        &&& config::positive(least_of(self.limits.rate))
        &&& config::non_negative(self.tuning.rate_integral)
        &&& config::non_negative(self.tuning.rate_i_limit)
        &&& config::non_negative(self.tuning.d_cutoff_ratio)
        &&& config::non_negative(self.tuning.reference_ratio)
        &&& config::in_unit(self.tuning.yaw_weight)
        &&& ieee::lt64(self.limits.tilt, RIGHT_ANGLE)
        &&& config::non_negative(self.limits.thrust_min) && ieee::lt64(self.limits.thrust_min, ONE)
        &&& config::non_negative(self.limits.xy_margin) && ieee::lt64(self.limits.xy_margin, ONE)
        &&& self.design_density matches Some(d) ==> config::positive(d)
    }

    fn is_valid(&self) -> (r: bool)
        ensures
            r == self.valid(),
    {
        let density: bool = match self.design_density {
            Some(d) => config::is_positive(d),
            None => true,
        };
        density
            && config::is_positive(self.tuning.rate_omega_max)
            && config::is_positive(self.tuning.rate_lead)
            && config::is_positive(self.tuning.rate_delay)
            && config::is_positive(self.tuning.rate_zeta)
            && config::is_positive(self.tuning.attitude_ratio)
            && config::is_positive(self.tuning.velocity_ratio)
            && config::is_positive(self.tuning.position_ratio)
            && config::is_positive(self.tuning.outer_rate)
            && config::is_positive(self.tuning.yaw_ratio)
            && config::is_positive(self.tuning.disturbance_ratio)
            && config::is_positive(self.limits.tilt)
            && config::is_positive(self.limits.vel_xy)
            && config::is_positive(self.limits.vel_up)
            && config::is_positive(self.limits.vel_down)
            && config::is_positive(self.limits.accel_xy)
            && config::is_positive(self.limits.accel_up)
            && config::is_positive(self.limits.accel_down)
            && config::is_positive(self.gravity)
            && config::is_positive(least(self.limits.rate))
            && config::is_non_negative(self.tuning.rate_integral)
            && config::is_non_negative(self.tuning.rate_i_limit)
            && config::is_non_negative(self.tuning.d_cutoff_ratio)
            && config::is_non_negative(self.tuning.reference_ratio)
            && config::is_in_unit(self.tuning.yaw_weight)
            && ieee::is_lt64(self.limits.tilt, RIGHT_ANGLE)
            && config::is_non_negative(self.limits.thrust_min)
            && ieee::is_lt64(self.limits.thrust_min, ONE)
            && config::is_non_negative(self.limits.xy_margin)
            && ieee::is_lt64(self.limits.xy_margin, ONE)
    }

    /// Checks the configuration; `shown` is what an error shows of it.
    pub fn validate(&self, shown: &str) -> (r: Result<(), ControlError>)
        ensures
            r is Ok <==> self.valid(),
            r matches Err(e) ==> e is InvalidConfig && (e->InvalidConfig_0)@ == shown@,
    {
        if self.is_valid() {
            Ok(())
        } else {
            Err(ControlError::InvalidConfig(shown.to_owned()))
        }
    }
}

/// Whether a controller can run every so many seconds.
pub open spec fn is_period(dt: u64) -> bool {
    config::positive(dt) && ieee::finite64(dt)
}

/// Checks that a controller runs every so many seconds; `shown` is what an error shows of them.
pub fn check_period(dt: u64, shown: &str) -> (r: Result<(), ControlError>)
    ensures
        r is Ok <==> is_period(dt),
        r matches Err(e) ==> e is InvalidConfig && (e->InvalidConfig_0)@ == "control period "@ + shown@,
{
    if config::is_positive(dt) && ieee::is_finite64(dt) {
        return Ok(());
    }
    let mut m = "control period ".to_owned();
    m.append(shown);
    Err(ControlError::InvalidConfig(m))
}

/// The default configuration is sound.
pub proof fn lemma_defaults_are_valid()
    ensures
        ControllerConfig::defaults().valid(),
{
}

/// The steps between runs of the outer loops, by the rounded quotient of the periods.
pub open spec fn steps_between(quotient: u32) -> u32 {
    if quotient == 0 {
        1
    } else {
        quotient
    }
}

/// How many control steps lie between runs of the outer loops: the rounded quotient of their periods,
/// but at least one.
pub fn outer_every(quotient: u32) -> (r: u32)
    ensures
        r == steps_between(quotient),
        r > 0,
{
    if quotient == 0 {
        1
    } else {
        quotient
    }
}

/// A valid configuration has positive gains, rates and limits, tilts less than a right angle, keeps some
/// thrust in hand, and gives the integrators and filters nothing negative.
pub proof fn lemma_valid_gains(c: ControllerConfig)
    ensures
        c.valid() ==> forall|v: u64|
            v == c.tuning.rate_omega_max || v == c.tuning.rate_lead || v == c.tuning.rate_delay || v == c.tuning.rate_zeta || v
                == c.tuning.attitude_ratio || v == c.tuning.velocity_ratio || v == c.tuning.position_ratio || v
                == c.tuning.outer_rate || v == c.tuning.yaw_ratio || v == c.tuning.disturbance_ratio || v == c.limits.tilt
                || v == c.limits.vel_xy || v == c.limits.vel_up || v == c.limits.vel_down || v == c.limits.accel_xy || v
                == c.limits.accel_up || v == c.limits.accel_down || v == c.gravity || Some(v) == c.design_density ==> 0
                < #[trigger] ieee::rank64(v) <= ieee::INFINITY64,
        c.valid() ==> forall|v: u64|
            v == c.tuning.rate_integral || v == c.tuning.rate_i_limit || v == c.tuning.d_cutoff_ratio || v
                == c.tuning.reference_ratio || v == c.tuning.yaw_weight || v == c.limits.thrust_min || v
                == c.limits.xy_margin ==> 0 <= #[trigger] ieee::rank64(v) <= ieee::INFINITY64,
        c.valid() ==> ieee::rank64(c.tuning.yaw_weight) <= ieee::rank64(ONE) && ieee::rank64(c.limits.tilt)
            < ieee::rank64(RIGHT_ANGLE) && ieee::rank64(c.limits.thrust_min) < ieee::rank64(ONE) && ieee::rank64(
            c.limits.xy_margin,
        ) < ieee::rank64(ONE),
{
}

/// Where the rate limits are numbers, a configuration is valid only if all three are positive.
pub proof fn lemma_valid_rates(c: ControllerConfig)
    requires
        !ieee::nan64(c.limits.rate.0) && !ieee::nan64(c.limits.rate.1) && !ieee::nan64(c.limits.rate.2),
    ensures
        c.valid() ==> ieee::lt64(0, c.limits.rate.0) && ieee::lt64(0, c.limits.rate.1) && ieee::lt64(
            0,
            c.limits.rate.2,
        ),
        ({
            let m = least_of(c.limits.rate);
            &&& ieee::le64(m, c.limits.rate.0) && ieee::le64(m, c.limits.rate.1) && ieee::le64(m, c.limits.rate.2)
            &&& m == c.limits.rate.0 || m == c.limits.rate.1 || m == c.limits.rate.2
        }),
{
}

/// No value is refused without reason: a valid configuration stays valid with any gain, rate or limit
/// replaced by a larger one below its bound, with airmode on or off, and without a density of its own.
pub proof fn lemma_larger_gains_stay_valid(c: ControllerConfig, gain: u64, airmode: bool)
    requires
        c.valid(),
        ieee::lt64(0, gain),
    ensures
        (ControllerConfig { airmode, ..c }).valid(),
        (ControllerConfig { design_density: None, ..c }).valid(),
        (ControllerConfig { design_density: Some(gain), ..c }).valid(),
        (ControllerConfig { gravity: gain, ..c }).valid(),
        (ControllerConfig { tuning: Tuning { rate_omega_max: gain, ..c.tuning }, ..c }).valid(),
        (ControllerConfig { tuning: Tuning { rate_lead: gain, ..c.tuning }, ..c }).valid(),
        (ControllerConfig { tuning: Tuning { rate_delay: gain, ..c.tuning }, ..c }).valid(),
        (ControllerConfig { tuning: Tuning { rate_zeta: gain, ..c.tuning }, ..c }).valid(),
        (ControllerConfig { tuning: Tuning { rate_integral: gain, ..c.tuning }, ..c }).valid(),
        (ControllerConfig { tuning: Tuning { rate_i_limit: gain, ..c.tuning }, ..c }).valid(),
        (ControllerConfig { tuning: Tuning { yaw_ratio: gain, ..c.tuning }, ..c }).valid(),
        (ControllerConfig { tuning: Tuning { d_cutoff_ratio: gain, ..c.tuning }, ..c }).valid(),
        (ControllerConfig { tuning: Tuning { d_cutoff_ratio: 0, reference_ratio: 0, ..c.tuning }, ..c }).valid(),
        (ControllerConfig { tuning: Tuning { rate_integral: 0, rate_i_limit: 0, yaw_weight: 0, ..c.tuning }, ..c }).valid(),
        (ControllerConfig { tuning: Tuning { attitude_ratio: gain, ..c.tuning }, ..c }).valid(),
        (ControllerConfig { tuning: Tuning { velocity_ratio: gain, ..c.tuning }, ..c }).valid(),
        (ControllerConfig { tuning: Tuning { disturbance_ratio: gain, ..c.tuning }, ..c }).valid(),
        (ControllerConfig { tuning: Tuning { position_ratio: gain, ..c.tuning }, ..c }).valid(),
        (ControllerConfig { tuning: Tuning { reference_ratio: gain, ..c.tuning }, ..c }).valid(),
        (ControllerConfig { tuning: Tuning { outer_rate: gain, ..c.tuning }, ..c }).valid(),
        (ControllerConfig { tuning: Tuning { yaw_weight: ONE, ..c.tuning }, ..c }).valid(),
        (ControllerConfig { limits: Limits { vel_xy: gain, ..c.limits }, ..c }).valid(),
        (ControllerConfig { limits: Limits { vel_up: gain, ..c.limits }, ..c }).valid(),
        (ControllerConfig { limits: Limits { vel_down: gain, ..c.limits }, ..c }).valid(),
        (ControllerConfig { limits: Limits { accel_xy: gain, ..c.limits }, ..c }).valid(),
        (ControllerConfig { limits: Limits { accel_up: gain, ..c.limits }, ..c }).valid(),
        (ControllerConfig { limits: Limits { accel_down: gain, ..c.limits }, ..c }).valid(),
        (ControllerConfig { limits: Limits { rate: (gain, gain, gain), ..c.limits }, ..c }).valid(),
        (ControllerConfig { limits: Limits { thrust_min: 0, xy_margin: 0, ..c.limits }, ..c }).valid(),
        ieee::lt64(gain, ONE) ==> (ControllerConfig { limits: Limits { thrust_min: gain, ..c.limits }, ..c }).valid(),
        ieee::lt64(gain, ONE) ==> (ControllerConfig { limits: Limits { xy_margin: gain, ..c.limits }, ..c }).valid(),
        ieee::lt64(gain, RIGHT_ANGLE) ==> (ControllerConfig { limits: Limits { tilt: gain, ..c.limits }, ..c }).valid(),
{
}

/// A controller runs at any period that is positive and finite, and at no other.
pub proof fn lemma_periods(dt: u64)
    ensures
        is_period(dt) <==> 0 < ieee::rank64(dt) < ieee::INFINITY64,
{
}

/// The defaults of [`Tuning`], as fractions.
pub proof fn lemma_default_tuning()
    ensures
        ({
            let c = Tuning::defaults();
            &&& ieee::nearest(c.rate_omega_max, 60, 1)
            &&& ieee::nearest(c.rate_lead, 7, 2)
            &&& ieee::nearest(c.rate_delay, 3, 20)
            &&& ieee::nearest(c.rate_zeta, 7, 10)
            &&& ieee::nearest(c.rate_integral, 1, 20)
            &&& ieee::nearest(c.rate_i_limit, 3, 10)
            &&& ieee::nearest(c.yaw_ratio, 1, 2)
            &&& c.d_cutoff_ratio == 0
            &&& ieee::nearest(c.attitude_ratio, 7, 2)
            &&& ieee::nearest(c.yaw_weight, 2, 5)
            &&& ieee::nearest(c.velocity_ratio, 3, 1)
            &&& ieee::nearest(c.disturbance_ratio, 1, 1)
            &&& ieee::nearest(c.position_ratio, 3, 1)
            &&& ieee::nearest(c.reference_ratio, 1, 2)
            &&& ieee::nearest(c.outer_rate, 100, 1)
        }),
{
    vstd::arithmetic::power2::lemma2_to64();
    vstd::arithmetic::power2::lemma2_to64_rest();
}

/// The defaults of [`Limits`], as fractions.
pub proof fn lemma_default_limits()
    ensures
        ({
            let c = Limits::defaults();
            &&& ieee::nearest(c.rate.0, 153588974175501, 40000000000000)
            &&& ieee::nearest(c.rate.1, 153588974175501, 40000000000000)
            &&& ieee::nearest(c.rate.2, 3490658503988659, 1000000000000000)
            &&& ieee::nearest(c.tilt, 7853981633974483, 10000000000000000)
            &&& ieee::nearest(c.vel_xy, 12, 1)
            &&& ieee::nearest(c.vel_up, 3, 1)
            &&& ieee::nearest(c.vel_down, 3, 2)
            &&& ieee::nearest(c.thrust_min, 3, 25)
            &&& ieee::nearest(c.xy_margin, 3, 10)
            &&& ieee::nearest(c.accel_xy, 5, 1)
            &&& ieee::nearest(c.accel_up, 4, 1)
            &&& ieee::nearest(c.accel_down, 3, 1)
        }),
{
    vstd::arithmetic::power2::lemma2_to64();
    vstd::arithmetic::power2::lemma2_to64_rest();
}

/// Airmode is off by default, the density that of the rotors, and gravity the standard one.
pub proof fn lemma_default_gravity()
    ensures
        ({
            let c = ControllerConfig::defaults();
            &&& !c.airmode
            &&& c.design_density is None
            &&& ieee::nearest(c.gravity, 196133, 20000)
        }),
{
    vstd::arithmetic::power2::lemma2_to64();
    vstd::arithmetic::power2::lemma2_to64_rest();
}

/// The defaults of [`ActionLimits`], as fractions.
pub proof fn lemma_default_action_limits()
    ensures
        ({
            let c = ActionLimits::defaults();
            &&& ieee::nearest(c.rates.0, 3141592653589793, 500000000000000)
            &&& ieee::nearest(c.rates.1, 3141592653589793, 500000000000000)
            &&& ieee::nearest(c.rates.2, 3141592653589793, 1000000000000000)
            &&& ieee::nearest(c.tilt, 6108652381980153, 10000000000000000)
            &&& ieee::nearest(c.yaw_rate, 7853981633974483, 5000000000000000)
            &&& ieee::nearest(c.speed_xy, 5, 1)
            &&& ieee::nearest(c.speed_z, 2, 1)
            &&& c.velocity_frame == Frame::Heading
            &&& ieee::nearest(c.offset.0, 5, 1)
            &&& ieee::nearest(c.offset.1, 5, 1)
            &&& ieee::nearest(c.offset.2, 2, 1)
            &&& ieee::nearest(c.yaw_offset, 3141592653589793, 1000000000000000)
        }),
{
    vstd::arithmetic::power2::lemma2_to64();
    vstd::arithmetic::power2::lemma2_to64_rest();
}

/// A doubled number has the next exponent: by default the cascade tilts by half a right angle, the body
/// turns by a full turn and the heading by a quarter turn a second.
pub proof fn lemma_default_angles()
    ensures
        Limits::defaults().tilt + 0x10_0000_0000_0000 == RIGHT_ANGLE,
        ActionLimits::defaults().rates.0 == RIGHT_ANGLE + 0x20_0000_0000_0000,
        ActionLimits::defaults().rates.1 == ActionLimits::defaults().rates.0,
        ActionLimits::defaults().rates.2 == RIGHT_ANGLE + 0x10_0000_0000_0000,
        ActionLimits::defaults().yaw_rate == RIGHT_ANGLE,
        ActionLimits::defaults().yaw_offset == RIGHT_ANGLE + 0x10_0000_0000_0000,
{
}

/// The outer loops run as often as their period asks, but at most in every step.
pub proof fn lemma_outer_loops_run_in_time(quotient: u32)
    ensures
        quotient >= 1 ==> steps_between(quotient) == quotient,
        steps_between(0) == 1,
{
}

} // verus!

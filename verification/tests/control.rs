use autonomousim::batch::{seeds, BatchError, Group, GroupRef, Layout};
use autonomousim::cascade::{
    check_controller, check_rotors, extreme_shifts, limit_thrusts, observer, passes, saturation, skips, spins_up, usable_error, violation,
    Along, Cascade, Observer, Pass, Shown, Violation,
};
use autonomousim::ground_actions::{
    clip, is_side_drive, resolve, Axle, Chassis, Defaults, GroundActionLimits, GroundActionMap, GroundSetpoint,
    MotorSide, PerWheelChannel, Scaled,
};
use autonomousim::ground_control::{
    accel_bounds, demand, driven_wheels, entry, fades, gear_index, leading_axle, motor_integrates, read_request,
    rolling_speed, side_drive_holds, speed_integrates, turning_sign, turning_speed, widest_axle, DriveState, GroundConfig, Longitudinal, Loop,
    Move, Pedal,
};
use autonomousim::mapping::{ActionMap, ActionMapping, Command, Setpoint, Vehicle};
use autonomousim::modes::{ActionMode, AgentActionMode, ControlError, Family, Frame, GroundActionMode};
use autonomousim::tuning::{check_period, outer_every, ActionLimits, ControllerConfig, Limits};
use glam::{DMat4, DVec3};

fn b(x: f64) -> u64 {
    x.to_bits()
}

fn f(x: u64) -> f64 {
    f64::from_bits(x)
}

fn axle(linked: bool) -> Axle {
    Axle { linked, independent: false, braked: true }
}

fn engine(axles: Vec<Axle>, differential_steering: bool) -> Chassis {
    Chassis { combustion: true, differential_steering, motors: vec![], sides: vec![], axles }
}

fn sedan() -> Chassis {
    engine(vec![axle(true), axle(false)], false)
}

fn carrier() -> Chassis {
    engine(vec![axle(false); 5], true)
}

fn rover(wheels: &[u32], axles: usize) -> Chassis {
    Chassis {
        combustion: false,
        differential_steering: false,
        motors: wheels.to_vec(),
        sides: vec![MotorSide::Left, MotorSide::Right],
        axles: vec![axle(false); axles],
    }
}

/// What omitted limits follow from, for a vehicle with this top speed, tightest curvature and track.
fn derived(limits: &GroundActionLimits, top: f64, tightest: Option<f64>, track: f64) -> Defaults {
    let (tightest, pivot) = (tightest.map(|k| b(0.95 * k)), b(2.0 / track));
    let (speed, curvature) = (f(limits.full_speed(b(top))), f(limits.full_curvature(tightest, pivot)));
    let (by_track, by_path) = (b(0.8 * speed / track), b(speed * curvature));
    Defaults { top: b(top), reduced: b(0.3 * speed), tightest, pivot, by_track, by_path }
}

/// Carriers and cars with engines, robots with motors.
fn defaults(limits: &GroundActionLimits, c: &Chassis) -> Defaults {
    if c.differential_steering {
        derived(limits, 16.5, None, 2.0 * 1.0795)
    } else if c.combustion {
        derived(limits, 52.0, Some(0.6f64.tan() / 2.776), 1.6)
    } else {
        derived(limits, 367.0 * 0.05 * 0.1, None, 0.4)
    }
}

fn limited(mode: GroundActionMode, limits: &GroundActionLimits, c: &Chassis) -> Result<GroundActionMap, ControlError> {
    GroundActionMap::new(mode, limits, &defaults(limits, c), c, "vehicle", "as shown")
}

fn map(mode: GroundActionMode, c: &Chassis) -> Result<GroundActionMap, ControlError> {
    limited(mode, &GroundActionLimits::default(), c)
}

#[test]
fn modes_are_found_by_name() {
    for m in ActionMode::all() {
        assert_eq!(m.name().parse::<ActionMode>().unwrap(), m);
        assert_eq!(AgentActionMode::parse(m.name()), Ok(AgentActionMode::from(m)));
        assert_eq!(m.dim(6), if m == ActionMode::Motors { 6 } else { 4 });
    }
    for m in GroundActionMode::all() {
        assert_eq!(m.name().parse::<GroundActionMode>().unwrap(), m);
        assert_eq!(m.name().parse::<AgentActionMode>().unwrap(), m.into());
    }
    assert_eq!(ActionMode::parse("vk"), Err("unknown action mode \"vk\"".to_owned()));
    assert_eq!(GroundActionMode::parse("ctbr"), Err("unknown ground action mode \"ctbr\"".to_owned()));
    assert_eq!(
        AgentActionMode::parse("fly"),
        Err("unknown action mode \"fly\" (expected one of motors, ctbr, attitude, velocity, position, raw, vk, vw, per_wheel)"
            .to_owned())
    );
    assert_eq!(AgentActionMode::default_for(Family::Wheeled).name(), "vk");
    assert_eq!(AgentActionMode::default_for(Family::Multirotor), ActionMode::default().into());
    assert!(AgentActionMode::Ground(GroundActionMode::Raw).fits(Family::Wheeled));
    assert!(!AgentActionMode::Ground(GroundActionMode::default()).fits(Family::Multirotor));
    assert_eq!(Frame::default(), Frame::Heading);
}

fn quad() -> Vehicle {
    Vehicle::Multirotor { rotors: 4 }
}

fn mapping(mode: AgentActionMode, v: &Vehicle, controller: Family) -> Result<ActionMapping, ControlError> {
    let family = match v {
        Vehicle::Multirotor { .. } => "multirotor",
        Vehicle::Wheeled { .. } => "wheeled",
    };
    ActionMapping::new(mode, &ActionLimits::default(), v, controller, family, "cf2x")
}

#[test]
fn modes_must_fit_the_family() {
    let m = AgentActionMode::Ground(GroundActionMode::Vk);
    let wheeled = |chassis: Chassis| {
        let limits = GroundActionLimits::default();
        let defaults = defaults(&limits, &chassis);
        Vehicle::Wheeled { limits, defaults, chassis, shown: String::new() }
    };
    let car = wheeled(sedan());
    let map = mapping(m, &car, Family::Wheeled).unwrap();
    assert_eq!((map.mode(), map.dim()), (m, 2));
    assert!(map.as_ground().is_some() && map.as_multirotor().is_none());
    let c = map.command(&[b(0.5), b(1.0)].to_vec(), 4);
    assert!(c.as_multirotor().is_none());
    assert!(matches!(c.as_ground(), Some(GroundSetpoint::SpeedCurvature { .. })));
    let e = mapping(m, &quad(), Family::Multirotor).err().unwrap();
    assert_eq!(
        e.message(),
        "invalid controller configuration: action mode vk does not drive multirotor vehicles (\"cf2x\")"
    );
    assert!(mapping(m, &car, Family::Multirotor).is_err());
    let yaw = AgentActionMode::Ground(GroundActionMode::Vw);
    assert!(mapping(yaw, &car, Family::Wheeled).is_err());
    assert_eq!(mapping(yaw, &wheeled(carrier()), Family::Wheeled).unwrap().mode(), yaw);
    assert_eq!(ControlError::Unallocatable("x".to_owned()).message(), "control allocation impossible: x");
}

#[test]
fn actions_become_setpoints() {
    let l = ActionLimits::default();
    let a = [2.0, -0.5, f64::NAN, 0.25].map(b).to_vec();
    let part = |x: f64, scale: u64| Scaled { action: b(x), scale };
    for mode in ActionMode::all() {
        let map = ActionMap::new(mode, l, 4);
        assert_eq!((map.mode(), map.dim(), *map.limits() == l), (mode, 4, true));
        let sp = map.setpoint(&a);
        assert_eq!(sp.mode(), mode);
        match sp {
            Setpoint::Motors(w) => assert_eq!(w, [1.0, -0.5, 0.0, 0.25].map(b)),
            Setpoint::Ctbr { rates, thrust } => {
                assert_eq!(rates, (part(1.0, l.rates.0), part(-0.5, l.rates.1), part(0.0, l.rates.2)));
                assert_eq!(thrust, b(0.25));
            }
            Setpoint::Attitude { tilt, full_tilt, yaw_rate, thrust } => {
                assert_eq!((tilt, full_tilt), ((b(1.0), b(-0.5)), l.tilt));
                assert_eq!((yaw_rate, thrust), (part(0.0, l.yaw_rate), b(0.25)));
            }
            Setpoint::Velocity { xy, speed, climb, frame, yaw_rate } => {
                assert_eq!((xy, speed, frame), ((b(1.0), b(-0.5)), l.speed_xy, Frame::Heading));
                assert_eq!((climb, yaw_rate), (part(0.0, l.speed_z), part(0.25, l.yaw_rate)));
            }
            Setpoint::Position { offset, yaw } => {
                assert_eq!(offset, (part(1.0, l.offset.0), part(-0.5, l.offset.1), part(0.0, l.offset.2)));
                assert_eq!(yaw, part(0.25, l.yaw_offset));
            }
        }
    }
    let map = mapping(ActionMode::Motors.into(), &Vehicle::Multirotor { rotors: 6 }, Family::Multirotor).unwrap();
    assert_eq!(map.dim(), 6);
    assert!(matches!(map.command(&vec![0; 6], 0), Command::Multirotor(Setpoint::Motors(w)) if w.len() == 6));
}

#[test]
fn setpoints_enter_their_loops() {
    let part = Scaled { action: 0, scale: b(1.0) };
    let speed_curvature = GroundSetpoint::SpeedCurvature { speed: part, curvature: part };
    let speed_yaw = GroundSetpoint::SpeedYawRate { speed: part, yaw_rate: part };
    assert_eq!(entry(&speed_curvature, true, false, false), Loop::Steered);
    assert_eq!(entry(&speed_curvature, false, true, false), Loop::SideDrive);
    assert_eq!(entry(&speed_curvature, false, false, true), Loop::BrakedSide);
    assert_eq!(entry(&speed_curvature, false, false, false), Loop::SpeedOnly);
    assert_eq!(entry(&speed_yaw, true, false, false), Loop::SpeedOnly);
    assert_eq!(entry(&speed_yaw, false, true, false), Loop::SideDrive);
    assert_eq!(entry(&speed_yaw, false, false, true), Loop::BrakedSide);
    assert_eq!(entry(&GroundSetpoint::Sides { left: 0, right: 0 }, true, true, false), Loop::Sides);
    let pedal = GroundSetpoint::Pedal { drive: 0, steering: 0, handbrake: false };
    assert_eq!(entry(&pedal, true, true, false), Loop::Pedal);
}

#[test]
fn tracked_carriers_have_speed_and_yaw_rate() {
    let map = map(GroundActionMode::Vw, &carrier()).unwrap();
    assert!((f(map.yaw_rate()) - 0.8 * f(map.speed()) / (2.0 * 1.0795)).abs() < 1e-9);
    assert_eq!((f(map.speed()), f(map.reverse())), (16.5, 0.3 * 16.5));
    assert_eq!(map.names(), ["speed", "yaw_rate"]);
    assert_eq!(self::map(GroundActionMode::Raw, &carrier()).unwrap().names(), ["drive", "steering"]);
    // Straight on, standing, turning, and a turn on the spot.
    let at = |v: f64, w: f64| f(turning_speed(b(v), b(w), b(0.5)));
    assert_eq!((at(4.0, 0.0), at(0.0, 0.0), at(-2.0, -0.1), at(0.0, 0.3)), (4.0, 0.0, -2.0, 0.5));
    assert_eq!((at(f64::NAN, 0.3), at(f64::INFINITY, f64::NAN)), (0.5, 0.0));
}

#[test]
fn given_limits_are_kept() {
    let given = GroundActionLimits { speed: Some(b(8.0)), reverse: Some(b(3.0)), ..Default::default() };
    let m = limited(GroundActionMode::Vw, &given, &rover(&[1, 2], 1)).unwrap();
    assert_eq!((f(m.speed()), f(m.reverse())), (8.0, 3.0));
    assert_eq!((f(m.curvature()), f(m.yaw_rate())), (2.0 / 0.4, 0.8 * 8.0 / 0.4));
    let given = GroundActionLimits { curvature: Some(b(0.1)), yaw_rate: Some(b(0.7)), ..Default::default() };
    let m = limited(GroundActionMode::Vk, &given, &sedan()).unwrap();
    assert_eq!((f(m.curvature()), f(m.yaw_rate()), f(m.speed())), (0.1, 0.7, 20.0));
    for x in [0.0, -1.0, f64::INFINITY, f64::NAN] {
        let given = GroundActionLimits { yaw_rate: Some(b(x)), ..Default::default() };
        assert!(limited(GroundActionMode::Vk, &given, &sedan()).is_err());
    }
    assert_eq!((resolve(Some(3), 4), resolve(None, 4)), (3, 4));
}

#[test]
fn action_maps_depend_on_the_drive() {
    let names = |mode, c: &Chassis| map(mode, c).unwrap().names();
    let car = map(GroundActionMode::Vk, &sedan()).unwrap();
    assert_eq!((f(car.scales().speed), f(car.scales().reverse)), (20.0, 6.0));
    assert_eq!(names(GroundActionMode::Vw, &rover(&[1, 2], 1)), ["speed", "yaw_rate"]);
    assert_eq!(names(GroundActionMode::Raw, &rover(&[5, 10], 2)), ["left", "right"]);
    assert_eq!(names(GroundActionMode::Raw, &sedan()), ["drive", "steering"]);
    let e = map(GroundActionMode::Vw, &sedan()).err().unwrap();
    assert_eq!(
        e.message(),
        "invalid controller configuration: vehicle: vw needs a skid-steer or diff-drive vehicle"
    );
    let l = GroundActionLimits { reverse: Some(b(f64::INFINITY)), ..Default::default() };
    let d = defaults(&l, &sedan());
    let e = GroundActionMap::new(GroundActionMode::Vk, &l, &d, &sedan(), "car", "speed 20").err().unwrap();
    assert_eq!(e.message(), "invalid controller configuration: car: action limits must be positive (speed 20)");
    assert!(is_side_drive(&vec![MotorSide::Right, MotorSide::Left]));
    assert!(!is_side_drive(&vec![MotorSide::Right, MotorSide::Left, MotorSide::Both]));
    assert!(!is_side_drive(&vec![MotorSide::Left]));
}

#[test]
fn modes_names_and_limits() {
    for m in GroundActionMode::all() {
        assert_eq!(m.name().parse::<GroundActionMode>().unwrap(), m);
    }
    let car = map(GroundActionMode::Vk, &sedan()).unwrap();
    assert_eq!(f(car.speed()), 20.0);
    assert!((f(car.reverse()) - 6.0).abs() < 1e-12);
    assert!(f(car.curvature()) > 0.1 && f(car.curvature()) < 0.3, "{}", f(car.curvature()));
    let robot = map(GroundActionMode::Vw, &rover(&[1, 2], 1)).unwrap();
    assert!((f(robot.speed()) - 367.0 * 0.05 * 0.1).abs() < 0.2, "{}", f(robot.speed()));
    assert_eq!(robot.names(), ["speed", "yaw_rate"]);
    assert_eq!(map(GroundActionMode::Raw, &rover(&[5, 10], 2)).unwrap().names(), ["left", "right"]);
    assert_eq!(map(GroundActionMode::Raw, &sedan()).unwrap().names(), ["drive", "steering"]);
    assert!(map(GroundActionMode::Vw, &sedan()).is_err());
}

#[test]
fn modes_scale_and_clip() {
    let omega_max = 2500.0;
    let map = |m| ActionMap::new(m, ActionLimits::default(), 4);
    let setpoint = |m, a: [f64; 4]| map(m).setpoint(&a.map(b).to_vec());
    let value = |s: Scaled| f(s.action) * f(s.scale);
    for m in ActionMode::all() {
        assert_eq!(m.name().parse::<ActionMode>().unwrap(), m);
        assert_eq!(map(m).dim(), 4);
        // Garbage in: finite, bounded setpoints out.
        let sp = setpoint(m, [f64::NAN, 7.0, -f64::INFINITY, 0.5]);
        assert_eq!(sp.mode(), m);
    }
    let Setpoint::Motors(w) = setpoint(ActionMode::Motors, [-1.0, 1.0, 0.0, 5.0]) else { panic!() };
    let w: Vec<f64> = w.iter().map(|&a| 0.5 * (f(a) + 1.0) * omega_max).collect();
    assert_eq!(&w[..4], &[0.0, omega_max, 0.5 * omega_max, omega_max]);
    let Setpoint::Ctbr { rates, thrust } = setpoint(ActionMode::Ctbr, [0.5, 0.0, f64::NAN, 0.0]) else { panic!() };
    assert!((0.5 * (f(thrust) + 1.0) - 0.5).abs() < 1e-15);
    assert!((value(rates.0) - std::f64::consts::PI).abs() < 1e-15 && value(rates.2) == 0.0);
    let Setpoint::Velocity { xy, speed, climb, .. } = setpoint(ActionMode::Velocity, [1.0, 1.0, -1.0, 0.0]) else {
        panic!()
    };
    let length = (f(xy.0) * f(xy.0) + f(xy.1) * f(xy.1)).sqrt();
    assert!((length / length.max(1.0) * f(speed) - 5.0).abs() < 1e-12 && value(climb) == -2.0);
    // Position offsets are in the heading frame (here: facing north).
    let Setpoint::Position { offset, yaw } = setpoint(ActionMode::Position, [1.0, 0.0, 0.5, -0.5]) else { panic!() };
    let position = [1.0 - value(offset.1), 2.0 + value(offset.0), 3.0 + value(offset.2)];
    for (p, q) in position.iter().zip([1.0, 7.0, 4.0]) {
        assert!((p - q).abs() < 1e-12, "{position:?}");
    }
    assert!((std::f64::consts::FRAC_PI_2 + value(yaw)).abs() < 1e-12);
}

#[test]
fn setpoints_scale_and_clip() {
    let car = map(GroundActionMode::Vk, &sedan()).unwrap();
    let setpoint = |m: &GroundActionMap, a: [f64; 2]| m.setpoint(&a.map(b).to_vec(), 4);
    let value = |s: Scaled| f(s.action) * f(s.scale);
    let GroundSetpoint::SpeedCurvature { speed, curvature } = setpoint(&car, [-0.5, f64::NAN]) else { panic!() };
    assert!((value(speed) + 3.0).abs() < 1e-12 && value(curvature) == 0.0);
    let GroundSetpoint::SpeedCurvature { speed, curvature } = setpoint(&car, [7.0, -1.0]) else { panic!() };
    assert!(value(speed) == 20.0 && value(curvature) == -f(car.scales().curvature));
    assert_eq!(car.mode(), GroundActionMode::Vk);
    let skid = map(GroundActionMode::Raw, &rover(&[5, 10], 2)).unwrap();
    let GroundSetpoint::Sides { left, right } = setpoint(&skid, [0.5, -2.0]) else { panic!() };
    assert!(f(left) == 0.5 && f(right) == -1.0);
    let raw = map(GroundActionMode::Raw, &sedan()).unwrap();
    let GroundSetpoint::Pedal { drive, steering, handbrake } = setpoint(&raw, [0.5, -2.0]) else { panic!() };
    assert!(f(drive) == 0.5 && f(steering) == -1.0 && !handbrake);
    assert_eq!(clip(b(f64::NEG_INFINITY)), 0);
}

#[test]
fn per_wheel_has_only_the_vehicles_channels() {
    let names = |c: &Chassis| map(GroundActionMode::PerWheel, c).unwrap().names();
    assert_eq!(names(&sedan()), ["throttle", "steering", "brake_0", "brake_1", "brake_2", "brake_3"]);
    assert_eq!(names(&rover(&[1, 2], 1)), ["drive_0", "drive_1", "brake_0", "brake_1"]);
    let skid = names(&rover(&[5, 10], 2));
    assert_eq!(&skid[..2], ["drive_0_2", "drive_1_3"]);
    let m = map(GroundActionMode::PerWheel, &sedan()).unwrap();
    assert_eq!(m.dim(), 6);
    assert!(m.fits(4) && !m.fits(3));
    let GroundSetpoint::Direct(w) = m.setpoint(&[-1.0, 0.5, 1.0, -1.0, 0.0, 0.25].map(b).to_vec(), 4) else { panic!() };
    assert_eq!((f(w.throttle), f(w.steering)), (0.0, 0.5));
    assert_eq!(w.brake.iter().map(|&x| f(x)).collect::<Vec<_>>(), [1.0, 0.0, 0.0, 0.25]);
    let m = map(GroundActionMode::PerWheel, &rover(&[5, 10], 2)).unwrap();
    let w = m.per_wheel(&[0.5, -3.0, 0.0, 0.0, 0.0, 0.0].map(b).to_vec(), 4);
    assert_eq!(w.drive.iter().map(|&x| f(x)).collect::<Vec<_>>(), [0.5, -1.0, 0.5, -1.0]);
    let crab = engine(vec![Axle { linked: false, independent: true, braked: false }], false);
    let m = map(GroundActionMode::PerWheel, &crab).unwrap();
    assert_eq!(m.names(), ["throttle", "steer_0", "steer_1"]);
    assert_eq!(m.channels()[1], PerWheelChannel::Steer(0));
    assert_eq!(f(m.per_wheel(&[0.0, 0.5, -0.5].map(b).to_vec(), 2).steer[1]), -0.5);
    assert_eq!(map(GroundActionMode::Raw, &crab).unwrap().dim(), 2);
}

#[test]
fn per_wheel_channels() {
    let e_sedan = Chassis {
        combustion: false,
        differential_steering: false,
        motors: (0..4).map(|w| 1 << w).collect(),
        sides: vec![MotorSide::Both; 4],
        axles: vec![Axle { linked: false, independent: true, braked: true }; 2],
    };
    let names = map(GroundActionMode::PerWheel, &e_sedan).unwrap().names();
    assert_eq!(
        names,
        ["drive_0", "drive_1", "drive_2", "drive_3", "brake_0", "brake_1", "brake_2", "brake_3"]
            .into_iter()
            .chain(["steer_0", "steer_1", "steer_2", "steer_3"])
            .collect::<Vec<_>>()
    );
}

#[test]
fn channels_have_their_own_names() {
    let mut all = vec![PerWheelChannel::Throttle, PerWheelChannel::Steering];
    all.extend([0, 1, 2, 3, 0b110, 1 << 12, 0x8000_0001].map(PerWheelChannel::Drive));
    all.extend([0, 1, 12].map(PerWheelChannel::Brake));
    all.extend([0, 1, 12].map(PerWheelChannel::Steer));
    for (i, a) in all.iter().enumerate() {
        for (j, c) in all.iter().enumerate() {
            assert_eq!(a.name() == c.name(), i == j, "{}", a.name());
        }
    }
    assert_eq!(PerWheelChannel::Drive(0x8000_0005).name(), "drive_0_2_31");
}

#[test]
fn clipped_actions_ask_for_the_same() {
    let raw = [7.0, f64::NAN, -0.25, f64::NEG_INFINITY, -3.0, 0.5].map(b).to_vec();
    let clipped: Vec<u64> = raw.iter().map(|&x| clip(x)).collect();
    let m = map(GroundActionMode::PerWheel, &sedan()).unwrap();
    let (x, y) = (m.per_wheel(&raw, 4), m.per_wheel(&clipped, 4));
    assert_eq!((x.throttle, x.steering, x.drive, x.brake), (y.throttle, y.steering, y.drive, y.brake));
    // The sedan has no motors and steers no wheel by itself.
    assert_eq!((m.per_wheel(&raw, 4).drive, m.per_wheel(&raw, 4).steer), (vec![0; 4], vec![0; 4]));
    let m = ActionMap::new(ActionMode::Motors, ActionLimits::default(), 6);
    let motors = |a: &Vec<u64>| match m.setpoint(a) {
        Setpoint::Motors(w) => w,
        _ => panic!(),
    };
    assert_eq!(motors(&raw), motors(&clipped));
    assert!(motors(&raw).iter().all(|&x| (-1.0..=1.0).contains(&f(x))));
}

#[test]
fn outer_loops_run_at_their_rate() {
    let mut c = Cascade::new(5);
    let first = c.advance(ActionMode::Velocity, Frame::World);
    assert!(first.reset_rate && first.reset_outer && first.reset_reference && first.outer && !first.pass_through);
    for n in 1..23 {
        let s = c.advance(ActionMode::Velocity, Frame::World);
        assert_eq!(s.outer, n % 5 == 0);
        assert!(!s.reset_outer && !s.reset_rate && !s.reset_reference);
    }
    let s = c.advance(ActionMode::Position, Frame::World);
    assert!(s.outer && s.reset_outer && !s.reset_rate);
    let s = c.advance(ActionMode::Motors, Frame::World);
    assert!(s.pass_through && s.reset_outer && !s.reset_rate);
    let s = c.advance(ActionMode::Velocity, Frame::Heading);
    assert!(s.reset_rate && s.reset_reference);
    for _ in 0..4 {
        assert!(!c.advance(ActionMode::Velocity, Frame::World).reset_reference);
    }
    assert!(c.advance(ActionMode::Velocity, Frame::World).reset_reference);
    c.reset();
    assert_eq!(c, Cascade::new(5));
    assert_eq!((outer_every(0), outer_every(4)), (1, 4));
}

#[test]
fn integrators_do_not_wind_up() {
    assert_eq!(saturation(b(0.2), b(0.1), b(-0.1)), (true, false));
    assert_eq!(saturation(b(-0.2), b(0.1), b(-0.1)), (false, true));
    assert_eq!(f(usable_error(b(1.0), true, false)), 0.0);
    assert_eq!(f(usable_error(b(-1.0), true, false)), -1.0);
    assert_eq!(f(usable_error(b(-1.0), false, true)), 0.0);
    assert_eq!(f(usable_error(b(1.0), false, true)), 1.0);
    assert_eq!(observer(true, 3, true), Observer::Estimate);
    assert_eq!(observer(true, 0, true), Observer::Keep);
    assert_eq!(observer(true, 3, false), Observer::Clear);
    assert!(spins_up(b(5.0), b(4.0)) && !spins_up(b(4.0), b(4.0)) && !spins_up(b(f64::INFINITY), b(4.0)));
}

#[test]
fn yaw_gives_way_last() {
    let p = passes(false);
    assert_eq!(p.len(), 6);
    assert_eq!(p[0], Pass::Desaturate { along: Along::Thrust, reduce_only: true, headroom: false });
    assert_eq!(p[3], Pass::AddYaw);
    assert_eq!(p[4], Pass::Desaturate { along: Along::Yaw, reduce_only: false, headroom: true });
    assert_eq!(passes(true).len(), 4);
    assert!(skips(true, b(0.1)) && !skips(true, b(-0.1)) && !skips(false, b(0.1)));
    let v = |x: f64, e: f64| violation(b(x), b(0.0), b(10.0), b(e), b(1e-9));
    assert_eq!((v(-1.0, 1.0), v(11.0, 1.0), v(5.0, 1.0)), (Violation::Low, Violation::High, Violation::Neither));
    assert_eq!(v(-1.0, 0.0), Violation::Neither);
}

/// Rotors on a circle with their spins, and the rows of their effects.
struct Rotors {
    n: usize,
    rows: [Vec<f64>; 4],
    columns: [Vec<f64>; 4],
    airmode: bool,
}

const LO: f64 = 0.2;
const HI: f64 = 6.0;

impl Rotors {
    fn new(n: usize, spins: &[f64], airmode: bool) -> Result<Self, ControlError> {
        let mut rows: [Vec<f64>; 4] = Default::default();
        for (i, spin) in spins.iter().enumerate() {
            let a = std::f64::consts::TAU * (i as f64 + if n == 4 { 0.5 } else { 0.0 }) / n as f64;
            let t = DVec3::new(a.cos(), a.sin(), 0.0).cross(DVec3::Z) * 0.25 - DVec3::Z * (spin * 0.016);
            for (row, x) in rows.iter_mut().zip([t.x, t.y, t.z, 1.0]) {
                row.push(x);
            }
        }
        let dot = |r: usize, c: usize| (0..n).map(|i| rows[r][i] * rows[c][i]).sum::<f64>();
        let norm: [f64; 4] = std::array::from_fn(|r| dot(r, r).sqrt());
        let gram = |s: [f64; 4]| {
            DMat4::from_cols_array_2d(&std::array::from_fn(|c| std::array::from_fn(|r| dot(r, c) / (s[r] * s[c]))))
        };
        let det = gram(norm).determinant();
        check_rotors(b(det), "test", &format!("{det:.2e}"))?;
        let inverse = gram([1.0; 4]).inverse();
        let columns =
            std::array::from_fn(|k| (0..n).map(|i| (0..4).map(|j| rows[j][i] * inverse.col(k)[j]).sum()).collect());
        Ok(Self { n, rows, columns, airmode })
    }

    fn gain(&self, x: &[f64], v: &[f64], hi: f64) -> f64 {
        let eps = 1e-9 * v.iter().fold(0.0f64, |m, x| m.max(x.abs()));
        let mut shifts = Vec::new();
        for (x, y) in x.iter().zip(v) {
            match violation(b(*x), b(LO), b(hi), b(y.abs()), b(eps)) {
                Violation::Neither => {}
                Violation::Low => shifts.push(b((LO - x) / y)),
                Violation::High => shifts.push(b((hi - x) / y)),
            }
        }
        let (least, greatest) = extreme_shifts(&shifts);
        f(least) + f(greatest)
    }

    fn allocate(&self, torque: DVec3, thrust: f64) -> Vec<f64> {
        let [roll, pitch, yaw, thr] = &self.columns;
        let mut x: Vec<f64> =
            (0..self.n).map(|i| roll[i] * torque.x + pitch[i] * torque.y + thr[i] * thrust).collect();
        for pass in passes(self.airmode) {
            match pass {
                Pass::AddYaw => x.iter_mut().zip(yaw).for_each(|(x, y)| *x += y * torque.z),
                Pass::Desaturate { along, reduce_only, headroom } => {
                    let v = match along {
                        Along::Roll => roll,
                        Along::Pitch => pitch,
                        Along::Yaw => yaw,
                        Along::Thrust => thr,
                    };
                    let hi = if headroom { HI + 0.15 * (HI - LO) } else { HI };
                    let gain = self.gain(&x, v, hi);
                    if !skips(reduce_only, b(gain)) {
                        x.iter_mut().zip(v).for_each(|(x, y)| *x += gain * y);
                        let gain = 0.5 * self.gain(&x, v, hi);
                        x.iter_mut().zip(v).for_each(|(x, y)| *x += gain * y);
                    }
                }
            }
        }
        limit_thrusts(&x.into_iter().map(b).collect(), b(LO), b(HI)).into_iter().map(f).collect()
    }

    fn wrench(&self, x: &[f64]) -> (DVec3, f64) {
        let row = |r: usize| self.rows[r].iter().zip(x).map(|(b, f)| b * f).sum::<f64>();
        (DVec3::new(row(0), row(1), row(2)), row(3))
    }

    fn authority(&self) -> DVec3 {
        let row = |r: usize| self.rows[r].iter().map(|x| x.abs()).sum::<f64>() * 0.5 * (HI - LO);
        DVec3::new(row(0), row(1), row(2))
    }
}

fn layouts(airmode: bool) -> Vec<Rotors> {
    let spins = [1.0, -1.0, 1.0, -1.0, 1.0, -1.0];
    vec![Rotors::new(4, &spins[..4], airmode).unwrap(), Rotors::new(6, &spins, airmode).unwrap()]
}

#[test]
fn unsaturated_requests_are_met_exactly() {
    for a in layouts(false) {
        let hover = 0.4 * HI * a.n as f64;
        let auth = a.authority();
        let torque = auth * DVec3::new(0.2, -0.15, 0.1);
        let (t, thrust) = a.wrench(&a.allocate(torque, hover));
        assert!((t - torque).length() < 1e-12 * auth.length() && (thrust - hover).abs() < 1e-12 * hover);
    }
}

#[test]
fn saturation_sacrifices_thrust_then_yaw_before_roll_and_pitch() {
    for (a, air) in layouts(false).into_iter().zip(layouts(true)) {
        let auth = a.authority();
        let top = HI * a.n as f64;
        let check = |x: &[f64]| assert!(x.iter().all(|x| (LO..=HI).contains(x)), "{x:?}");

        // Full collective plus roll: thrust gives way, roll is met exactly.
        let roll = DVec3::new(0.3 * auth.x, 0.0, 0.0);
        let x = a.allocate(roll, top);
        check(&x);
        let (t, thrust) = a.wrench(&x);
        assert!((t - roll).length() < 1e-9 * auth.x, "{t}");
        assert!(thrust < top);

        // Roll and yaw beyond authority at hover: yaw is cut, roll kept. Yaw may push rotors
        // 15 % past the top before the final clamp, which can cost a little roll.
        let req = DVec3::new(0.5 * auth.x, 0.0, 2.0 * auth.z);
        let x = a.allocate(req, 0.4 * top);
        check(&x);
        let (t, _) = a.wrench(&x);
        assert!((t.x - req.x).abs() < 0.05 * req.x, "{t}");
        assert!(t.z > 0.0 && t.z < 0.5 * req.z);

        // Airmode disabled: zero collective never raises thrust, so no torque at all.
        let x = a.allocate(roll, 0.0);
        check(&x);
        assert!(x.iter().all(|&x| x == LO));
        // Airmode keeps roll authority by raising the collective.
        let (t, thrust) = air.wrench(&air.allocate(roll, 0.0));
        assert!((t - roll).length() < 1e-9 * auth.x && thrust > 0.0);
    }
}

#[test]
fn degenerate_layouts_are_rejected() {
    let e = Rotors::new(4, &[1.0; 4], false).err().unwrap();
    assert!(matches!(e, ControlError::Unallocatable(_)));
    let text = "control allocation impossible: test: rotors cannot produce roll, pitch, yaw and thrust independently (det ";
    assert!(e.message().starts_with(text), "{}", e.message());
    assert!(check_rotors(b(f64::NAN), "", "").is_err() && check_rotors(b(1e-6), "", "").is_err());
    assert!(check_rotors(b(1.1e-6), "", "").is_ok());
}

#[test]
fn controllers_are_checked_in_order() {
    let good = ControllerConfig::default();
    let mut bad = ControllerConfig::default();
    bad.tuning.rate_lead = b(0.0);
    let shown = Shown { config: "cfg".to_owned(), dt: "-1".to_owned(), determinant: "0.00e0".to_owned() };
    let check = |c: &ControllerConfig, dt: f64, det: f64| check_controller(c, b(dt), b(det), "quad", &shown);
    assert!(check(&good, 0.002, 0.5).is_ok());
    let text = |r: Result<(), ControlError>| r.unwrap_err().message();
    let config = "invalid controller configuration: cfg";
    assert_eq!(text(check(&bad, -1.0, 0.0)), config);
    assert_eq!(text(check(&bad, 0.002, 0.0)), config);
    assert_eq!(text(check(&bad, 0.002, 0.5)), config);
    let period = "invalid controller configuration: control period -1";
    assert_eq!(text(check(&good, -1.0, 0.0)), period);
    assert_eq!(text(check(&good, f64::INFINITY, 0.5)), period);
    let e = check(&good, 0.002, f64::NAN).unwrap_err();
    assert!(matches!(e, ControlError::Unallocatable(_)));
    assert!(e.message().ends_with("quad: rotors cannot produce roll, pitch, yaw and thrust independently (det 0.00e0)"));
}

#[test]
fn thrusts_and_shifts_are_limited() {
    let bits = |v: &[f64]| v.iter().map(|&x| b(x)).collect::<Vec<u64>>();
    assert_eq!(limit_thrusts(&bits(&[-1.0, 0.5, 9.0]), b(LO), b(HI)), bits(&[LO, 0.5, HI]));
    assert_eq!(extreme_shifts(&bits(&[0.5, -2.0, f64::NAN, 3.0, -1.0])), (b(-2.0), b(3.0)));
    assert_eq!(extreme_shifts(&bits(&[0.5])), (b(0.0), b(0.5)));
    assert_eq!(extreme_shifts(&vec![]), (0, 0));
    assert_eq!(limit_thrusts(&bits(&[LO, 1.0, HI]), b(LO), b(HI)), bits(&[LO, 1.0, HI]));
}

#[test]
fn configurations_are_checked() {
    let c = ControllerConfig::default();
    let check = |c: ControllerConfig| c.validate("shown").map_err(|e| e.message());
    let wrong = Err("invalid controller configuration: shown".to_owned());
    assert_eq!(check(c), Ok(()));
    assert_eq!(check(ControllerConfig { gravity: b(0.0), ..c }), wrong);
    assert_eq!(check(ControllerConfig { design_density: Some(b(-1.0)), ..c }), wrong);
    let tilt = Limits { tilt: b(std::f64::consts::FRAC_PI_2), ..c.limits };
    assert_eq!(check(ControllerConfig { limits: tilt, ..c }), wrong);
    for k in 0..3 {
        let mut rate = [1.0, 2.0, 3.0].map(b);
        rate[k] = b(0.0);
        let limits = Limits { rate: (rate[0], rate[1], rate[2]), ..c.limits };
        assert_eq!(check(ControllerConfig { limits, ..c }), wrong);
    }
    assert_eq!(check_period(b(0.002), "0.002").map_err(|e| e.message()), Ok(()));
    for dt in [0.0, -1.0, f64::NAN, f64::INFINITY] {
        let e = check_period(b(dt), "dt").unwrap_err();
        assert_eq!(e.message(), "invalid controller configuration: control period dt");
    }
    assert_eq!(f(c.limits.tilt), 45.0 * (std::f64::consts::PI / 180.0));
    assert_eq!(f(ActionLimits::default().tilt), 35f64.to_radians());
    assert_eq!(f(ActionLimits::default().rates.2), std::f64::consts::PI);
    let g = GroundConfig::default();
    assert!(g.validate(b(0.002)).is_ok());
    let e = g.validate(b(0.0)).unwrap_err();
    assert_eq!(e.message(), "invalid controller configuration: ground controller gains must be positive");
    assert!(GroundConfig { max_accel: b(f64::INFINITY), ..g }.validate(b(0.002)).is_err());
    assert!(GroundConfig { hold_speed: b(-0.1), ..g }.validate(b(0.002)).is_err());
}

#[test]
fn pedals_brake_before_they_reverse() {
    let mut s = DriveState::new();
    let hold = b(0.3);
    let press = |s: &mut DriveState, drive: f64, v: f64| s.advance(Loop::Pedal, true, b(drive), b(v), hold);
    let run = |s: &mut DriveState, speed: f64, v: f64| s.advance(Loop::Steered, true, b(speed), b(v), hold);
    assert_eq!(press(&mut s, 1.0, 3.0), Move::Press(Pedal::Throttle));
    assert_eq!((press(&mut s, -1.0, 3.0), s.reverse), (Move::Press(Pedal::Brake), false));
    assert_eq!((press(&mut s, -1.0, 0.4), s.reverse), (Move::Press(Pedal::Throttle), true));
    assert_eq!((press(&mut s, 0.5, 2.0), s.reverse), (Move::Press(Pedal::Brake), true));
    assert_eq!(run(&mut s, 0.0, 0.1), Move::Run(Longitudinal::Hold));
    assert!(!s.reverse);
    assert_eq!(run(&mut s, 0.0, 0.4), Move::Run(Longitudinal::Drive));
    assert_eq!(run(&mut s, -2.0, 4.0), Move::Run(Longitudinal::Drive));
    assert!(!s.reverse);
    // Requests that are not finite ask for nothing.
    assert_eq!(run(&mut s, f64::NEG_INFINITY, 0.1), Move::Run(Longitudinal::Hold));
    assert!(!s.reverse);
    assert_eq!((f(read_request(b(f64::NAN))), f(read_request(b(-2.5)))), (0.0, -2.5));
    assert_eq!((f(rolling_speed(hold)), f(rolling_speed(b(0.8)))), (0.5, 0.8));
    assert!(s.under_drive(b(1.0)) && !s.under_drive(b(-1.0)) && s.needs_brakes(b(-1.0)));
    s.reverse = true;
    assert!(!s.under_drive(b(1.0)) && s.under_drive(b(-1.0)) && s.needs_brakes(b(1.0)));
    s.note_commands(&vec![b(0.9), b(0.2)]);
    assert!(!s.saturated && s.reverse);
    s.note_commands(&vec![b(1.0), b(0.2)]);
    assert!(s.saturated);
    s.note_commands(&vec![]);
    assert!(!s.saturated);
}

#[test]
fn passed_input_leaves_no_trace() {
    let hold = b(0.3);
    let mut s = DriveState { reverse: true, saturated: true };
    let before = s;
    // At standstill a request forwards would turn the direction.
    for l in [Loop::PassThrough, Loop::Sides, Loop::SideDrive] {
        assert_eq!(s.advance(l, true, b(1.0), b(0.0), hold), Move::Pass);
    }
    assert_eq!(s.advance(Loop::Pedal, false, b(1.0), b(0.0), hold), Move::Pass);
    assert_eq!(s, before);
    for l in [Loop::Steered, Loop::BrakedSide, Loop::SpeedOnly] {
        let mut s = before;
        assert_eq!(s.advance(l, false, b(1.0), b(0.0), hold), Move::Run(Longitudinal::Drive));
        assert_eq!(s, DriveState { reverse: false, saturated: true });
    }
}

#[test]
fn ground_decisions() {
    assert_eq!(driven_wheels(&vec![1, 0]), [2, 3, 0, 1]);
    assert_eq!(leading_axle(&vec![b(0.0), b(-1.0), b(0.5), b(1.0)]), Some(3));
    assert_eq!(leading_axle(&vec![b(0.3), b(0.0), b(-0.0)]), Some(0));
    assert_eq!(leading_axle(&vec![b(0.0), b(-0.0)]), None);
    assert_eq!((widest_axle(&vec![b(0.0), b(-0.0)]), widest_axle(&vec![])), (Some(1), None));
    assert_eq!(widest_axle(&vec![b(0.5), b(-1.0), b(0.0)]), Some(1));
    assert_eq!([-1, 0, 1, 2, 5, 9].map(|g| gear_index(g, 5)), [0, 0, 0, 1, 4, 4]);
    assert!(fades(b(1.0), b(0.5), b(0.3)) && !fades(b(0.0), b(0.5), b(0.3)) && !fades(b(1.0), b(0.3), b(0.3)));
    assert!(speed_integrates(b(0.5), b(0.5), b(1.0), b(2.0), b(2.0)));
    assert!(!speed_integrates(b(0.5), b(0.5), b(1.0), b(4.0), b(3.0)));
    assert!(speed_integrates(b(-0.5), b(0.5), b(1.0), b(4.0), b(3.0)));
    assert!(!speed_integrates(b(2.0), b(2.0), b(1.0), b(2.0), b(2.0)));
    assert!(motor_integrates(b(0.5), b(0.5), b(1.0)) && !motor_integrates(b(1.0), b(1.0), b(1.0)));
    assert!(motor_integrates(b(1.0), b(1.0), b(-1.0)));
    let bounds = |v: f64| {
        let r = accel_bounds(b(-1.0), b(2.0), b(-5.0), b(5.0), b(v));
        (f(r.0), f(r.1))
    };
    assert_eq!((bounds(1.0), bounds(0.0), bounds(-1.0)), ((-5.0, 2.0), (-5.0, 5.0), (-1.0, 5.0)));
    let ask = |raw: f64, lo: f64, hi: f64| f(demand(b(raw), b(lo), b(hi), b(-6.0), b(3.0)));
    assert_eq!((ask(9.0, -1.0, 2.0), ask(9.0, -1.0, 5.0), ask(-9.0, f64::NEG_INFINITY, 2.0)), (2.0, 3.0, -6.0));
    assert_eq!((ask(1.5, -1.0, 2.0), ask(1.0, 4.0, 5.0), ask(0.5, f64::NAN, f64::NAN)), (1.5, 4.0, 0.5));
    assert!(side_drive_holds(0, 0, b(0.1), b(0.3), b(0.05), b(0.1)));
    assert!(!side_drive_holds(0, b(0.1), b(0.1), b(0.3), b(0.05), b(0.1)));
    assert_eq!([MotorSide::Left, MotorSide::Right, MotorSide::Both].map(turning_sign), [-1, 1, 0]);
}

fn layout() -> Layout {
    let group = |name: &str, count, act_dim| Group { name: name.to_owned(), count, act_dim };
    Layout { num_envs: 3, groups: vec![group("drones", 2, 4), group("cars", 1, 2)] }
}

fn text(e: BatchError) -> String {
    match e {
        BatchError::Index(s) | BatchError::Key(s) | BatchError::Value(s) | BatchError::Type(s) => s,
    }
}

#[test]
fn batches_check_their_arguments() {
    let l = layout();
    assert_eq!(l.group(&GroupRef::Index(1)).unwrap(), 1);
    assert_eq!(l.group(&GroupRef::Name("cars".to_owned())).unwrap(), 1);
    let e = l.group(&GroupRef::Index(2)).unwrap_err();
    assert!(matches!(e, BatchError::Index(_)));
    assert_eq!(text(e), "group 2 out of range (2 groups)");
    let e = l.group(&GroupRef::Name("boats".to_owned())).unwrap_err();
    assert!(matches!(e, BatchError::Key(_)));
    assert_eq!(text(e), "no group named \"boats\"");
    assert_eq!(l.env(2).unwrap(), 2);
    assert_eq!(text(l.env(3).unwrap_err()), "env 3 out of range (3 envs)");
    assert!(l.check_actions(0, &vec![3, 2, 4], 24).is_ok());
    assert!(l.check_actions(0, &vec![3, 8], 24).is_ok());
    assert_eq!(
        text(l.check_actions(0, &vec![24], 24).unwrap_err()),
        "actions of group \"drones\": expected 24 values as [num_envs = 3, ...], got shape [24]"
    );
    assert!(l.check_actions(1, &vec![3, 1], 3).is_err());
    assert!(l.check_arrays(true, 2).is_ok());
    assert_eq!(text(l.check_arrays(true, 1).unwrap_err()), "expected 2 action arrays (one per group), got 1");
    let e = l.check_arrays(false, 1).unwrap_err();
    assert!(matches!(e, BatchError::Type(_)));
    assert_eq!(text(e), "pass a list with one action array per group");
    assert!(l.check_reset(None, Some(3)).is_ok() && l.check_reset(None, None).is_ok());
    assert_eq!(text(l.check_reset(Some(2), None).unwrap_err()), "mask and seeds need one value per world (3)");
    assert!(l.check_disable(0, &vec![3, 2], 6).is_ok());
    assert_eq!(
        text(l.check_disable(0, &vec![2, 3], 6).unwrap_err()),
        "disable mask: expected [num_envs = 3, count = 2], got shape [2, 3]"
    );
    assert_eq!(seeds(&vec![1, 2]).unwrap(), [1, 2]);
    assert_eq!(text(seeds(&vec![1, -2]).unwrap_err()), "seeds must be non-negative");
}

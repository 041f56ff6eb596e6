//! Normalised actions of all vehicles: the setpoints that they stand for.
//!
//! Actions and limits are the bits of 64-bit numbers. A setpoint holds what is read of each
//! component and the full-scale value it is multiplied by.

use vstd::prelude::*;

use crate::ground_actions;
use crate::ground_actions::{clip, Chassis, Defaults, GroundActionLimits, GroundActionMap, GroundSetpoint, Scaled};
use crate::ieee;
use crate::modes;
use crate::modes::{ActionMode, AgentActionMode, ControlError, Family, Frame, GroundActionMode};
use crate::tuning::ActionLimits;

verus! {

/// Input to the flight controller, at the level it enters.
#[derive(Debug, PartialEq)]
pub enum Setpoint {
    /// Rotor speeds, from the slowest at −1 to the fastest at 1.
    Motors(Vec<u64>),
    /// Body rates, and the collective thrust from none at −1 to all at 1.
    Ctbr { rates: (Scaled, Scaled, Scaled), thrust: u64 },
    /// Tilt vector in the heading frame (its length clipped to 1) with its scale, heading rate and
    /// collective thrust.
    Attitude { tilt: (u64, u64), full_tilt: u64, yaw_rate: Scaled, thrust: u64 },
    /// Horizontal velocity (its length clipped to 1) with its scale, climb rate and heading rate.
    Velocity { xy: (u64, u64), speed: u64, climb: Scaled, frame: Frame, yaw_rate: Scaled },
    /// Offset from the current position in the heading frame, and the change of heading.
    Position { offset: (Scaled, Scaled, Scaled), yaw: Scaled },
}

impl Clone for Setpoint {
    fn clone(&self) -> (r: Setpoint)
        ensures
            *self matches Setpoint::Motors(m) ==> (r matches Setpoint::Motors(n) && n@ == m@),
            *self is Motors || r == *self,
    {
        match self {
            Setpoint::Motors(m) => {
                let n = m.clone();
                assert(n@ =~= m@);
                Setpoint::Motors(n)
            },
            Setpoint::Ctbr { rates, thrust } => Setpoint::Ctbr { rates: *rates, thrust: *thrust },
            Setpoint::Attitude { tilt, full_tilt, yaw_rate, thrust } => Setpoint::Attitude {
                tilt: *tilt,
                full_tilt: *full_tilt,
                yaw_rate: *yaw_rate,
                thrust: *thrust,
            },
            Setpoint::Velocity { xy, speed, climb, frame, yaw_rate } => Setpoint::Velocity {
                xy: *xy,
                speed: *speed,
                climb: *climb,
                frame: *frame,
                yaw_rate: *yaw_rate,
            },
            Setpoint::Position { offset, yaw } => Setpoint::Position { offset: *offset, yaw: *yaw },
        }
    }
}

impl Setpoint {
    /// The mode whose actions enter the cascade at this level.
    pub open spec fn level(&self) -> ActionMode {
        match self {
            Setpoint::Motors(_) => ActionMode::Motors,
            Setpoint::Ctbr { .. } => ActionMode::Ctbr,
            Setpoint::Attitude { .. } => ActionMode::Attitude,
            Setpoint::Velocity { .. } => ActionMode::Velocity,
            Setpoint::Position { .. } => ActionMode::Position,
        }
    }

    pub fn mode(&self) -> (r: ActionMode)
        ensures
            r == self.level(),
    {
        match self {
            Setpoint::Motors(_) => ActionMode::Motors,
            Setpoint::Ctbr { .. } => ActionMode::Ctbr,
            Setpoint::Attitude { .. } => ActionMode::Attitude,
            Setpoint::Velocity { .. } => ActionMode::Velocity,
            Setpoint::Position { .. } => ActionMode::Position,
        }
    }
}

/// What is read of a component of an action, with its scale.
pub open spec fn scaled(x: u64, scale: u64) -> Scaled {
    Scaled { action: ground_actions::clipped(x), scale }
}

fn scale(x: u64, by: u64) -> (r: Scaled)
    ensures
        r == scaled(x, by),
{
    Scaled { action: clip(x), scale: by }
}

/// Maps the normalised actions of one mode to setpoints for a vehicle with so many rotors.
#[derive(Clone, Debug)]
pub struct ActionMap {
    mode: ActionMode,
    limits: ActionLimits,
    rotors: usize,
}

impl ActionMap {
    pub closed spec fn mode_of(&self) -> ActionMode {
        self.mode
    }

    pub closed spec fn limits_of(&self) -> ActionLimits {
        self.limits
    }

    pub closed spec fn rotors(&self) -> nat {
        self.rotors as nat
    }

    pub fn new(mode: ActionMode, limits: ActionLimits, rotors: usize) -> (m: ActionMap)
        ensures
            m.mode_of() == mode,
            m.limits_of() == limits,
            m.rotors() == rotors,
    {
        ActionMap { mode, limits, rotors }
    }

    pub fn mode(&self) -> (r: ActionMode)
        ensures
            r == self.mode_of(),
    {
        self.mode
    }

    pub fn limits(&self) -> (r: &ActionLimits)
        ensures
            *r == self.limits_of(),
    {
        &self.limits
    }

    /// The length of an action.
    pub open spec fn width(&self) -> nat {
        if self.mode_of() == ActionMode::Motors {
            self.rotors()
        } else {
            4
        }
    }

    pub fn dim(&self) -> (n: usize)
        ensures
            n == self.width(),
    {
        self.mode.dim(self.rotors)
    }

    /// What an action asks for.
    pub open spec fn asks(&self, a: Seq<u64>, r: Setpoint) -> bool {
        let l = self.limits_of();
        r.level() == self.mode_of() && match r {
                Setpoint::Motors(w) => w@ == a.map_values(|x: u64| ground_actions::clipped(x)),
                Setpoint::Ctbr { rates, thrust } => {
                    &&& rates == (scaled(a[0], l.rates.0), scaled(a[1], l.rates.1), scaled(
                        a[2],
                        l.rates.2,
                    ))
                    &&& thrust == ground_actions::clipped(a[3])
                },
                Setpoint::Attitude { tilt, full_tilt, yaw_rate, thrust } => {
                    &&& tilt == (ground_actions::clipped(a[0]), ground_actions::clipped(a[1]))
                    &&& full_tilt == l.tilt
                    &&& yaw_rate == scaled(a[2], l.yaw_rate)
                    &&& thrust == ground_actions::clipped(a[3])
                },
                Setpoint::Velocity { xy, speed, climb, frame, yaw_rate } => {
                    &&& xy == (ground_actions::clipped(a[0]), ground_actions::clipped(a[1]))
                    &&& speed == l.speed_xy
                    &&& climb == scaled(a[2], l.speed_z)
                    &&& frame == l.velocity_frame
                    &&& yaw_rate == scaled(a[3], l.yaw_rate)
                },
                Setpoint::Position { offset, yaw } => {
                    &&& offset == (scaled(a[0], l.offset.0), scaled(a[1], l.offset.1), scaled(
                        a[2],
                        l.offset.2,
                    ))
                    &&& yaw == scaled(a[3], l.yaw_offset)
                },
            }
    }

    /// The setpoint of an action.
    pub fn setpoint(&self, action: &Vec<u64>) -> (r: Setpoint)
        requires
            action@.len() == self.width(),
        ensures
            self.asks(action@, r),
    {
        let l = &self.limits;
        match self.mode {
            ActionMode::Motors => {
                let ghost all = action@.map_values(|x: u64| ground_actions::clipped(x));
                let mut w: Vec<u64> = Vec::new();
                let mut i: usize = 0;
                while i < action.len()
                    invariant
                        i <= action@.len(),
                        all == action@.map_values(|x: u64| ground_actions::clipped(x)),
                        w@ == all.take(i as int),
                    decreases action@.len() - i,
                {
                    w.push(clip(action[i]));
                    i += 1;
                    assert(all.take(i as int) =~= all.take(i - 1).push(all[i - 1]));
                }
                assert(all.take(i as int) =~= all);
                Setpoint::Motors(w)
            },
            ActionMode::Ctbr => {
                let x = scale(action[0], l.rates.0);
                let y = scale(action[1], l.rates.1);
                let z = scale(action[2], l.rates.2);
                Setpoint::Ctbr { rates: (x, y, z), thrust: clip(action[3]) }
            },
            ActionMode::Attitude => {
                let tilt: (u64, u64) = (clip(action[0]), clip(action[1]));
                let yaw_rate = scale(action[2], l.yaw_rate);
                Setpoint::Attitude { tilt, full_tilt: l.tilt, yaw_rate, thrust: clip(action[3]) }
            },
            ActionMode::Velocity => {
                let xy: (u64, u64) = (clip(action[0]), clip(action[1]));
                let climb = scale(action[2], l.speed_z);
                let yaw_rate = scale(action[3], l.yaw_rate);
                Setpoint::Velocity { xy, speed: l.speed_xy, climb, frame: l.velocity_frame, yaw_rate }
            },
            ActionMode::Position => {
                let x = scale(action[0], l.offset.0);
                let y = scale(action[1], l.offset.1);
                let z = scale(action[2], l.offset.2);
                Setpoint::Position { offset: (x, y, z), yaw: scale(action[3], l.yaw_offset) }
            },
        }
    }
}

/// An action asks for the same as its clipped components.
pub proof fn lemma_clipping_first_changes_nothing(m: ActionMap, action: Seq<u64>, r: Setpoint)
    requires
        action.len() == m.width(),
    ensures
        m.asks(action.map_values(|x: u64| ground_actions::clipped(x)), r) == m.asks(action, r),
{
    let clipped = action.map_values(|x: u64| ground_actions::clipped(x));
    if m.mode_of() == ActionMode::Motors {
        assert forall|i: int| 0 <= i < action.len() implies ground_actions::clipped(#[trigger] clipped[i])
            == clipped[i] by {
            ground_actions::lemma_actions_are_bounded(action[i]);
        }
        assert(clipped.map_values(|x: u64| ground_actions::clipped(x)) =~= clipped);
    } else {
        ground_actions::lemma_actions_are_bounded(action[0]);
        ground_actions::lemma_actions_are_bounded(action[1]);
        ground_actions::lemma_actions_are_bounded(action[2]);
        ground_actions::lemma_actions_are_bounded(action[3]);
    }
}

/// Whether a component lies in `[−1, 1]`.
pub open spec fn unit(x: u64) -> bool {
    ieee::le64(ground_actions::MINUS_ONE, x) && ieee::le64(x, ground_actions::ONE)
}

/// Whether a component lies in `[−1, 1]`, and is multiplied by the full-scale value `scale`.
pub open spec fn within(s: Scaled, scale: u64) -> bool {
    unit(s.action) && s.scale == scale
}

/// Whatever an action holds, no component of its setpoint exceeds its limit.
pub proof fn lemma_setpoints_stay_within_limits(m: ActionMap, action: Seq<u64>, r: Setpoint)
    requires
        action.len() == m.width(),
        m.asks(action, r),
    ensures
        ({
            let l = m.limits_of();
            match r {
                Setpoint::Motors(w) => w@.len() == m.rotors() && forall|i: int|
                    0 <= i < w@.len() ==> unit(#[trigger] w@[i]),
                Setpoint::Ctbr { rates, thrust } => within(rates.0, l.rates.0) && within(rates.1, l.rates.1)
                    && within(rates.2, l.rates.2) && unit(thrust),
                Setpoint::Attitude { tilt, full_tilt, yaw_rate, thrust } => unit(tilt.0) && unit(tilt.1)
                    && full_tilt == l.tilt && within(yaw_rate, l.yaw_rate) && unit(thrust),
                Setpoint::Velocity { xy, speed, climb, frame, yaw_rate } => unit(xy.0) && unit(xy.1) && speed
                    == l.speed_xy && within(climb, l.speed_z) && within(yaw_rate, l.yaw_rate),
                Setpoint::Position { offset, yaw } => within(offset.0, l.offset.0) && within(
                    offset.1,
                    l.offset.1,
                ) && within(offset.2, l.offset.2) && within(yaw, l.yaw_offset),
            }
        }),
{
    if let Setpoint::Motors(w) = r {
        assert forall|i: int| 0 <= i < w@.len() implies unit(#[trigger] w@[i]) by {
            ground_actions::lemma_actions_are_bounded(action[i]);
        }
    } else {
        ground_actions::lemma_actions_are_bounded(action[0]);
        ground_actions::lemma_actions_are_bounded(action[1]);
        ground_actions::lemma_actions_are_bounded(action[2]);
        ground_actions::lemma_actions_are_bounded(action[3]);
    }
}

/// What an agent's controller tracks.
pub enum Command {
    Multirotor(Setpoint),
    Ground(GroundSetpoint),
}

impl Command {
    pub fn as_multirotor(&self) -> (r: Option<&Setpoint>)
        ensures
            match self {
                Command::Multirotor(s) => r == Some(s),
                Command::Ground(_) => r is None,
            },
    {
        match self {
            Command::Multirotor(s) => Some(s),
            Command::Ground(_) => None,
        }
    }

    pub fn as_ground(&self) -> (r: Option<&GroundSetpoint>)
        ensures
            match self {
                Command::Multirotor(_) => r is None,
                Command::Ground(s) => r == Some(s),
            },
    {
        match self {
            Command::Multirotor(_) => None,
            Command::Ground(s) => Some(s),
        }
    }
}

/// What the action maps take from a vehicle.
pub enum Vehicle {
    Multirotor { rotors: usize },
    /// The limits of the actions, what omitted ones follow from, how they read, and the chassis.
    Wheeled { limits: GroundActionLimits, defaults: Defaults, chassis: Chassis, shown: String },
}

impl Vehicle {
    pub open spec fn family(&self) -> Family {
        match self {
            Vehicle::Multirotor { .. } => Family::Multirotor,
            Vehicle::Wheeled { .. } => Family::Wheeled,
        }
    }
}

/// Normalised actions → commands, for the action mode of a group.
#[derive(Clone, Debug)]
pub enum ActionMapping {
    Multirotor(ActionMap),
    Ground(GroundActionMap),
}

impl ActionMapping {
    pub open spec fn mode_of(&self) -> AgentActionMode {
        match self {
            ActionMapping::Multirotor(m) => AgentActionMode::Multirotor(m.mode_of()),
            ActionMapping::Ground(m) => AgentActionMode::Ground(m.mode_of()),
        }
    }

    pub fn mode(&self) -> (r: AgentActionMode)
        ensures
            r == self.mode_of(),
    {
        match self {
            ActionMapping::Multirotor(m) => AgentActionMode::Multirotor(m.mode()),
            ActionMapping::Ground(m) => AgentActionMode::Ground(m.mode()),
        }
    }

    /// The length of an action.
    pub open spec fn width(&self) -> nat {
        match self {
            ActionMapping::Multirotor(m) => m.width(),
            ActionMapping::Ground(m) => m.width(),
        }
    }

    pub fn dim(&self) -> (n: usize)
        ensures
            n == self.width(),
    {
        match self {
            ActionMapping::Multirotor(m) => m.dim(),
            ActionMapping::Ground(m) => m.dim(),
        }
    }

    /// The map for `mode` on a vehicle driven by a controller of a family; the mode must belong to
    /// the vehicle's family.
    pub fn new(
        mode: AgentActionMode,
        limits: &ActionLimits,
        vehicle: &Vehicle,
        controller: Family,
        family_name: &str,
        name: &str,
    ) -> (r: Result<ActionMapping, ControlError>)
        requires
            vehicle matches Vehicle::Wheeled { chassis, .. } ==> 2 * chassis.axles@.len() <= usize::MAX,
        ensures
            (mode.family() != vehicle.family() || controller != vehicle.family()) ==> (r matches Err(e)
                && e is InvalidConfig && (e->InvalidConfig_0)@ == modes::wrong_family(
                mode.title(),
                family_name@,
                name@,
            )),
            (mode.family() == vehicle.family() && controller == vehicle.family()) ==> match (
                mode,
                vehicle,
            ) {
                (AgentActionMode::Multirotor(m), Vehicle::Multirotor { rotors }) => {
                    &&& r matches Ok(ActionMapping::Multirotor(map))
                    &&& map.mode_of() == m
                    &&& map.limits_of() == *limits
                    &&& map.rotors() == rotors
                },
                (AgentActionMode::Ground(m), Vehicle::Wheeled { limits, defaults, chassis, shown }) => {
                    if !limits.scales_of(*defaults, *chassis).positive() {
                        r matches Err(e) && e is InvalidConfig && (e->InvalidConfig_0)@
                            == ground_actions::bad_limits(name@, shown@)
                    } else if m == GroundActionMode::Vw && !chassis.turns_by_sides() {
                        r matches Err(e) && e is InvalidConfig && (e->InvalidConfig_0)@
                            == ground_actions::needs_sides(name@)
                    } else {
                        &&& r matches Ok(ActionMapping::Ground(map))
                        &&& map.mode_of() == m
                        &&& map.side_drive() == chassis.side_drive()
                        &&& map.scales_of() == limits.scales_of(*defaults, *chassis)
                        &&& map.covers(2 * chassis.axles@.len() as int)
                        &&& map.channels_of() == (if m == GroundActionMode::PerWheel {
                            chassis.channels_of()
                        } else {
                            Seq::empty()
                        })
                    }
                },
                _ => false,
            },
    {
        match (mode, vehicle) {
            (AgentActionMode::Multirotor(m), Vehicle::Multirotor { rotors }) if controller
                == Family::Multirotor => Ok(
                ActionMapping::Multirotor(ActionMap::new(m, *limits, *rotors)),
            ),
            (
                AgentActionMode::Ground(m),
                Vehicle::Wheeled { limits, defaults, chassis, shown },
            ) if controller == Family::Wheeled => {
                match GroundActionMap::new(m, limits, defaults, chassis, name, shown.as_str()) {
                    Ok(map) => Ok(ActionMapping::Ground(map)),
                    Err(e) => Err(e),
                }
            },
            _ => Err(modes::mismatch(mode, family_name, name)),
        }
    }

    /// The command of an action, for a vehicle with `wheels` wheels.
    pub fn command(&self, action: &Vec<u64>, wheels: usize) -> (r: Command)
        requires
            action@.len() == self.width(),
            self matches ActionMapping::Ground(m) ==> wheels <= 32 && m.covers(wheels as int),
        ensures
            match self {
                ActionMapping::Multirotor(m) => (r matches Command::Multirotor(s) && m.asks(action@, s)),
                ActionMapping::Ground(m) => (r matches Command::Ground(s) && m.asks(
                    action@,
                    wheels as nat,
                    s,
                )),
            },
    {
        match self {
            ActionMapping::Multirotor(m) => Command::Multirotor(m.setpoint(action)),
            ActionMapping::Ground(m) => Command::Ground(m.setpoint(action, wheels)),
        }
    }

    pub fn as_multirotor(&self) -> (r: Option<&ActionMap>)
        ensures
            match self {
                ActionMapping::Multirotor(m) => r == Some(m),
                ActionMapping::Ground(_) => r is None,
            },
    {
        match self {
            ActionMapping::Multirotor(m) => Some(m),
            ActionMapping::Ground(_) => None,
        }
    }

    pub fn as_ground(&self) -> (r: Option<&GroundActionMap>)
        ensures
            match self {
                ActionMapping::Multirotor(_) => r is None,
                ActionMapping::Ground(m) => r == Some(m),
            },
    {
        match self {
            ActionMapping::Multirotor(_) => None,
            ActionMapping::Ground(m) => Some(m),
        }
    }
}

/// An action within `[−1, 1]` is passed on component by component, in its order, each with its own
/// limit, and enters at the level of the mode.
pub proof fn lemma_actions_are_passed_on(m: ActionMap, a: Seq<u64>, r: Setpoint)
    requires
        m.asks(a, r),
        a.len() == m.width(),
        forall|i: int| 0 <= i < a.len() ==> unit(#[trigger] a[i]),
    ensures
        ({
            let l = m.limits_of();
            match r {
                Setpoint::Motors(w) => m.mode_of() == ActionMode::Motors && w@ == a,
                Setpoint::Ctbr { rates, thrust } => {
                    &&& m.mode_of() == ActionMode::Ctbr
                    &&& (rates.0.action, rates.1.action, rates.2.action, thrust) == (a[0], a[1], a[2], a[3])
                    &&& (rates.0.scale, rates.1.scale, rates.2.scale) == l.rates
                },
                Setpoint::Attitude { tilt, full_tilt, yaw_rate, thrust } => {
                    &&& m.mode_of() == ActionMode::Attitude
                    &&& (tilt.0, tilt.1, yaw_rate.action, thrust) == (a[0], a[1], a[2], a[3])
                    &&& (full_tilt, yaw_rate.scale) == (l.tilt, l.yaw_rate)
                },
                Setpoint::Velocity { xy, speed, climb, frame, yaw_rate } => {
                    &&& m.mode_of() == ActionMode::Velocity
                    &&& (xy.0, xy.1, climb.action, yaw_rate.action) == (a[0], a[1], a[2], a[3])
                    &&& (speed, climb.scale, yaw_rate.scale, frame) == (l.speed_xy, l.speed_z, l.yaw_rate, l.velocity_frame)
                },
                Setpoint::Position { offset, yaw } => {
                    &&& m.mode_of() == ActionMode::Position
                    &&& (offset.0.action, offset.1.action, offset.2.action, yaw.action) == (a[0], a[1], a[2], a[3])
                    &&& (offset.0.scale, offset.1.scale, offset.2.scale, yaw.scale) == (
                        l.offset.0,
                        l.offset.1,
                        l.offset.2,
                        l.yaw_offset,
                    )
                },
            }
        }),
{
    if let Setpoint::Motors(w) = r {
        assert(w@ =~= a);
    }
}

/// A component beyond its range asks for as much as the end of it, and one that is not finite for
/// nothing, whatever it is scaled by.
pub proof fn lemma_components_are_limited(x: u64, scale: u64)
    ensures
        unit(x) ==> scaled(x, scale) == (Scaled { action: x, scale }),
        ieee::finite64(x) && ieee::lt64(ground_actions::ONE, x) ==> scaled(x, scale) == (Scaled {
            action: ground_actions::ONE,
            scale,
        }),
        ieee::finite64(x) && ieee::lt64(x, ground_actions::MINUS_ONE) ==> scaled(x, scale) == (Scaled {
            action: ground_actions::MINUS_ONE,
            scale,
        }),
        !ieee::finite64(x) ==> scaled(x, scale) == (Scaled { action: 0, scale }),
{
}

/// Motor actions have a component for each rotor, all others four.
pub proof fn lemma_actions_have_their_length(m: ActionMap)
    ensures
        m.mode_of() == ActionMode::Motors ==> m.width() == m.rotors(),
        m.mode_of() != ActionMode::Motors ==> m.width() == 4,
{
}

} // verus!

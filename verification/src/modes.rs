//! Action modes of every vehicle family, by name.
//!
//! Modes are per family; their names are disjoint, so a name alone selects the family.

use vstd::prelude::*;
use vstd::string::StringExecFns;

use crate::text;

verus! {

/// How actions of multirotors enter their control cascade.
#[derive(Clone, Copy, Debug, PartialEq, Eq, Structural, Hash)]
pub enum ActionMode {
    Motors,
    /// Collective thrust and body rates.
    Ctbr,
    Attitude,
    Velocity,
    Position,
}

impl ActionMode {
    pub open spec fn title(self) -> Seq<char> {
        match self {
            ActionMode::Motors => "motors"@,
            ActionMode::Ctbr => "ctbr"@,
            ActionMode::Attitude => "attitude"@,
            ActionMode::Velocity => "velocity"@,
            ActionMode::Position => "position"@,
        }
    }

    /// Every mode.
    pub fn all() -> (r: [ActionMode; 5])
        ensures
            r@ == seq![
                ActionMode::Motors,
                ActionMode::Ctbr,
                ActionMode::Attitude,
                ActionMode::Velocity,
                ActionMode::Position,
            ],
    {
        let r = [
            ActionMode::Motors,
            ActionMode::Ctbr,
            ActionMode::Attitude,
            ActionMode::Velocity,
            ActionMode::Position,
        ];
        assert(r@ =~= seq![
            ActionMode::Motors,
            ActionMode::Ctbr,
            ActionMode::Attitude,
            ActionMode::Velocity,
            ActionMode::Position,
        ]);
        r
    }

    pub fn name(self) -> (r: &'static str)
        ensures
            r@ == self.title(),
    {
        match self {
            ActionMode::Motors => "motors",
            ActionMode::Ctbr => "ctbr",
            ActionMode::Attitude => "attitude",
            ActionMode::Velocity => "velocity",
            ActionMode::Position => "position",
        }
    }

    /// Action length for a vehicle with `num_rotors` rotors.
    pub fn dim(self, num_rotors: usize) -> (n: usize)
        ensures
            n == if self == ActionMode::Motors {
                num_rotors
            } else {
                4
            },
    {
        match self {
            ActionMode::Motors => num_rotors,
            _ => 4,
        }
    }

    fn find(s: &str) -> (r: Option<ActionMode>)
        ensures
            match r {
                Some(m) => m.title() == s@,
                None => forall|m: ActionMode| #[trigger] m.title() != s@,
            },
    {
        let modes = ActionMode::all();
        let mut i: usize = 0;
        while i < 5
            invariant
                i <= 5,
                modes@ == seq![
                    ActionMode::Motors,
                    ActionMode::Ctbr,
                    ActionMode::Attitude,
                    ActionMode::Velocity,
                    ActionMode::Position,
                ],
                forall|j: int| 0 <= j < i ==> (#[trigger] modes@[j]).title() != s@,
            decreases 5 - i,
        {
            if text::same(modes[i].name(), s) {
                return Some(modes[i]);
            }
            i += 1;
        }
        proof {
            assert forall|m: ActionMode| #[trigger] m.title() != s@ by {
                assert(modes@[0].title() != s@ && modes@[1].title() != s@ && modes@[2].title() != s@
                    && modes@[3].title() != s@ && modes@[4].title() != s@);
            }
        }
        None
    }

    /// The mode with a name, or what to say of an unknown one.
    pub fn parse(s: &str) -> (r: Result<ActionMode, String>)
        ensures
            match r {
                Ok(m) => m.title() == s@,
                Err(e) => (forall|m: ActionMode| #[trigger] m.title() != s@) && e@
                    == "unknown action mode "@ + text::quoted(s@),
            },
    {
        match ActionMode::find(s) {
            Some(m) => Ok(m),
            None => {
                let mut e = "unknown action mode ".to_owned();
                e.append(text::quote(s).as_str());
                Err(e)
            },
        }
    }
}

impl Default for ActionMode {
    fn default() -> (r: ActionMode)
        ensures
            r == ActionMode::Ctbr,
    {
        ActionMode::Ctbr
    }
}

impl std::str::FromStr for ActionMode {
    type Err = String;

    fn from_str(s: &str) -> (r: Result<ActionMode, String>)
        ensures
            match r {
                Ok(m) => m.title() == s@,
                Err(e) => (forall|m: ActionMode| #[trigger] m.title() != s@) && e@
                    == "unknown action mode "@ + text::quoted(s@),
            },
    {
        ActionMode::parse(s)
    }
}

/// How actions of ground vehicles enter their controller.
#[derive(Clone, Copy, Debug, PartialEq, Eq, Structural, Hash)]
pub enum GroundActionMode {
    Raw,
    /// Speed and curvature.
    Vk,
    /// Speed and yaw rate.
    Vw,
    PerWheel,
}

impl GroundActionMode {
    pub open spec fn title(self) -> Seq<char> {
        match self {
            GroundActionMode::Raw => "raw"@,
            GroundActionMode::Vk => "vk"@,
            GroundActionMode::Vw => "vw"@,
            GroundActionMode::PerWheel => "per_wheel"@,
        }
    }

    /// Every mode.
    pub fn all() -> (r: [GroundActionMode; 4])
        ensures
            r@ == seq![
                GroundActionMode::Raw,
                GroundActionMode::Vk,
                GroundActionMode::Vw,
                GroundActionMode::PerWheel,
            ],
    {
        let r = [
            GroundActionMode::Raw,
            GroundActionMode::Vk,
            GroundActionMode::Vw,
            GroundActionMode::PerWheel,
        ];
        assert(r@ =~= seq![
            GroundActionMode::Raw,
            GroundActionMode::Vk,
            GroundActionMode::Vw,
            GroundActionMode::PerWheel,
        ]);
        r
    }

    pub fn name(self) -> (r: &'static str)
        ensures
            r@ == self.title(),
    {
        match self {
            GroundActionMode::Raw => "raw",
            GroundActionMode::Vk => "vk",
            GroundActionMode::Vw => "vw",
            GroundActionMode::PerWheel => "per_wheel",
        }
    }

    fn find(s: &str) -> (r: Option<GroundActionMode>)
        ensures
            match r {
                Some(m) => m.title() == s@,
                None => forall|m: GroundActionMode| #[trigger] m.title() != s@,
            },
    {
        let modes = GroundActionMode::all();
        let mut i: usize = 0;
        while i < 4
            invariant
                i <= 4,
                modes@ == seq![
                    GroundActionMode::Raw,
                    GroundActionMode::Vk,
                    GroundActionMode::Vw,
                    GroundActionMode::PerWheel,
                ],
                forall|j: int| 0 <= j < i ==> (#[trigger] modes@[j]).title() != s@,
            decreases 4 - i,
        {
            if text::same(modes[i].name(), s) {
                return Some(modes[i]);
            }
            i += 1;
        }
        proof {
            assert forall|m: GroundActionMode| #[trigger] m.title() != s@ by {
                assert(modes@[0].title() != s@ && modes@[1].title() != s@ && modes@[2].title() != s@
                    && modes@[3].title() != s@);
            }
        }
        None
    }

    /// The mode with a name, or what to say of an unknown one.
    pub fn parse(s: &str) -> (r: Result<GroundActionMode, String>)
        ensures
            match r {
                Ok(m) => m.title() == s@,
                Err(e) => (forall|m: GroundActionMode| #[trigger] m.title() != s@) && e@
                    == "unknown ground action mode "@ + text::quoted(s@),
            },
    {
        match GroundActionMode::find(s) {
            Some(m) => Ok(m),
            None => {
                let mut e = "unknown ground action mode ".to_owned();
                e.append(text::quote(s).as_str());
                Err(e)
            },
        }
    }
}

impl Default for GroundActionMode {
    fn default() -> (r: GroundActionMode)
        ensures
            r == GroundActionMode::Vk,
    {
        GroundActionMode::Vk
    }
}

impl std::str::FromStr for GroundActionMode {
    type Err = String;

    fn from_str(s: &str) -> (r: Result<GroundActionMode, String>)
        ensures
            match r {
                Ok(m) => m.title() == s@,
                Err(e) => (forall|m: GroundActionMode| #[trigger] m.title() != s@) && e@
                    == "unknown ground action mode "@ + text::quoted(s@),
            },
    {
        GroundActionMode::parse(s)
    }
}

/// A kind of vehicle.
#[derive(Clone, Copy, Debug, PartialEq, Eq, Structural, Hash)]
pub enum Family {
    Multirotor,
    Wheeled,
}

/// An action mode of some family, written by its name.
#[derive(Clone, Copy, Debug, PartialEq, Eq, Structural, Hash)]
pub enum AgentActionMode {
    Multirotor(ActionMode),
    Ground(GroundActionMode),
}

impl AgentActionMode {
    pub open spec fn title(self) -> Seq<char> {
        match self {
            AgentActionMode::Multirotor(m) => m.title(),
            AgentActionMode::Ground(m) => m.title(),
        }
    }

    /// The family that a mode drives.
    pub open spec fn family(self) -> Family {
        match self {
            AgentActionMode::Multirotor(_) => Family::Multirotor,
            AgentActionMode::Ground(_) => Family::Wheeled,
        }
    }

    /// The default mode of a family.
    pub fn default_for(family: Family) -> (r: AgentActionMode)
        ensures
            r.family() == family,
            r == match family {
                Family::Multirotor => AgentActionMode::Multirotor(ActionMode::Ctbr),
                Family::Wheeled => AgentActionMode::Ground(GroundActionMode::Vk),
            },
    {
        match family {
            Family::Multirotor => AgentActionMode::Multirotor(ActionMode::Ctbr),
            Family::Wheeled => AgentActionMode::Ground(GroundActionMode::Vk),
        }
    }

    pub fn name(self) -> (r: &'static str)
        ensures
            r@ == self.title(),
    {
        match self {
            AgentActionMode::Multirotor(m) => m.name(),
            AgentActionMode::Ground(m) => m.name(),
        }
    }

    /// Whether this mode drives vehicles of `family`.
    pub fn fits(self, family: Family) -> (r: bool)
        ensures
            r == (self.family() == family),
    {
        match (self, family) {
            (AgentActionMode::Multirotor(_), Family::Multirotor) => true,
            (AgentActionMode::Ground(_), Family::Wheeled) => true,
            _ => false,
        }
    }

    /// The mode with a name, or what to say of an unknown one.
    pub fn parse(s: &str) -> (r: Result<AgentActionMode, String>)
        ensures
            match r {
                Ok(m) => m.title() == s@,
                Err(e) => (forall|m: AgentActionMode| #[trigger] m.title() != s@) && e@ == unknown_mode(s@),
            },
    {
        if let Some(m) = ActionMode::find(s) {
            return Ok(AgentActionMode::Multirotor(m));
        }
        if let Some(m) = GroundActionMode::find(s) {
            return Ok(AgentActionMode::Ground(m));
        }
        let mut e = "unknown action mode ".to_owned();
        e.append(text::quote(s).as_str());
        e.append(
            " (expected one of motors, ctbr, attitude, velocity, position, raw, vk, vw, per_wheel)",
        );
        proof {
            assert forall|m: AgentActionMode| #[trigger] m.title() != s@ by {
                match m {
                    AgentActionMode::Multirotor(a) => {
                        assert(a.title() != s@);
                    },
                    AgentActionMode::Ground(a) => {
                        assert(a.title() != s@);
                    },
                }
            }
        }
        Err(e)
    }
}

/// What is said of an unknown mode.
pub open spec fn unknown_mode(s: Seq<char>) -> Seq<char> {
    "unknown action mode "@ + text::quoted(s)
        + " (expected one of motors, ctbr, attitude, velocity, position, raw, vk, vw, per_wheel)"@
}

impl std::str::FromStr for AgentActionMode {
    type Err = String;

    fn from_str(s: &str) -> (r: Result<AgentActionMode, String>)
        ensures
            match r {
                Ok(m) => m.title() == s@,
                Err(e) => (forall|m: AgentActionMode| #[trigger] m.title() != s@) && e@ == unknown_mode(s@),
            },
    {
        AgentActionMode::parse(s)
    }
}

impl std::convert::From<ActionMode> for AgentActionMode {
    fn from(m: ActionMode) -> (r: AgentActionMode) {
        AgentActionMode::Multirotor(m)
    }
}

impl vstd::std_specs::convert::FromSpecImpl<ActionMode> for AgentActionMode {
    open spec fn obeys_from_spec() -> bool {
        true
    }

    open spec fn from_spec(m: ActionMode) -> AgentActionMode {
        AgentActionMode::Multirotor(m)
    }
}

impl std::convert::From<GroundActionMode> for AgentActionMode {
    fn from(m: GroundActionMode) -> (r: AgentActionMode) {
        AgentActionMode::Ground(m)
    }
}

impl vstd::std_specs::convert::FromSpecImpl<GroundActionMode> for AgentActionMode {
    open spec fn obeys_from_spec() -> bool {
        true
    }

    open spec fn from_spec(m: GroundActionMode) -> AgentActionMode {
        AgentActionMode::Ground(m)
    }
}

/// A name belongs to one mode only, of one family.
pub proof fn lemma_names_select_modes(a: AgentActionMode, b: AgentActionMode)
    requires
        a.title() == b.title(),
    ensures
        a == b,
        a.family() == b.family(),
{
    reveal_strlit("motors");
    reveal_strlit("ctbr");
    reveal_strlit("attitude");
    reveal_strlit("velocity");
    reveal_strlit("position");
    reveal_strlit("raw");
    reveal_strlit("vk");
    reveal_strlit("vw");
    reveal_strlit("per_wheel");
    let (s, t) = (a.title(), b.title());
    assert(s.len() == t.len() && s[0] == t[0] && s[1] == t[1]);
}

/// Frame of a velocity setpoint.
#[derive(Clone, Copy, Debug, PartialEq, Eq, Structural)]
pub enum Frame {
    World,
    /// World frame rotated by the current heading: x forward, y left, z up.
    Heading,
}

impl Default for Frame {
    fn default() -> (r: Frame)
        ensures
            r == Frame::Heading,
    {
        Frame::Heading
    }
}

/// Why a controller was not made.
#[derive(Clone, Debug)]
pub enum ControlError {
    Unallocatable(String),
    InvalidConfig(String),
}

impl ControlError {
    pub open spec fn text(&self) -> Seq<char> {
        match self {
            ControlError::Unallocatable(s) => "control allocation impossible: "@ + s@,
            ControlError::InvalidConfig(s) => "invalid controller configuration: "@ + s@,
        }
    }

    pub fn message(&self) -> (r: String)
        ensures
            r@ == self.text(),
    {
        match self {
            ControlError::Unallocatable(s) => {
                let mut m = "control allocation impossible: ".to_owned();
                m.append(s.as_str());
                m
            },
            ControlError::InvalidConfig(s) => {
                let mut m = "invalid controller configuration: ".to_owned();
                m.append(s.as_str());
                m
            },
        }
    }
}

/// What is said of a mode that does not drive a vehicle.
pub open spec fn wrong_family(mode: Seq<char>, family: Seq<char>, name: Seq<char>) -> Seq<char> {
    "action mode "@ + mode + " does not drive "@ + family + " vehicles ("@ + text::quoted(name) + ")"@
}

/// The error of a mode that does not drive the vehicles of a family called `family_name`.
pub fn mismatch(mode: AgentActionMode, family_name: &str, name: &str) -> (e: ControlError)
    ensures
        e is InvalidConfig,
        (e->InvalidConfig_0)@ == wrong_family(mode.title(), family_name@, name@),
{
    let mut m = "action mode ".to_owned();
    m.append(mode.name());
    m.append(" does not drive ");
    m.append(family_name);
    m.append(" vehicles (");
    m.append(text::quote(name).as_str());
    m.append(")");
    ControlError::InvalidConfig(m)
}

/// What is said of a controller that was not made says which of the two reasons it is, and ends with what
/// went wrong.
pub proof fn lemma_control_errors_end_with_their_reason(e: ControlError)
    ensures
        ({
            let reason = match e {
                ControlError::Unallocatable(s) => s@,
                ControlError::InvalidConfig(s) => s@,
            };
            let t = e.text();
            &&& t.subrange(t.len() - reason.len(), t.len() as int) == reason
            &&& e is Unallocatable <==> t[0] == 'c'
            &&& e is InvalidConfig <==> t[0] == 'i'
        }),
{
    reveal_strlit("control allocation impossible: ");
    reveal_strlit("invalid controller configuration: ");
    let reason = match e {
        ControlError::Unallocatable(s) => s@,
        ControlError::InvalidConfig(s) => s@,
    };
    let t = e.text();
    assert(t.subrange(t.len() - reason.len(), t.len() as int) =~= reason);
}

/// What is said of a mode that does not drive a vehicle names the mode, then the family, then the vehicle.
pub proof fn lemma_wrong_families_are_named(mode: Seq<char>, family: Seq<char>, name: Seq<char>)
    ensures
        ({
            let s = wrong_family(mode, family, name);
            let (a, b) = ("action mode "@.len() as int, " does not drive "@.len() as int);
            &&& s.subrange(a, a + mode.len()) == mode
            &&& s.subrange(a + mode.len() + b, a + mode.len() + b + family.len()) == family
            &&& s.subrange(s.len() - 1 - text::quoted(name).len(), s.len() - 1) == text::quoted(name)
        }),
{
    reveal_strlit(")");
    let s = wrong_family(mode, family, name);
    let (a, b) = ("action mode "@.len() as int, " does not drive "@.len() as int);
    assert(s.subrange(a, a + mode.len()) =~= mode);
    assert(s.subrange(a + mode.len() + b, a + mode.len() + b + family.len()) =~= family);
    assert(s.subrange(s.len() - 1 - text::quoted(name).len(), s.len() - 1) =~= text::quoted(name));
}

/// Every mode belongs to a family, and is one of that family's.
pub proof fn lemma_modes_belong_to_families(m: AgentActionMode)
    ensures
        m.family() == Family::Multirotor <==> m is Multirotor,
        m.family() == Family::Wheeled <==> m is Ground,
{
}

} // verus!

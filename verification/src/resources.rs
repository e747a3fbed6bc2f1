//! The settings and switches of a simulation.
use crate::fixed::ONE;
use vstd::prelude::*;

verus! {

/// The length of one step, as a scalar.
#[derive(Clone, Copy, Debug, PartialEq, Eq, Structural)]
pub struct DT(pub i64);

/// The gravitational constant, as a scalar.
#[derive(Clone, Copy, Debug, PartialEq, Eq, Structural)]
pub struct G(pub i64);

/// How many steps of the simulation a frame runs.
#[derive(Clone, Copy, Debug, PartialEq, Eq, Structural)]
pub struct Steps(pub usize);

/// Whether the simulation stands still.
#[derive(Clone, Copy, Debug, PartialEq, Eq, Structural)]
pub struct Paused(pub bool);

impl Default for Paused {
    /// A simulation that runs.
    fn default() -> (r: Paused)
        ensures
            r == Paused(false),
    {
        Paused(false)
    }
}

impl Paused {
    /// Pauses a running simulation and resumes a paused one.
    pub fn toggle(&mut self)
        ensures
            final(self).0 == !old(self).0,
    {
        self.0 = !self.0;
    }

    /// Pauses a running simulation and resumes a paused one.
    pub fn invert(&mut self)
        ensures
            final(self).0 == !old(self).0,
    {
        self.0 = !self.0;
    }
}

/// Which phases of a step are switched on.
#[derive(Clone, Copy, Debug, PartialEq, Eq, Structural)]
pub struct PhysicsToggles {
    pub collisions: bool,
    pub integration: bool,
}

/// How many forecast steps a frame has run.
#[derive(Clone, Copy, Debug, PartialEq, Eq, Structural)]
pub struct PreviewIterations(pub usize);

impl Default for PreviewIterations {
    /// No steps.
    fn default() -> (r: PreviewIterations)
        ensures
            r == PreviewIterations(0),
    {
        PreviewIterations(0)
    }
}

/// How many steps of the simulation a frame has run.
#[derive(Clone, Copy, Debug, PartialEq, Eq, Structural)]
pub struct MainIterations(pub usize);

impl Default for MainIterations {
    /// No steps.
    fn default() -> (r: MainIterations)
        ensures
            r == MainIterations(0),
    {
        MainIterations(0)
    }
}

/// Whether the forecast has to be started afresh.
#[derive(Clone, Copy, Debug, PartialEq, Eq, Structural)]
pub struct NewPreview(pub bool);

impl Default for NewPreview {
    /// No forecast has to be started.
    fn default() -> (r: NewPreview)
        ensures
            r == NewPreview(false),
    {
        NewPreview(false)
    }
}

/// Whether the camera follows the selected body.
#[derive(Clone, Copy, Debug, PartialEq, Eq, Structural)]
pub struct FollowSelectedBody(pub bool);

impl Default for FollowSelectedBody {
    /// The camera follows nothing.
    fn default() -> (r: FollowSelectedBody)
        ensures
            r == FollowSelectedBody(false),
    {
        FollowSelectedBody(false)
    }
}

impl FollowSelectedBody {
    /// Switches following on if it is off, and off if it is on.
    pub fn toggle(&mut self)
        ensures
            final(self).0 == !old(self).0,
    {
        self.0 = !self.0;
    }
}

/// Whether trails are recorded.
#[derive(Clone, Copy, Debug, PartialEq, Eq, Structural)]
pub struct EnableTrails(pub bool);

impl Default for EnableTrails {
    /// No trails.
    fn default() -> (r: EnableTrails)
        ensures
            r == EnableTrails(false),
    {
        EnableTrails(false)
    }
}

impl EnableTrails {
    /// Switches trails on if they are off, and off if they are on.
    pub fn toggle(&mut self)
        ensures
            final(self).0 == !old(self).0,
    {
        self.0 = !self.0;
    }
}

/// The handle of the body that the user inspects, if there is one.
#[derive(Clone, Copy, Debug, PartialEq, Eq, Structural)]
pub struct InspectedEntity(pub Option<u64>);

/// Whether several forecasts may stand side by side.
#[derive(Clone, Copy, Debug, PartialEq, Eq, Structural)]
pub struct MultiPreview(pub bool);

/// The settings that a step reads: timestep, gravitational constant, pause
/// flag and phase switches.
#[derive(Clone, Copy, Debug, PartialEq, Eq, Structural)]
pub struct SimulationConfig {
    pub dt: DT,
    pub g: G,
    pub paused: Paused,
    pub toggles: PhysicsToggles,
}

impl SimulationConfig {
    /// The settings a simulation starts with: a timestep of one, a
    /// gravitational constant of one hundred, running, every phase switched on.
    pub open spec fn spec_initial() -> SimulationConfig {
        SimulationConfig {
            dt: DT(ONE),
            g: G((100 * ONE) as i64),
            paused: Paused(false),
            toggles: PhysicsToggles { collisions: true, integration: true },
        }
    }

    /// The settings a simulation starts with.
    pub fn initial() -> (c: SimulationConfig)
        ensures
            c == Self::spec_initial(),
    {
        SimulationConfig {
            dt: DT(ONE),
            g: G(100 * ONE),
            paused: Paused(false),
            toggles: PhysicsToggles { collisions: true, integration: true },
        }
    }
}

} // verus!

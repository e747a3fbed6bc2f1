//! The tick orchestrator: the state of a simulation, the order of the phases
//! of a step, the forecast that runs beside it, and the commands by which the
//! outside world changes it.
//!
//! A step of the simulation is gravity, then collisions, then integration, so
//! that bodies merge where they stood at the start of the step. A step of the
//! forecast is gravity on the previews, their integration, then the deletion of
//! the previews that ran into a body; it runs whether or not the simulation is
//! paused and leaves the pause flag as it found it.
use crate::body::{BodyUpdate, KinematicBody, Vec2};
use crate::collision::{
    any_preview_hit, collision_sys, preview_collision_sys, spec_collide, spec_handles, spec_heirs,
    spec_inherit, spec_preview_collide,
};
use crate::entities::{create_body, create_preview, new_preview};
use crate::error::SimError;
use crate::fixed::ONE;
use crate::gravity::{gravity_sys, preview_gravity_sys, spec_gravity_all};
use crate::integration::{integration_sys, preview_integration_sys, spec_integrate_all};
use crate::resources::{
    InspectedEntity, MainIterations, MultiPreview, Paused, PhysicsToggles, PreviewIterations,
    SimulationConfig, DT, G,
};
use crate::store::{
    handle_index, has_handle, lemma_handle_index_unique, real_bodies, spec_spawn_result,
    BodyStore, StoredBody,
};
use vstd::prelude::*;

verus! {

/// What a forecast starts from: where the new body would be placed, the
/// velocity it would be released with, and its radius.
#[derive(Clone, Copy, Debug, PartialEq, Eq, Structural)]
pub struct PreviewParameters {
    pub start_point: Vec2,
    pub release_velocity: Vec2,
    pub radius: i64,
}

impl PreviewParameters {
    /// The preview body that a forecast with these parameters starts with. Its
    /// mass is one.
    pub open spec fn spec_body(self) -> KinematicBody {
        KinematicBody {
            pos: self.start_point,
            vel: self.release_velocity,
            accel: Vec2 { x: 0, y: 0 },
            force: Vec2 { x: 0, y: 0 },
            mass: ONE,
            radius: self.radius,
        }
    }

    /// The preview body that a forecast with these parameters starts with.
    pub fn body(&self) -> (b: KinematicBody)
        ensures
            b == self.spec_body(),
    {
        new_preview(self.start_point, self.release_velocity, self.radius)
    }
}

/// The state of the forecast: its parameters, if one is wanted, the number of
/// steps it has run, and the number of steps after which it ends.
#[derive(Clone, Copy, Debug, PartialEq, Eq, Structural)]
pub struct PreviewState {
    pub parameters: Option<PreviewParameters>,
    pub steps: usize,
    pub horizon: usize,
}

/// The number of steps after which a forecast ends, unless it is set
/// otherwise.
pub const PREVIEW_HORIZON: usize = 100_000;

/// A request from outside the simulation.
#[derive(Clone, Copy, Debug, PartialEq, Eq, Structural)]
pub enum Command {
    /// Add a body.
    SpawnBody { body: KinematicBody },
    /// Change the state of the body with this handle.
    UpdateBody { handle: u64, update: BodyUpdate },
    /// Delete the body with this handle.
    DeleteBody { handle: u64 },
    /// Set the gravitational constant.
    SetGravitationalConstant(i64),
    /// Set the length of a step.
    SetTimestep(i64),
    /// Pause or resume the simulation.
    SetPaused(bool),
    /// Switch the merging of bodies that touch on or off.
    SetCollisions(bool),
    /// Switch the moving of bodies on or off.
    SetIntegration(bool),
    /// Start a forecast from these parameters, or end the forecast.
    SetPreviewParameters(Option<PreviewParameters>),
}

/// The state of a simulation as its contracts see it: the bodies in the order
/// of the store, the next free handle, and every setting.
pub struct Model {
    pub bodies: Seq<StoredBody>,
    pub next_handle: u64,
    pub config: SimulationConfig,
    pub inspected: InspectedEntity,
    pub main_iterations: MainIterations,
    pub preview_iterations: PreviewIterations,
    pub multi_preview: MultiPreview,
    pub preview: PreviewState,
}

/// The bodies `s` after one step of the simulation.
pub open spec fn spec_tick_bodies(s: Seq<StoredBody>, config: SimulationConfig) -> Seq<
    StoredBody,
> {
    let pulled = spec_gravity_all(config.g.0 as int, s, false);
    let merged = if config.toggles.collisions {
        spec_collide(pulled)
    } else {
        pulled
    };
    if config.toggles.integration {
        spec_integrate_all(merged, false, config.dt.0 as int)
    } else {
        merged
    }
}

/// The simulation `m` after one step: gravity, collisions, integration. A
/// paused simulation stays as it is.
pub open spec fn spec_tick(m: Model) -> Model {
    if m.config.paused.0 {
        m
    } else {
        let pulled = spec_gravity_all(m.config.g.0 as int, m.bodies, false);
        Model {
            bodies: spec_tick_bodies(m.bodies, m.config),
            inspected: if m.config.toggles.collisions {
                InspectedEntity(spec_inherit(pulled, m.inspected.0))
            } else {
                m.inspected
            },
            ..m
        }
    }
}

/// For each body of `m`, the handle of the body it ends up in after one step of
/// the simulation.
pub open spec fn spec_tick_heirs(m: Model) -> Seq<u64> {
    let pulled = spec_gravity_all(m.config.g.0 as int, m.bodies, false);
    if !m.config.paused.0 && m.config.toggles.collisions {
        spec_heirs(pulled)
    } else {
        spec_handles(m.bodies)
    }
}

/// The simulation `m` after `n` steps.
pub open spec fn spec_ticks(m: Model, n: int) -> Model
    decreases n,
{
    if n <= 0 {
        m
    } else {
        spec_tick(spec_ticks(m, n - 1))
    }
}

/// The bodies `s` after gravity and integration of the previews, before the
/// previews that ran into a body are deleted.
pub open spec fn spec_preview_advanced(s: Seq<StoredBody>, config: SimulationConfig) -> Seq<
    StoredBody,
> {
    let pulled = spec_gravity_all(config.g.0 as int, s, true);
    if config.toggles.integration {
        spec_integrate_all(pulled, true, config.dt.0 as int)
    } else {
        pulled
    }
}

/// The preview body, as stored under the handle `handle`, that a forecast with
/// parameters `p` starts with.
pub open spec fn fresh_preview(handle: u64, p: PreviewParameters) -> StoredBody {
    StoredBody { handle, preview: true, body: p.spec_body().spec_clamped() }
}

/// Whether a forecast of `m` that lost its preview starts afresh: one is
/// wanted, its parameters describe a valid body, and a handle is left for it.
pub open spec fn restarts(m: Model) -> bool {
    m.preview.parameters is Some && spec_spawn_result(
        m.next_handle,
        m.preview.parameters->0.spec_body(),
    ) is Ok
}

/// The simulation `m` after one step of the forecast.
///
/// A forecast that has run for as many steps as its horizon allows ends: its
/// previews are deleted. Otherwise the previews are pulled by the bodies,
/// moved, and deleted where they ran into a body; if one was deleted and the
/// forecast starts afresh, a new preview is placed and the count of steps
/// begins again.
pub open spec fn spec_preview_step(m: Model) -> Model {
    if m.preview.steps >= m.preview.horizon {
        Model { bodies: real_bodies(m.bodies), ..m }
    } else {
        let advanced = spec_preview_advanced(m.bodies, m.config);
        let left = spec_preview_collide(advanced);
        if any_preview_hit(advanced) && restarts(m) {
            Model {
                bodies: left.push(fresh_preview(m.next_handle, m.preview.parameters->0)),
                next_handle: (m.next_handle + 1) as u64,
                preview: PreviewState { steps: 0, ..m.preview },
                ..m
            }
        } else {
            Model {
                bodies: left,
                preview: PreviewState { steps: (m.preview.steps + 1) as usize, ..m.preview },
                ..m
            }
        }
    }
}

/// The simulation `m` after `n` steps of the forecast.
pub open spec fn spec_preview_steps(m: Model, n: int) -> Model
    decreases n,
{
    if n <= 0 {
        m
    } else {
        spec_preview_step(spec_preview_steps(m, n - 1))
    }
}

/// The simulation `m` with the marker of the inspected body dropped if it
/// names no live body.
pub open spec fn spec_drop_stale(m: Model) -> Model {
    match m.inspected.0 {
        Some(h) => if has_handle(m.bodies, h) {
            m
        } else {
            Model { inspected: InspectedEntity(None), ..m }
        },
        None => m,
    }
}

/// The simulation `m` after the steps of one frame: the steps of the
/// simulation, then the steps of the forecast; after them the marker of the
/// inspected body is dropped if its body is gone.
pub open spec fn spec_frame(m: Model) -> Model {
    spec_drop_stale(
        spec_preview_steps(
            spec_ticks(m, m.main_iterations.0 as int),
            m.preview_iterations.0 as int,
        ),
    )
}

/// The simulation `m` after one update: one step of the simulation, then
/// `forecast_steps` steps of the forecast; after them the marker of the
/// inspected body is dropped if its body is gone.
pub open spec fn spec_update(m: Model, forecast_steps: int) -> Model {
    spec_drop_stale(spec_preview_steps(spec_tick(m), forecast_steps))
}

/// The simulation `m` after `n` updates with `forecast_steps` steps of the
/// forecast each.
pub open spec fn spec_updates(m: Model, n: int, forecast_steps: int) -> Model
    decreases n,
{
    if n <= 0 {
        m
    } else {
        spec_update(spec_updates(m, n - 1, forecast_steps), forecast_steps)
    }
}

/// Whether a request for a forecast with `parameters` changes anything: the
/// parameters differ from those of the forecast that is running.
pub open spec fn forecast_changes(m: Model, parameters: Option<PreviewParameters>) -> bool {
    parameters != m.preview.parameters
}

/// The bodies that stay when a new forecast is started: all of them where
/// several forecasts may stand side by side, otherwise those that are not
/// previews.
pub open spec fn spec_kept_bodies(m: Model) -> Seq<StoredBody> {
    if m.multi_preview.0 {
        m.bodies
    } else {
        real_bodies(m.bodies)
    }
}

/// What a request for a forecast with `parameters` returns: the handle of the
/// fresh preview if one was placed, and the error if the parameters describe
/// no valid body or no handle is left.
pub open spec fn spec_forecast_result(m: Model, parameters: Option<PreviewParameters>) -> Result<
    Option<u64>,
    SimError,
> {
    if !forecast_changes(m, parameters) {
        Ok(None)
    } else {
        match parameters {
            None => Ok(None),
            Some(p) => match spec_spawn_result(m.next_handle, p.spec_body()) {
                Ok(h) => Ok(Some(h)),
                Err(e) => Err(e),
            },
        }
    }
}

/// The simulation `m` after a request for a forecast with `parameters`.
///
/// Parameters equal to those of the running forecast change nothing. New
/// parameters discard the previews there are (unless several forecasts may
/// stand side by side) and place one fresh preview; no parameters discard all
/// previews. A request that is turned down changes nothing.
pub open spec fn spec_forecast(m: Model, parameters: Option<PreviewParameters>) -> Model {
    if !forecast_changes(m, parameters) {
        m
    } else {
        match parameters {
            None => Model {
                bodies: real_bodies(m.bodies),
                preview: PreviewState { parameters: None, steps: 0, ..m.preview },
                ..m
            },
            Some(p) => match spec_spawn_result(m.next_handle, p.spec_body()) {
                Ok(h) => Model {
                    bodies: spec_kept_bodies(m).push(fresh_preview(m.next_handle, p)),
                    next_handle: (m.next_handle + 1) as u64,
                    preview: PreviewState { parameters: Some(p), steps: 0, ..m.preview },
                    ..m
                },
                Err(e) => m,
            },
        }
    }
}

/// What the request `command` returns: the handle of the body that was added,
/// if one was, or why the request was turned down.
pub open spec fn spec_apply_result(m: Model, command: Command) -> Result<Option<u64>, SimError> {
    match command {
        Command::SpawnBody { body } => match spec_spawn_result(m.next_handle, body) {
            Ok(h) => Ok(Some(h)),
            Err(e) => Err(e),
        },
        Command::UpdateBody { handle, update } => if !has_handle(m.bodies, handle) {
            Err(SimError::StaleHandle)
        } else if !m.bodies[handle_index(m.bodies, handle)].body.spec_updated(
            update,
        ).spec_is_valid() {
            Err(SimError::InvalidBodyParameters)
        } else {
            Ok(None)
        },
        Command::DeleteBody { handle } => if has_handle(m.bodies, handle) {
            Ok(None)
        } else {
            Err(SimError::StaleHandle)
        },
        Command::SetGravitationalConstant(g) => Ok(None),
        Command::SetTimestep(dt) => Ok(None),
        Command::SetPaused(paused) => Ok(None),
        Command::SetCollisions(on) => Ok(None),
        Command::SetIntegration(on) => Ok(None),
        Command::SetPreviewParameters(parameters) => spec_forecast_result(m, parameters),
    }
}

/// The simulation `m` after the request `command`. A request that is turned
/// down changes nothing.
pub open spec fn spec_apply(m: Model, command: Command) -> Model {
    match command {
        Command::SpawnBody { body } => match spec_spawn_result(m.next_handle, body) {
            Ok(h) => Model {
                bodies: m.bodies.push(
                    StoredBody { handle: h, preview: false, body: body.spec_clamped() },
                ),
                next_handle: (m.next_handle + 1) as u64,
                ..m
            },
            Err(e) => m,
        },
        Command::UpdateBody { handle, update } => if spec_apply_result(m, command) is Ok {
            let i = handle_index(m.bodies, handle);
            Model {
                bodies: m.bodies.update(
                    i,
                    StoredBody {
                        body: m.bodies[i].body.spec_updated(update).spec_clamped(),
                        ..m.bodies[i]
                    },
                ),
                ..m
            }
        } else {
            m
        },
        Command::DeleteBody { handle } => if has_handle(m.bodies, handle) {
            Model {
                bodies: m.bodies.remove(handle_index(m.bodies, handle)),
                inspected: if m.inspected.0 == Some(handle) {
                    InspectedEntity(None)
                } else {
                    m.inspected
                },
                ..m
            }
        } else {
            m
        },
        Command::SetGravitationalConstant(g) => Model {
            config: SimulationConfig { g: G(g), ..m.config },
            ..m
        },
        Command::SetTimestep(dt) => Model { config: SimulationConfig { dt: DT(dt), ..m.config }, ..m },
        Command::SetPaused(paused) => Model {
            config: SimulationConfig { paused: Paused(paused), ..m.config },
            ..m
        },
        Command::SetCollisions(on) => Model {
            config: SimulationConfig {
                toggles: PhysicsToggles { collisions: on, ..m.config.toggles },
                ..m.config
            },
            ..m
        },
        Command::SetIntegration(on) => Model {
            config: SimulationConfig {
                toggles: PhysicsToggles { integration: on, ..m.config.toggles },
                ..m.config
            },
            ..m
        },
        Command::SetPreviewParameters(parameters) => spec_forecast(m, parameters),
    }
}

/// Whether the time allowed for forecasting in a frame is not used up yet: less
/// than `budget` has passed between `started` and `now`.
pub open spec fn spec_budget_left(started: u64, now: u64, budget: u64) -> bool {
    now >= started && now - started < budget
}

/// Whether the time allowed for forecasting in a frame is not used up yet. A
/// clock that ran backwards ends the forecasting of the frame.
pub fn preview_budget_left(started: u64, now: u64, budget: u64) -> (left: bool)
    ensures
        left == spec_budget_left(started, now, budget),
{
    now >= started && now - started < budget
}

/// A simulation: its bodies, its settings, and its forecast.
pub struct MainState {
    pub store: BodyStore,
    pub config: SimulationConfig,
    pub inspected: InspectedEntity,
    pub main_iterations: MainIterations,
    pub preview_iterations: PreviewIterations,
    pub multi_preview: MultiPreview,
    pub preview: PreviewState,
}

impl MainState {
    /// The simulation as its contracts see it.
    pub open spec fn view(&self) -> Model {
        Model {
            bodies: self.store@.bodies,
            next_handle: self.store@.next_handle,
            config: self.config,
            inspected: self.inspected,
            main_iterations: self.main_iterations,
            preview_iterations: self.preview_iterations,
            multi_preview: self.multi_preview,
            preview: self.preview,
        }
    }

    /// The invariant of a simulation: that of its store.
    pub open spec fn wf(&self) -> bool {
        self.store.wf()
    }

    /// The simulation that `new` returns: no bodies, running, with a timestep
    /// of one and a gravitational constant of one hundred, one step per frame,
    /// and no forecast.
    pub open spec fn spec_new() -> Model {
        Model {
            bodies: Seq::empty(),
            next_handle: 0,
            config: SimulationConfig::spec_initial(),
            inspected: InspectedEntity(None),
            main_iterations: MainIterations(1),
            preview_iterations: PreviewIterations(0),
            multi_preview: MultiPreview(false),
            preview: PreviewState { parameters: None, steps: 0, horizon: PREVIEW_HORIZON },
        }
    }

    /// A simulation without bodies, with the settings it starts with.
    pub fn new() -> (state: MainState)
        ensures
            state.wf(),
            state@ == Self::spec_new(),
    {
        MainState {
            store: BodyStore::new(),
            config: SimulationConfig::initial(),
            inspected: InspectedEntity(None),
            main_iterations: MainIterations(1),
            preview_iterations: PreviewIterations(0),
            multi_preview: MultiPreview(false),
            preview: PreviewState { parameters: None, steps: 0, horizon: PREVIEW_HORIZON },
        }
    }

    /// Runs one step of the simulation: gravity, collisions, integration. A
    /// paused simulation is left as it is.
    ///
    /// Returns, for each body that was there before the step, the handle of
    /// the body it ends up in.
    pub fn tick(&mut self) -> (heirs: Vec<u64>)
        requires
            old(self).wf(),
        ensures
            final(self).wf(),
            final(self)@ == spec_tick(old(self)@),
            heirs@ == spec_tick_heirs(old(self)@),
    {
        let config = self.config;
        gravity_sys(&mut self.store, config.g, config.paused);
        let heirs = collision_sys(
            &mut self.store,
            &mut self.inspected,
            config.toggles,
            config.paused,
        );
        integration_sys(&mut self.store, config.dt, config.toggles, config.paused);
        heirs
    }

    /// Runs one step of the forecast, whether or not the simulation is paused,
    /// and leaves the pause flag as it was.
    pub fn preview_step(&mut self)
        requires
            old(self).wf(),
        ensures
            final(self).wf(),
            final(self)@ == spec_preview_step(old(self)@),
    {
        if self.preview.steps >= self.preview.horizon {
            self.delete_preview();
            return ;
        }
        let config = self.config;
        preview_gravity_sys(&mut self.store, config.g);
        preview_integration_sys(&mut self.store, config.dt, config.toggles, Paused(false));
        let hit = preview_collision_sys(&mut self.store);
        self.preview.steps = self.preview.steps + 1;
        if hit.0 {
            match self.preview.parameters {
                Some(p) => {
                    match create_preview(&mut self.store, p.body()) {
                        Ok(_) => {
                            self.preview.steps = 0;
                        },
                        Err(_) => {},
                    }
                },
                None => {},
            }
        }
    }

    /// Deletes every preview. The parameters of the forecast stay, so that it
    /// can start afresh.
    pub fn delete_preview(&mut self)
        requires
            old(self).wf(),
        ensures
            final(self).wf(),
            final(self)@ == (Model { bodies: real_bodies(old(self)@.bodies), ..old(self)@ }),
    {
        self.store.clear_previews();
    }

    /// Runs `steps` steps of the forecast and leaves the pause flag as it was.
    pub fn preview_frame(&mut self, steps: usize)
        requires
            old(self).wf(),
        ensures
            final(self).wf(),
            final(self)@ == spec_preview_steps(old(self)@, steps as int),
    {
        let mut i: usize = 0;
        while i < steps
            invariant
                i <= steps,
                self.wf(),
                self@ == spec_preview_steps(old(self)@, i as int),
            decreases steps - i,
        {
            self.preview_step();
            i += 1;
        }
    }

    /// Carries out a request from outside.
    ///
    /// Returns the handle of the body that was added, if one was. A request
    /// that is turned down leaves the simulation as it was.
    pub fn apply(&mut self, command: Command) -> (r: Result<Option<u64>, SimError>)
        requires
            old(self).wf(),
        ensures
            final(self).wf(),
            r == spec_apply_result(old(self)@, command),
            final(self)@ == spec_apply(old(self)@, command),
    {
        match command {
            Command::SpawnBody { body } => {
                match create_body(&mut self.store, body) {
                    Ok(h) => Ok(Some(h)),
                    Err(e) => Err(e),
                }
            },
            Command::UpdateBody { handle, update } => {
                proof {
                    lemma_handle_index_unique(self.store@.bodies, handle);
                }
                match self.store.get(handle) {
                    Ok(e) => {
                        match self.store.replace(handle, e.body.updated(&update)) {
                            Ok(()) => Ok(None),
                            Err(error) => Err(error),
                        }
                    },
                    Err(error) => Err(error),
                }
            },
            Command::DeleteBody { handle } => {
                match self.store.despawn(handle) {
                    Ok(_) => {
                        proof {
                            lemma_handle_index_unique(old(self).store@.bodies, handle);
                        }
                        if self.inspected.0 == Some(handle) {
                            self.inspected = InspectedEntity(None);
                        }
                        Ok(None)
                    },
                    Err(e) => Err(e),
                }
            },
            Command::SetGravitationalConstant(g) => {
                self.config.g = G(g);
                Ok(None)
            },
            Command::SetTimestep(dt) => {
                self.config.dt = DT(dt);
                Ok(None)
            },
            Command::SetPaused(paused) => {
                self.config.paused = Paused(paused);
                Ok(None)
            },
            Command::SetCollisions(on) => {
                self.config.toggles.collisions = on;
                Ok(None)
            },
            Command::SetIntegration(on) => {
                self.config.toggles.integration = on;
                Ok(None)
            },
            Command::SetPreviewParameters(parameters) => self.set_preview_parameters(parameters),
        }
    }

    /// Starts a forecast from `parameters`, or ends the forecast if there are
    /// none.
    ///
    /// Parameters equal to those of the running forecast change nothing: the
    /// forecast goes on. New parameters discard the previews there are (unless
    /// several forecasts may stand side by side) and place one fresh preview;
    /// no parameters discard all previews. Parameters that describe no valid
    /// body are turned down, and the simulation is left as it was.
    pub fn set_preview_parameters(&mut self, parameters: Option<PreviewParameters>) -> (r: Result<
        Option<u64>,
        SimError,
    >)
        requires
            old(self).wf(),
        ensures
            final(self).wf(),
            r == spec_forecast_result(old(self)@, parameters),
            final(self)@ == spec_forecast(old(self)@, parameters),
    {
        if parameters == self.preview.parameters {
            return Ok(None);
        }
        match parameters {
            None => {
                self.store.clear_previews();
                self.preview.parameters = None;
                self.preview.steps = 0;
                Ok(None)
            },
            Some(p) => {
                let body = p.body();
                if !body.is_valid() {
                    return Err(SimError::InvalidBodyParameters);
                }
                if self.store.next_handle() == u64::MAX {
                    return Err(SimError::HandlesExhausted);
                }
                if !self.multi_preview.0 {
                    self.store.clear_previews();
                }
                match create_preview(&mut self.store, body) {
                    Ok(h) => {
                        self.preview.parameters = Some(p);
                        self.preview.steps = 0;
                        Ok(Some(h))
                    },
                    Err(e) => Err(e),
                }
            },
        }
    }

    /// Runs one update: one step of the simulation, unless it is paused, then
    /// `forecast_steps` steps of the forecast, which run paused or not. An
    /// inspected body that is gone after them is no longer inspected. Nothing
    /// in an update can fail.
    pub fn update(&mut self, forecast_steps: usize) -> (r: Result<(), SimError>)
        requires
            old(self).wf(),
        ensures
            final(self).wf(),
            r is Ok,
            final(self)@ == spec_update(old(self)@, forecast_steps as int),
    {
        let _ = self.tick();
        self.preview_frame(forecast_steps);
        self.drop_stale();
        Ok(())
    }

    /// Runs the steps of one frame: as many steps of the simulation as
    /// `main_iterations` says, then as many steps of the forecast as
    /// `preview_iterations` says. An inspected body that is gone after them is
    /// no longer inspected.
    pub fn run_physics_systems(&mut self)
        requires
            old(self).wf(),
        ensures
            final(self).wf(),
            final(self)@ == spec_frame(old(self)@),
    {
        let n = self.main_iterations.0;
        let mut i: usize = 0;
        while i < n
            invariant
                i <= n,
                n == old(self).main_iterations.0,
                self.wf(),
                self@ == spec_ticks(old(self)@, i as int),
            decreases n - i,
        {
            let _ = self.tick();
            i += 1;
        }
        proof {
            lemma_ticks_keep_settings(old(self)@, n as int);
        }
        let steps = self.preview_iterations.0;
        self.preview_frame(steps);
        proof {
            lemma_preview_steps_keep_settings(spec_ticks(old(self)@, n as int), steps as int);
        }
        self.drop_stale();
    }

    /// Drops the marker of the inspected body if it names no live body: a body
    /// that was merged away or deleted is no longer inspected.
    pub fn drop_stale(&mut self)
        requires
            old(self).wf(),
        ensures
            final(self).wf(),
            final(self)@ == spec_drop_stale(old(self)@),
    {
        match self.inspected.0 {
            Some(h) => {
                if self.store.find(h).is_none() {
                    self.inspected = InspectedEntity(None);
                }
            },
            None => {},
        }
    }
}

/// Steps of the simulation change no setting.
pub proof fn lemma_ticks_keep_settings(m: Model, n: int)
    ensures
        spec_ticks(m, n).config == m.config,
        spec_ticks(m, n).next_handle == m.next_handle,
        spec_ticks(m, n).main_iterations == m.main_iterations,
        spec_ticks(m, n).preview_iterations == m.preview_iterations,
        spec_ticks(m, n).multi_preview == m.multi_preview,
        spec_ticks(m, n).preview == m.preview,
    decreases n,
{
    if n > 0 {
        lemma_ticks_keep_settings(m, n - 1);
    }
}

/// Steps of the forecast change no setting, and least of all the pause flag;
/// nor do they touch the marker of the inspected body.
pub proof fn lemma_preview_steps_keep_settings(m: Model, n: int)
    ensures
        spec_preview_steps(m, n).config == m.config,
        spec_preview_steps(m, n).inspected == m.inspected,
        spec_preview_steps(m, n).main_iterations == m.main_iterations,
        spec_preview_steps(m, n).preview_iterations == m.preview_iterations,
        spec_preview_steps(m, n).multi_preview == m.multi_preview,
        spec_preview_steps(m, n).preview.parameters == m.preview.parameters,
        spec_preview_steps(m, n).preview.horizon == m.preview.horizon,
    decreases n,
{
    if n > 0 {
        lemma_preview_steps_keep_settings(m, n - 1);
    }
}

} // verus!

//! Simulation configuration, its validation, and the spawning of agents.
use crate::agent::{Agent, ForceWeights, MAX_AGENTS, MAX_COORD, MAX_RADIUS, MAX_SPEED};
use crate::motion::{BoundaryMode, World};
use crate::store::AgentStore;
use crate::vector::{
    is_unit, is_zero, lemma_normal_is_unit, normal_of, normalize, within, Vec3, SCALE,
};
use rand::Rng;
use vstd::prelude::*;

verus! {

/// An inclusive range of values.
#[derive(Clone, Copy, Debug, PartialEq, Eq, Structural)]
pub struct ValueRange {
    pub min: i64,
    pub max: i64,
}

/// Everything a simulation starts from. Lengths are in fixed-point units,
/// speeds in fixed-point units per second, and `vision_cos` and the weights
/// have `SCALE` for one.
#[derive(Clone, Copy, Debug, PartialEq, Eq, Structural)]
pub struct SimConfig {
    pub agent_count: usize,
    pub world_bounds: i64,
    pub vision_radius: ValueRange,
    pub vision_cos: i64,
    pub speed: ValueRange,
    pub boundary: BoundaryMode,
    pub weights: ForceWeights,
}

/// Why a configuration cannot start a simulation.
#[derive(Clone, Copy, Debug, PartialEq, Eq, Structural)]
pub enum ConfigError {
    /// No agents, or more than a store holds.
    AgentCount,
    /// Bounds that are not positive, or beyond the coordinate range.
    WorldBounds,
    /// A vision radius range that is empty, not positive, or too large.
    VisionRadius,
    /// A field-of-view cosine outside `-SCALE ..= SCALE`.
    FieldOfView,
    /// A speed range that is empty, negative, or too large.
    Speed,
    /// A weight that is negative or too large.
    ForceWeights,
}

/// The first rule that the configuration breaks, in the order of the fields.
pub open spec fn config_error(c: SimConfig) -> Option<ConfigError> {
    if !(0 < c.agent_count <= MAX_AGENTS) {
        Some(ConfigError::AgentCount)
    } else if !(0 < c.world_bounds <= MAX_COORD) {
        Some(ConfigError::WorldBounds)
    } else if !(0 < c.vision_radius.min <= c.vision_radius.max <= MAX_RADIUS) {
        Some(ConfigError::VisionRadius)
    } else if !(-SCALE <= c.vision_cos <= SCALE) {
        Some(ConfigError::FieldOfView)
    } else if !(0 <= c.speed.min <= c.speed.max <= MAX_SPEED) {
        Some(ConfigError::Speed)
    } else if !c.weights.wf() {
        Some(ConfigError::ForceWeights)
    } else {
        None
    }
}

/// The direction an agent takes when its drawn direction is zero.
pub open spec fn forward() -> (int, int, int) {
    (0, SCALE as int, 0)
}

pub open spec fn initial_heading(direction: (int, int, int)) -> (int, int, int) {
    if is_zero(direction) {
        forward()
    } else {
        normal_of(direction)
    }
}

/// The random values that one agent starts from.
#[derive(Clone, Copy, Debug, PartialEq, Eq, Structural)]
pub struct AgentDraw {
    pub position: Vec3,
    pub direction: Vec3,
    pub speed: i64,
    pub vision_radius: i64,
}

pub open spec fn draw_fits(c: SimConfig, d: AgentDraw) -> bool {
    &&& within(d.position@, c.world_bounds as int)
    &&& within(d.direction@, SCALE as int)
    &&& c.speed.min <= d.speed <= c.speed.max
    &&& c.vision_radius.min <= d.vision_radius <= c.vision_radius.max
}

/// A freshly spawned agent of this configuration: inside the world, heading
/// along a direction, with parameters in their ranges and no force yet.
pub open spec fn is_spawned(c: SimConfig, a: Agent) -> bool {
    &&& within(a.position@, c.world_bounds as int)
    &&& is_unit(a.heading@)
    &&& c.speed.min <= a.speed <= c.speed.max
    &&& c.vision_radius.min <= a.vision_radius <= c.vision_radius.max
    &&& a.vision_cos == c.vision_cos
    &&& a.weights == c.weights
    &&& is_zero(a.separation@)
    &&& is_zero(a.cohesion@)
    &&& a.alignment == a.heading
}

impl SimConfig {
    /// Whether the configuration can start a simulation, and if not, why.
    pub fn validate(&self) -> (r: Result<(), ConfigError>)
        ensures
            r == match config_error(*self) {
                Some(e) => Err(e),
                None => Ok(()),
            },
    {
        if !(0 < self.agent_count && self.agent_count <= MAX_AGENTS) {
            Err(ConfigError::AgentCount)
        } else if !(0 < self.world_bounds && self.world_bounds <= MAX_COORD) {
            Err(ConfigError::WorldBounds)
        } else if !(0 < self.vision_radius.min && self.vision_radius.min <= self.vision_radius.max
            && self.vision_radius.max <= MAX_RADIUS) {
            Err(ConfigError::VisionRadius)
        } else if !(-SCALE <= self.vision_cos && self.vision_cos <= SCALE) {
            Err(ConfigError::FieldOfView)
        } else if !(0 <= self.speed.min && self.speed.min <= self.speed.max && self.speed.max
            <= MAX_SPEED) {
            Err(ConfigError::Speed)
        } else if !self.weights.is_valid() {
            Err(ConfigError::ForceWeights)
        } else {
            Ok(())
        }
    }

    /// The world of this configuration.
    pub fn world(&self) -> (w: World)
        ensures
            w.bounds == self.world_bounds,
            w.mode == self.boundary,
    {
        World { bounds: self.world_bounds, mode: self.boundary }
    }
}

impl Default for SimConfig {
    /// Four thousand agents in a world of half-width 200, seeing from 10 up
    /// to, not including, 30 units ahead and somewhat behind (cosine -0.3), moving at 10 to 20 units
    /// per second, every force of weight one, wrapping at the bounds.
    fn default() -> (c: SimConfig)
        ensures
            c.agent_count == 4000,
            c.world_bounds == 200 * SCALE,
            c.vision_radius.min == 10 * SCALE && c.vision_radius.max == 30 * SCALE - 1,
            c.vision_cos == -3000,
            c.speed.min == 10 * SCALE && c.speed.max == 20 * SCALE,
            c.boundary == BoundaryMode::Wrap,
            c.weights == (ForceWeights { separation: SCALE, alignment: SCALE, cohesion: SCALE }),
            config_error(c) is None,
    {
        SimConfig {
            agent_count: 4000,
            world_bounds: 200 * SCALE,
            vision_radius: ValueRange { min: 10 * SCALE, max: 30 * SCALE - 1 },
            vision_cos: -3000,
            speed: ValueRange { min: 10 * SCALE, max: 20 * SCALE },
            boundary: BoundaryMode::Wrap,
            weights: ForceWeights::unit(),
        }
    }
}

/// Relies on rand's `thread_rng().gen_range(low..=high)`: a value of the closed
/// range, which must not be empty.
#[verifier::external_body]
fn random_between(low: i64, high: i64) -> (r: i64)
    requires
        low <= high,
    ensures
        low <= r <= high,
{
    rand::thread_rng().gen_range(low..=high)
}

/// The agent that a configuration spawns from the given draw.
pub fn agent_from_draw(c: &SimConfig, d: AgentDraw) -> (a: Agent)
    requires
        config_error(*c) is None,
        draw_fits(*c, d),
    ensures
        a.position == d.position,
        a.heading@ == initial_heading(d.direction@),
        a.speed == d.speed,
        a.vision_radius == d.vision_radius,
        is_spawned(*c, a),
        a.wf(),
{
    let heading = if d.direction.x == 0 && d.direction.y == 0 && d.direction.z == 0 {
        assert(is_unit(forward()));
        Vec3 { x: 0, y: SCALE, z: 0 }
    } else {
        proof {
            lemma_normal_is_unit(d.direction@);
        }
        normalize(d.direction)
    };
    Agent::new(d.position, heading, d.speed, d.vision_radius, c.vision_cos, c.weights)
}

fn random_vector(bound: i64) -> (v: Vec3)
    requires
        bound >= 0,
    ensures
        within(v@, bound as int),
{
    Vec3 {
        x: random_between(-bound, bound),
        y: random_between(-bound, bound),
        z: random_between(-bound, bound),
    }
}

/// Random values for one agent of a valid configuration.
pub fn draw_agent(c: &SimConfig) -> (d: AgentDraw)
    requires
        config_error(*c) is None,
    ensures
        draw_fits(*c, d),
{
    AgentDraw {
        position: random_vector(c.world_bounds),
        direction: random_vector(SCALE),
        speed: random_between(c.speed.min, c.speed.max),
        vision_radius: random_between(c.vision_radius.min, c.vision_radius.max),
    }
}

/// A store of `agent_count` freshly spawned agents, or the reason the
/// configuration is refused.
pub fn spawn(c: &SimConfig) -> (r: Result<AgentStore, ConfigError>)
    ensures
        config_error(*c) matches Some(e) ==> r == Err::<AgentStore, ConfigError>(e),
        config_error(*c) is None ==> r is Ok,
        r matches Ok(s) ==> {
            &&& s@.len() == c.agent_count
            &&& s.world_spec() == (World { bounds: c.world_bounds, mode: c.boundary })
            &&& forall|i: int| 0 <= i < s@.len() ==> is_spawned(*c, #[trigger] s@[i])
        },
{
    match c.validate() {
        Err(e) => {
            return Err(e);
        },
        Ok(()) => {},
    }
    let mut agents: Vec<Agent> = Vec::new();
    let mut i: usize = 0;
    while i < c.agent_count
        invariant
            config_error(*c) is None,
            i <= c.agent_count,
            agents@.len() == i,
            forall|k: int| 0 <= k < i ==> agents@[k].wf() && is_spawned(*c, #[trigger] agents@[k]),
        decreases c.agent_count - i,
    {
        let d = draw_agent(c);
        agents.push(agent_from_draw(c, d));
        i += 1;
    }
    let world = c.world();
    match AgentStore::new(world, agents) {
        Some(s) => Ok(s),
        None => Err(ConfigError::AgentCount),
    }
}

} // verus!

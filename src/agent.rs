//! Per-agent state and the limits that keep its arithmetic in range.
use crate::vector::{is_unit, is_zero, within, Vec3, SCALE};
use vstd::prelude::*;

verus! {

/// Largest magnitude of a position component, in fixed-point units.
pub const MAX_COORD: i64 = 1_000_000_000_000;

/// Largest vision radius, in fixed-point units (500 world units).
pub const MAX_RADIUS: i64 = 5_000_000;

/// Largest movement speed, in fixed-point units per second.
pub const MAX_SPEED: i64 = 1_000_000_000_000;

/// Largest force weight; `SCALE` is a weight of one.
pub const MAX_WEIGHT: i64 = 1_000_000;

/// Largest number of agents in one store. Each neighbour pushes with a
/// component of at most `MAX_RADIUS * SCALE`; the sum over this many stays
/// within `vector::NORMALIZE_LIMIT`, the range in which a direction is exact.
pub const MAX_AGENTS: usize = 1_000_000;

/// How much an agent obeys each steering force; `SCALE` is a weight of one.
#[derive(Clone, Copy, Debug, PartialEq, Eq, Structural)]
pub struct ForceWeights {
    pub separation: i64,
    pub alignment: i64,
    pub cohesion: i64,
}

impl ForceWeights {
    pub open spec fn wf(self) -> bool {
        &&& 0 <= self.separation <= MAX_WEIGHT
        &&& 0 <= self.alignment <= MAX_WEIGHT
        &&& 0 <= self.cohesion <= MAX_WEIGHT
    }

    /// Every force counts once.
    pub fn unit() -> (w: ForceWeights)
        ensures
            w.separation == SCALE && w.alignment == SCALE && w.cohesion == SCALE,
            w.wf(),
    {
        ForceWeights { separation: SCALE, alignment: SCALE, cohesion: SCALE }
    }

    pub fn is_valid(&self) -> (r: bool)
        ensures
            r == self.wf(),
    {
        0 <= self.separation && self.separation <= MAX_WEIGHT && 0 <= self.alignment
            && self.alignment <= MAX_WEIGHT && 0 <= self.cohesion && self.cohesion <= MAX_WEIGHT
    }
}

/// One boid: where it is, where it heads, how it perceives, and the steering
/// forces of its last tick.
#[derive(Clone, Copy, Debug, PartialEq, Eq, Structural)]
pub struct Agent {
    pub position: Vec3,
    /// Direction of movement, of length `SCALE`.
    pub heading: Vec3,
    /// Fixed-point units per second.
    pub speed: i64,
    /// Largest distance at which a neighbour is seen.
    pub vision_radius: i64,
    /// Cosine of the half field of view, `SCALE` being one.
    pub vision_cos: i64,
    pub weights: ForceWeights,
    pub separation: Vec3,
    pub alignment: Vec3,
    pub cohesion: Vec3,
}

/// The state of one agent that every other agent may read during a tick.
#[derive(Clone, Copy, Debug, PartialEq, Eq, Structural)]
pub struct Sample {
    pub position: Vec3,
    pub heading: Vec3,
}

impl Agent {
    pub open spec fn wf(self) -> bool {
        &&& within(self.position@, MAX_COORD as int)
        &&& within(self.heading@, SCALE as int)
        &&& is_unit(self.heading@)
        &&& 0 <= self.speed <= MAX_SPEED
        &&& 0 < self.vision_radius <= MAX_RADIUS
        &&& -SCALE <= self.vision_cos <= SCALE
        &&& self.weights.wf()
        &&& within(self.separation@, SCALE as int)
        &&& within(self.alignment@, SCALE as int)
        &&& within(self.cohesion@, SCALE as int)
    }

    /// An agent that has not steered yet: no separation or cohesion force,
    /// and an alignment force along its own heading.
    pub fn new(
        position: Vec3,
        heading: Vec3,
        speed: i64,
        vision_radius: i64,
        vision_cos: i64,
        weights: ForceWeights,
    ) -> (a: Agent)
        ensures
            a.position == position,
            a.heading == heading,
            a.speed == speed,
            a.vision_radius == vision_radius,
            a.vision_cos == vision_cos,
            a.weights == weights,
            is_zero(a.separation@),
            is_zero(a.cohesion@),
            a.alignment == heading,
    {
        Agent {
            position,
            heading,
            speed,
            vision_radius,
            vision_cos,
            weights,
            separation: Vec3 { x: 0, y: 0, z: 0 },
            alignment: heading,
            cohesion: Vec3 { x: 0, y: 0, z: 0 },
        }
    }

    pub fn is_valid(&self) -> (r: bool)
        ensures
            r == self.wf(),
    {
        within_bound(self.position, MAX_COORD) && within_bound(self.heading, SCALE)
            && has_unit_length(self.heading) && 0 <= self.speed && self.speed <= MAX_SPEED && 0
            < self.vision_radius && self.vision_radius <= MAX_RADIUS && -SCALE <= self.vision_cos
            && self.vision_cos <= SCALE && self.weights.is_valid() && within_bound(
            self.separation,
            SCALE,
        ) && within_bound(self.alignment, SCALE) && within_bound(self.cohesion, SCALE)
    }

    /// What the other agents see of this one.
    pub fn sample(&self) -> (s: Sample)
        ensures
            s.position == self.position,
            s.heading == self.heading,
    {
        Sample { position: self.position, heading: self.heading }
    }
}

pub fn within_bound(v: Vec3, bound: i64) -> (r: bool)
    requires
        bound >= 0,
    ensures
        r == within(v@, bound as int),
{
    -bound <= v.x && v.x <= bound && -bound <= v.y && v.y <= bound && -bound <= v.z && v.z
        <= bound
}

fn has_unit_length(v: Vec3) -> (r: bool)
    requires
        within(v@, SCALE as int),
    ensures
        r == is_unit(v@),
{
    let x = v.x as i128;
    let y = v.y as i128;
    let z = v.z as i128;
    assert(x * x <= 100_000_000 && y * y <= 100_000_000 && z * z <= 100_000_000)
        by (nonlinear_arith)
        requires
            -10_000 <= x <= 10_000,
            -10_000 <= y <= 10_000,
            -10_000 <= z <= 10_000,
    ;
    assert(x * x >= 0 && y * y >= 0 && z * z >= 0) by (nonlinear_arith);
    let s = x * x + y * y + z * z;
    let low = ((SCALE - 4) * (SCALE - 4)) as i128;
    let high = (SCALE * SCALE) as i128;
    low <= s && s <= high
}

} // verus!

//! The integrator: blending the forces, turning the heading toward them,
//! moving, and the two boundary policies.
use crate::agent::{ForceWeights, MAX_COORD, MAX_SPEED, MAX_WEIGHT};
use crate::vector::{
    div_toward_zero, dot, is_unit, is_zero, lemma_normal_is_unit, lemma_trunc_div_bound,
    normal_of, normalize, trunc_div, within, Vec3, NORMALIZE_LIMIT, SCALE,
};
use vstd::prelude::*;

verus! {

/// What happens at the edge of the world.
#[derive(Clone, Copy, Debug, PartialEq, Eq, Structural)]
pub enum BoundaryMode {
    /// Agents beyond half the bounds are steered back inward.
    Reflect,
    /// Agents beyond the bounds reappear at the opposite face.
    Wrap,
}

/// The cube `-bounds ..= bounds` on each axis, and its boundary policy.
#[derive(Clone, Copy, Debug, PartialEq, Eq, Structural)]
pub struct World {
    pub bounds: i64,
    pub mode: BoundaryMode,
}

impl World {
    pub open spec fn wf(self) -> bool {
        0 < self.bounds <= MAX_COORD
    }

    pub fn is_valid(&self) -> (r: bool)
        ensures
            r == self.wf(),
    {
        0 < self.bounds && self.bounds <= MAX_COORD
    }
}

/// How far a coordinate lies beyond `-soft ..= soft`, pointing back inside.
pub open spec fn inward(c: int, soft: int) -> int {
    if c > soft {
        soft - c
    } else if c < -soft {
        -soft - c
    } else {
        0
    }
}

/// The reflecting policy's force: one world unit beyond half the bounds
/// weighs as much as a direction of weight one.
pub open spec fn boundary_force_of(p: (int, int, int), bounds: int) -> (int, int, int) {
    let soft = bounds / 2;
    (SCALE * inward(p.0, soft), SCALE * inward(p.1, soft), SCALE * inward(p.2, soft))
}

pub open spec fn weighted(w: int, v: (int, int, int)) -> (int, int, int) {
    (w * v.0, w * v.1, w * v.2)
}

/// The blended force: the weighted sum of the three directions, plus the
/// boundary force where the world reflects.
pub open spec fn steering_of(
    weights: ForceWeights,
    separation: (int, int, int),
    alignment: (int, int, int),
    cohesion: (int, int, int),
    position: (int, int, int),
    world: World,
) -> (int, int, int) {
    let s = weighted(weights.separation as int, separation);
    let a = weighted(weights.alignment as int, alignment);
    let c = weighted(weights.cohesion as int, cohesion);
    let b = if world.mode == BoundaryMode::Reflect {
        boundary_force_of(position, world.bounds as int)
    } else {
        (0, 0, 0)
    };
    (s.0 + a.0 + c.0 + b.0, s.1 + a.1 + c.1 + b.1, s.2 + a.2 + c.2 + b.2)
}

/// The share of the way to the target heading that `dt` milliseconds turn:
/// `dt` seconds, at most all of it, with `SCALE` for all.
pub open spec fn turn_fraction_of(dt: int) -> int {
    if dt >= 1000 {
        SCALE as int
    } else {
        dt * SCALE / 1000
    }
}

pub open spec fn cross(a: (int, int, int), b: (int, int, int)) -> (int, int, int) {
    (a.1 * b.2 - a.2 * b.1, a.2 * b.0 - a.0 * b.2, a.0 * b.1 - a.1 * b.0)
}

/// `f` points the same way as `h`.
pub open spec fn same_direction(f: (int, int, int), h: (int, int, int)) -> bool {
    is_zero(cross(f, h)) && dot(f, h) > 0
}

/// A direction square to `h`, for turning away from a force straight behind.
pub open spec fn side_of(h: (int, int, int)) -> (int, int, int) {
    if h.0 == 0 && h.1 == 0 {
        (h.2, 0, 0)
    } else {
        (-h.1, h.0, 0)
    }
}

/// `a * p + b * q`, component by component.
pub open spec fn mix(a: (int, int, int), p: int, b: (int, int, int), q: int) -> (int, int, int) {
    (a.0 * p + b.0 * q, a.1 * p + b.1 * q, a.2 * p + b.2 * q)
}

/// The unnormalized heading part of the way, `t` out of `SCALE`, from `h` to
/// the direction of `f`: the blend `h * (SCALE - t) + target * t`. A force
/// straight against `h` has no shortest arc; the turn then goes through the
/// side of `h`, from `h` to the side in the first half and from the side to
/// the target in the second.
pub open spec fn turn_blend(h: (int, int, int), f: (int, int, int), t: int) -> (int, int, int) {
    let g = normal_of(f);
    let half = SCALE / 2;
    if is_zero(cross(f, h)) {
        let s = normal_of(side_of(h));
        if t <= half {
            mix(h, half - t, s, t)
        } else {
            mix(s, SCALE - t, g, t - half)
        }
    } else {
        mix(h, SCALE - t, g, t)
    }
}

/// The heading after turning from `h` toward force `f` by the share `t` of
/// `SCALE`: the normalized `turn_blend`, along the great arc to the target,
/// and the target itself at the full share. No force, no time, or a force
/// along `h` leaves `h` as it is, and so does a blend that cancels out.
pub open spec fn next_heading_of(h: (int, int, int), f: (int, int, int), t: int) -> (int, int, int) {
    if t == 0 || is_zero(f) || same_direction(f, h) {
        h
    } else if t >= SCALE {
        normal_of(f)
    } else {
        let m = turn_blend(h, f, t);
        if is_zero(m) {
            h
        } else {
            normal_of(m)
        }
    }
}

pub open spec fn clamp(c: int, m: int) -> int {
    if c > m {
        m
    } else if c < -m {
        -m
    } else {
        c
    }
}

/// One coordinate after moving along heading component `h` at `speed` for
/// `dt` milliseconds, rounded toward zero, held within the coordinate range.
pub open spec fn moved_coord(c: int, h: int, speed: int, dt: int) -> int {
    let step = trunc_div(h * speed * dt, SCALE * 1000);
    clamp(c + step, MAX_COORD as int)
}

pub open spec fn moved_of(p: (int, int, int), h: (int, int, int), speed: int, dt: int) -> (int, int, int) {
    (moved_coord(p.0, h.0, speed, dt), moved_coord(p.1, h.1, speed, dt), moved_coord(p.2, h.2, speed, dt))
}

/// A coordinate beyond `bounds` goes to `-bounds`, one beyond `-bounds` to `bounds`.
pub open spec fn wrap_coord(c: int, bounds: int) -> int {
    if c > bounds {
        -bounds
    } else if c < -bounds {
        bounds
    } else {
        c
    }
}

pub open spec fn wrapped_of(p: (int, int, int), bounds: int) -> (int, int, int) {
    (wrap_coord(p.0, bounds), wrap_coord(p.1, bounds), wrap_coord(p.2, bounds))
}

fn inward_push(c: i64, soft: i64) -> (r: i64)
    requires
        -MAX_COORD <= c <= MAX_COORD,
        0 <= soft <= MAX_COORD,
    ensures
        r == inward(c as int, soft as int),
        -2 * MAX_COORD <= r <= 2 * MAX_COORD,
{
    if c > soft {
        soft - c
    } else if c < -soft {
        -soft - c
    } else {
        0
    }
}

/// The reflecting policy's force on an agent at `p`.
pub fn boundary_force(p: Vec3, bounds: i64) -> (f: Vec3)
    requires
        within(p@, MAX_COORD as int),
        0 < bounds <= MAX_COORD,
    ensures
        f@ == boundary_force_of(p@, bounds as int),
        within(f@, 2 * SCALE * MAX_COORD),
{
    let soft = bounds / 2;
    let x = inward_push(p.x, soft);
    let y = inward_push(p.y, soft);
    let z = inward_push(p.z, soft);
    Vec3 { x: SCALE * x, y: SCALE * y, z: SCALE * z }
}

fn weighted_part(w: i64, c: i64) -> (r: i64)
    requires
        0 <= w <= MAX_WEIGHT,
        -SCALE <= c <= SCALE,
    ensures
        r == w * c,
        -MAX_WEIGHT * SCALE <= r <= MAX_WEIGHT * SCALE,
{
    assert(-MAX_WEIGHT * SCALE <= w * c <= MAX_WEIGHT * SCALE) by (nonlinear_arith)
        requires
            0 <= w <= 1_000_000,
            -10_000 <= c <= 10_000,
            MAX_WEIGHT == 1_000_000,
            SCALE == 10_000,
    ;
    w * c
}

/// The blended force on an agent.
pub fn steering_force(
    weights: ForceWeights,
    separation: Vec3,
    alignment: Vec3,
    cohesion: Vec3,
    position: Vec3,
    world: World,
) -> (f: Vec3)
    requires
        weights.wf(),
        within(separation@, SCALE as int),
        within(alignment@, SCALE as int),
        within(cohesion@, SCALE as int),
        within(position@, MAX_COORD as int),
        world.wf(),
    ensures
        f@ == steering_of(weights, separation@, alignment@, cohesion@, position@, world),
        within(f@, NORMALIZE_LIMIT as int),
{
    let b = match world.mode {
        BoundaryMode::Reflect => boundary_force(position, world.bounds),
        BoundaryMode::Wrap => Vec3 { x: 0, y: 0, z: 0 },
    };
    let x = weighted_part(weights.separation, separation.x) + weighted_part(
        weights.alignment,
        alignment.x,
    ) + weighted_part(weights.cohesion, cohesion.x) + b.x;
    let y = weighted_part(weights.separation, separation.y) + weighted_part(
        weights.alignment,
        alignment.y,
    ) + weighted_part(weights.cohesion, cohesion.y) + b.y;
    let z = weighted_part(weights.separation, separation.z) + weighted_part(
        weights.alignment,
        alignment.z,
    ) + weighted_part(weights.cohesion, cohesion.z) + b.z;
    Vec3 { x, y, z }
}

/// The share of a full turn that `dt` milliseconds allow.
pub fn turn_fraction(dt: u32) -> (t: i64)
    ensures
        t == turn_fraction_of(dt as int),
        0 <= t <= SCALE,
        dt == 0 ==> t == 0,
{
    if dt >= 1000 {
        SCALE
    } else {
        (dt as i64) * SCALE / 1000
    }
}

/// The heading after turning from `h` toward force `f` by the share `t`.
pub fn next_heading(h: Vec3, f: Vec3, t: i64) -> (r: Vec3)
    requires
        within(h@, SCALE as int),
        is_unit(h@),
        within(f@, NORMALIZE_LIMIT as int),
        0 <= t <= SCALE,
    ensures
        r@ == next_heading_of(h@, f@, t as int),
        within(r@, SCALE as int),
        r == h || is_unit(r@),
        t == SCALE && !is_zero(f@) && !same_direction(f@, h@) ==> r@ == normal_of(f@),
{
    if t == 0 || (f.x == 0 && f.y == 0 && f.z == 0) {
        return h;
    }
    let (fx, fy, fz) = (f.x as i128, f.y as i128, f.z as i128);
    let (hx, hy, hz) = (h.x as i128, h.y as i128, h.z as i128);
    proof {
        assert(-720_576_000_000_000_000_000 <= fx * hx <= 720_576_000_000_000_000_000
            && -720_576_000_000_000_000_000 <= fx * hy <= 720_576_000_000_000_000_000
            && -720_576_000_000_000_000_000 <= fx * hz <= 720_576_000_000_000_000_000
            && -720_576_000_000_000_000_000 <= fy * hx <= 720_576_000_000_000_000_000
            && -720_576_000_000_000_000_000 <= fy * hy <= 720_576_000_000_000_000_000
            && -720_576_000_000_000_000_000 <= fy * hz <= 720_576_000_000_000_000_000
            && -720_576_000_000_000_000_000 <= fz * hx <= 720_576_000_000_000_000_000
            && -720_576_000_000_000_000_000 <= fz * hy <= 720_576_000_000_000_000_000
            && -720_576_000_000_000_000_000 <= fz * hz <= 720_576_000_000_000_000_000)
            by (nonlinear_arith)
            requires
                -72_057_594_037_927_936 <= fx <= 72_057_594_037_927_936,
                -72_057_594_037_927_936 <= fy <= 72_057_594_037_927_936,
                -72_057_594_037_927_936 <= fz <= 72_057_594_037_927_936,
                -10_000 <= hx <= 10_000,
                -10_000 <= hy <= 10_000,
                -10_000 <= hz <= 10_000,
        ;
    }
    let cx = fy * hz - fz * hy;
    let cy = fz * hx - fx * hz;
    let cz = fx * hy - fy * hx;
    let d = fx * hx + fy * hy + fz * hz;
    if cx == 0 && cy == 0 && cz == 0 && d > 0 {
        return h;
    }
    if t == SCALE {
        proof {
            lemma_normal_is_unit(f@);
        }
        return normalize(f);
    }
    let g = normalize(f);
    let half = SCALE / 2;
    let m = if cx == 0 && cy == 0 && cz == 0 {
        let side = if h.x == 0 && h.y == 0 {
            Vec3 { x: h.z, y: 0, z: 0 }
        } else {
            Vec3 { x: -h.y, y: h.x, z: 0 }
        };
        proof {
            if h.x == 0 && h.y == 0 && h.z == 0 {
                assert(crate::vector::sq_len(h@) == 0);
            }
        }
        let s = normalize(side);
        if t <= half {
            blend(h, half - t, s, t)
        } else {
            blend(s, SCALE - t, g, t - half)
        }
    } else {
        blend(h, SCALE - t, g, t)
    };
    if m.x == 0 && m.y == 0 && m.z == 0 {
        return h;
    }
    proof {
        lemma_normal_is_unit(m@);
    }
    normalize(m)
}

/// `a * p + b * q` for two directions and two shares.
fn blend(a: Vec3, p: i64, b: Vec3, q: i64) -> (m: Vec3)
    requires
        within(a@, SCALE as int),
        within(b@, SCALE as int),
        0 <= p <= SCALE,
        0 <= q <= SCALE,
    ensures
        m@ == mix(a@, p as int, b@, q as int),
        within(m@, 200_000_000),
{
    proof {
        assert(-100_000_000 <= a.x * p <= 100_000_000 && -100_000_000 <= a.y * p <= 100_000_000
            && -100_000_000 <= a.z * p <= 100_000_000 && -100_000_000 <= b.x * q <= 100_000_000
            && -100_000_000 <= b.y * q <= 100_000_000 && -100_000_000 <= b.z * q <= 100_000_000)
            by (nonlinear_arith)
            requires
                within(a@, 10_000),
                within(b@, 10_000),
                0 <= p <= 10_000,
                0 <= q <= 10_000,
        ;
    }
    Vec3 { x: a.x * p + b.x * q, y: a.y * p + b.y * q, z: a.z * p + b.z * q }
}

fn moved_part(c: i64, h: i64, speed: i64, dt: u32) -> (r: i64)
    requires
        -MAX_COORD <= c <= MAX_COORD,
        -SCALE <= h <= SCALE,
        0 <= speed <= MAX_SPEED,
    ensures
        r == moved_coord(c as int, h as int, speed as int, dt as int),
        -MAX_COORD <= r <= MAX_COORD,
{
    let hv = h as i128;
    let sv = speed as i128;
    let tv = dt as i128;
    assert(-10_000_000_000_000_000 <= hv * sv <= 10_000_000_000_000_000) by (nonlinear_arith)
        requires
            -10_000 <= hv <= 10_000,
            0 <= sv <= 1_000_000_000_000,
    ;
    assert(-100_000_000_000_000_000_000_000_000 <= hv * sv * tv
        <= 100_000_000_000_000_000_000_000_000) by (nonlinear_arith)
        requires
            -10_000_000_000_000_000 <= hv * sv <= 10_000_000_000_000_000,
            0 <= tv <= 0xffff_ffff,
    ;
    let step = div_toward_zero(hv * sv * tv, 10_000_000);
    proof {
        lemma_trunc_div_bound(hv * sv * tv, 10_000_000, 10_000_000_000_000_000_000);
    }
    let moved = c as i128 + step;
    if moved > MAX_COORD as i128 {
        MAX_COORD
    } else if moved < -(MAX_COORD as i128) {
        -MAX_COORD
    } else {
        moved as i64
    }
}

/// Where an agent at `p` heading along `h` at `speed` is after `dt` milliseconds.
pub fn moved(p: Vec3, h: Vec3, speed: i64, dt: u32) -> (r: Vec3)
    requires
        within(p@, MAX_COORD as int),
        within(h@, SCALE as int),
        0 <= speed <= MAX_SPEED,
    ensures
        r@ == moved_of(p@, h@, speed as int, dt as int),
        within(r@, MAX_COORD as int),
{
    Vec3 {
        x: moved_part(p.x, h.x, speed, dt),
        y: moved_part(p.y, h.y, speed, dt),
        z: moved_part(p.z, h.z, speed, dt),
    }
}

/// The wrapping policy on one coordinate: past one face, onto the other.
pub fn wrap_axis(c: i64, bounds: i64) -> (r: i64)
    requires
        bounds > 0,
    ensures
        r == wrap_coord(c as int, bounds as int),
        c > bounds ==> r == -bounds,
        c < -bounds ==> r == bounds,
        -bounds <= c <= bounds ==> r == c,
{
    if c > bounds {
        -bounds
    } else if c < -bounds {
        bounds
    } else {
        c
    }
}

/// The wrapping policy on a position, each axis on its own.
pub fn wrap_position(p: Vec3, bounds: i64) -> (r: Vec3)
    requires
        bounds > 0,
    ensures
        r@ == wrapped_of(p@, bounds as int),
        within(r@, bounds as int),
{
    Vec3 { x: wrap_axis(p.x, bounds), y: wrap_axis(p.y, bounds), z: wrap_axis(p.z, bounds) }
}

} // verus!

//! The three steering forces, each computed for one agent from a snapshot.
//!
//! Each force is a direction of length `SCALE`. Where the sum it is drawn
//! from vanishes, separation and cohesion keep their value of the last tick
//! and alignment takes the agent's own heading.
use crate::agent::{Agent, Sample, MAX_COORD, MAX_RADIUS};
use crate::perception::{perceives, snapshot_ok, visible_count, visible_indices};
use crate::vector::{
    div_toward_zero, is_zero, lemma_trunc_div_bound, minus, normal_of, normalize, plus, sq_len,
    trunc_div, within, Vec3, SCALE,
};
use vstd::prelude::*;

verus! {

/// The push that a neighbour at `other` gives an agent at `me` that sees as
/// far as `r`: the unit direction away from the neighbour, times
/// `r / distance`, in fixed point (`d * r * SCALE / |d|^2`, `d = me - other`).
pub open spec fn repulsion(me: (int, int, int), other: (int, int, int), r: int) -> (int, int, int) {
    let d = minus(me, other);
    let q = sq_len(d);
    (
        trunc_div(d.0 * (r * SCALE), q),
        trunc_div(d.1 * (r * SCALE), q),
        trunc_div(d.2 * (r * SCALE), q),
    )
}

/// Sum of the pushes of the neighbours among the first `n` samples.
pub open spec fn repulsion_sum(a: Agent, snap: Seq<Sample>, n: int) -> (int, int, int)
    decreases n,
{
    if n <= 0 {
        (0, 0, 0)
    } else {
        let s = repulsion_sum(a, snap, n - 1);
        let o = snap[n - 1].position@;
        if perceives(a, o) {
            plus(s, repulsion(a.position@, o, a.vision_radius as int))
        } else {
            s
        }
    }
}

/// Sum of the headings of the neighbours among the first `n` samples.
pub open spec fn heading_sum(a: Agent, snap: Seq<Sample>, n: int) -> (int, int, int)
    decreases n,
{
    if n <= 0 {
        (0, 0, 0)
    } else {
        let s = heading_sum(a, snap, n - 1);
        if perceives(a, snap[n - 1].position@) {
            plus(s, snap[n - 1].heading@)
        } else {
            s
        }
    }
}

/// Sum of the positions of the neighbours among the first `n` samples.
pub open spec fn position_sum(a: Agent, snap: Seq<Sample>, n: int) -> (int, int, int)
    decreases n,
{
    if n <= 0 {
        (0, 0, 0)
    } else {
        let s = position_sum(a, snap, n - 1);
        if perceives(a, snap[n - 1].position@) {
            plus(s, snap[n - 1].position@)
        } else {
            s
        }
    }
}

pub open spec fn separation_of(a: Agent, snap: Seq<Sample>) -> (int, int, int) {
    let v = repulsion_sum(a, snap, snap.len() as int);
    if is_zero(v) {
        a.separation@
    } else {
        normal_of(v)
    }
}

pub open spec fn alignment_of(a: Agent, snap: Seq<Sample>) -> (int, int, int) {
    let v = heading_sum(a, snap, snap.len() as int);
    if is_zero(v) {
        a.heading@
    } else {
        normal_of(v)
    }
}

/// Sum of the offsets from the agent to the neighbours among the first `n`
/// samples: the neighbour count times the offset to their mean position.
pub open spec fn offset_sum(a: Agent, snap: Seq<Sample>, n: int) -> (int, int, int)
    decreases n,
{
    if n <= 0 {
        (0, 0, 0)
    } else {
        let s = offset_sum(a, snap, n - 1);
        let o = snap[n - 1].position@;
        if perceives(a, o) {
            plus(s, minus(o, a.position@))
        } else {
            s
        }
    }
}

/// The offset sum is the sum of the neighbours' positions less the agent's
/// position once per neighbour, so it points from the agent to the exact
/// mean of the neighbours' positions.
pub proof fn lemma_offset_sum_is_to_mean(a: Agent, snap: Seq<Sample>, n: int)
    ensures
        ({
            let s = position_sum(a, snap, n);
            let k = visible_indices(a, snap, n).len() as int;
            let p = a.position@;
            offset_sum(a, snap, n) == (s.0 - k * p.0, s.1 - k * p.1, s.2 - k * p.2)
        }),
    decreases n,
{
    if n > 0 {
        lemma_offset_sum_is_to_mean(a, snap, n - 1);
        let k = visible_indices(a, snap, n - 1).len() as int;
        let p = a.position@;
        assert((k + 1) * p.0 == k * p.0 + p.0 && (k + 1) * p.1 == k * p.1 + p.1 && (k + 1) * p.2
            == k * p.2 + p.2) by (nonlinear_arith);
    }
}

/// Cohesion: the direction of the offset sum, which is that of the neighbours'
/// mean position seen from the agent. It depends on relative positions only.
pub open spec fn cohesion_of(a: Agent, snap: Seq<Sample>) -> (int, int, int) {
    if visible_count(a, snap) == 0 {
        a.cohesion@
    } else {
        let v = offset_sum(a, snap, snap.len() as int);
        if is_zero(v) {
            a.cohesion@
        } else {
            normal_of(v)
        }
    }
}

/// Where the viewer sees none of the first `n` samples, the three sums are zero.
pub proof fn lemma_unseen_sums(a: Agent, snap: Seq<Sample>, n: int)
    requires
        visible_indices(a, snap, n).len() == 0,
    ensures
        repulsion_sum(a, snap, n) == (0int, 0int, 0int),
        heading_sum(a, snap, n) == (0int, 0int, 0int),
        position_sum(a, snap, n) == (0int, 0int, 0int),
        offset_sum(a, snap, n) == (0int, 0int, 0int),
    decreases n,
{
    if n > 0 {
        lemma_unseen_sums(a, snap, n - 1);
    }
}

proof fn lemma_component_push(di: int, q: int, k: int)
    requires
        q > 0,
        di * di <= q,
        k >= 0,
    ensures
        -(k * q) <= di * k <= k * q,
{
    assert(-di <= di * di && di <= di * di) by (nonlinear_arith);
    assert(-(k * q) <= di * k <= k * q) by (nonlinear_arith)
        requires
            -q <= di <= q,
            k >= 0,
    ;
}

fn repulsion_term(me: Vec3, other: Vec3, r: i64) -> (t: (i128, i128, i128))
    requires
        within(me@, MAX_COORD as int),
        within(other@, MAX_COORD as int),
        0 < sq_len(minus(other@, me@)),
        0 < r <= MAX_RADIUS,
    ensures
        (t.0 as int, t.1 as int, t.2 as int) == repulsion(me@, other@, r as int),
        within((t.0 as int, t.1 as int, t.2 as int), r * SCALE),
{
    let dx = me.x as i128 - other.x as i128;
    let dy = me.y as i128 - other.y as i128;
    let dz = me.z as i128 - other.z as i128;
    assert(r * SCALE <= 50_000_000_000) by (nonlinear_arith)
        requires
            0 < r <= 5_000_000,
            SCALE == 10_000,
    ;
    let k = r as i128 * SCALE as i128;
    proof {
        let e = minus(other@, me@);
        assert(sq_len(e) == dx * dx + dy * dy + dz * dz) by (nonlinear_arith)
            requires
                e.0 == -dx,
                e.1 == -dy,
                e.2 == -dz,
        ;
        assert(0 <= dx * dx <= 4_000_000_000_000_000_000_000_000 && 0 <= dy * dy
            <= 4_000_000_000_000_000_000_000_000 && 0 <= dz * dz
            <= 4_000_000_000_000_000_000_000_000) by (nonlinear_arith)
            requires
                -2_000_000_000_000 <= dx <= 2_000_000_000_000,
                -2_000_000_000_000 <= dy <= 2_000_000_000_000,
                -2_000_000_000_000 <= dz <= 2_000_000_000_000,
        ;
        assert(-2_000_000_000_000_000_000_000_000 <= dx * k <= 2_000_000_000_000_000_000_000_000
            && -2_000_000_000_000_000_000_000_000 <= dy * k <= 2_000_000_000_000_000_000_000_000
            && -2_000_000_000_000_000_000_000_000 <= dz * k <= 2_000_000_000_000_000_000_000_000)
            by (nonlinear_arith)
            requires
                -2_000_000_000_000 <= dx <= 2_000_000_000_000,
                -2_000_000_000_000 <= dy <= 2_000_000_000_000,
                -2_000_000_000_000 <= dz <= 2_000_000_000_000,
                0 < k <= 1_000_000_000_000,
        ;
    }
    let q = dx * dx + dy * dy + dz * dz;
    proof {
        let qi = q as int;
        assert(dx * dx >= 0 && dy * dy >= 0 && dz * dz >= 0) by (nonlinear_arith);
        lemma_component_push(dx as int, qi, k as int);
        lemma_component_push(dy as int, qi, k as int);
        lemma_component_push(dz as int, qi, k as int);
        lemma_trunc_div_bound(dx * k, qi, k as int);
        lemma_trunc_div_bound(dy * k, qi, k as int);
        lemma_trunc_div_bound(dz * k, qi, k as int);
    }
    (div_toward_zero(dx * k, q), div_toward_zero(dy * k, q), div_toward_zero(dz * k, q))
}

/// Separation: the normalized sum of the pushes of the visible neighbours.
pub fn separation_force(a: &Agent, snap: &Vec<Sample>) -> (f: Vec3)
    requires
        a.wf(),
        snapshot_ok(snap@),
    ensures
        f@ == separation_of(*a, snap@),
        within(f@, SCALE as int),
        visible_count(*a, snap@) == 0 ==> f == a.separation,
{
    let ghost k = a.vision_radius * SCALE;
    let mut sx: i128 = 0;
    let mut sy: i128 = 0;
    let mut sz: i128 = 0;
    let mut j: usize = 0;
    while j < snap.len()
        invariant
            a.wf(),
            snapshot_ok(snap@),
            j <= snap@.len(),
            k == a.vision_radius * SCALE,
            (sx as int, sy as int, sz as int) == repulsion_sum(*a, snap@, j as int),
            within((sx as int, sy as int, sz as int), j * k),
        decreases snap@.len() - j,
    {
        let o = snap[j].position;
        assert(within(snap@[j as int].position@, MAX_COORD as int));
        assert((j + 1) * k == j * k + k) by (nonlinear_arith);
        assert(j * k <= 1_000_000 * 50_000_000_000) by (nonlinear_arith)
            requires
                j <= 1_000_000,
                0 <= k <= 50_000_000_000,
        ;
        if a.perceives(o) {
            let t = repulsion_term(a.position, o, a.vision_radius);
            sx = sx + t.0;
            sy = sy + t.1;
            sz = sz + t.2;
        }
        j += 1;
    }
    assert(j * k <= 1_000_000 * 50_000_000_000) by (nonlinear_arith)
        requires
            j <= 1_000_000,
            0 <= k <= 50_000_000_000,
    ;
    proof {
        if visible_count(*a, snap@) == 0 {
            lemma_unseen_sums(*a, snap@, snap@.len() as int);
        }
    }
    if sx == 0 && sy == 0 && sz == 0 {
        a.separation
    } else {
        normalize(Vec3 { x: sx as i64, y: sy as i64, z: sz as i64 })
    }
}

/// Alignment: the normalized sum of the headings of the visible neighbours.
pub fn alignment_force(a: &Agent, snap: &Vec<Sample>) -> (f: Vec3)
    requires
        a.wf(),
        snapshot_ok(snap@),
    ensures
        f@ == alignment_of(*a, snap@),
        within(f@, SCALE as int),
        visible_count(*a, snap@) == 0 ==> f == a.heading,
{
    let mut sx: i64 = 0;
    let mut sy: i64 = 0;
    let mut sz: i64 = 0;
    let mut j: usize = 0;
    while j < snap.len()
        invariant
            a.wf(),
            snapshot_ok(snap@),
            j <= snap@.len(),
            (sx as int, sy as int, sz as int) == heading_sum(*a, snap@, j as int),
            within((sx as int, sy as int, sz as int), j * SCALE),
        decreases snap@.len() - j,
    {
        let s = snap[j];
        assert(within(snap@[j as int].position@, MAX_COORD as int));
        if a.perceives(s.position) {
            sx = sx + s.heading.x;
            sy = sy + s.heading.y;
            sz = sz + s.heading.z;
        }
        j += 1;
    }
    proof {
        if visible_count(*a, snap@) == 0 {
            lemma_unseen_sums(*a, snap@, snap@.len() as int);
        }
    }
    if sx == 0 && sy == 0 && sz == 0 {
        a.heading
    } else {
        normalize(Vec3 { x: sx, y: sy, z: sz })
    }
}

proof fn lemma_offset_within_radius(d: (int, int, int), r: int)
    requires
        r > 0,
        sq_len(d) <= r * r,
    ensures
        within(d, r),
{
    assert(d.0 * d.0 >= 0 && d.1 * d.1 >= 0 && d.2 * d.2 >= 0) by (nonlinear_arith);
    assert(-r <= d.0 <= r) by (nonlinear_arith)
        requires
            d.0 * d.0 <= r * r,
            r > 0,
    ;
    assert(-r <= d.1 <= r) by (nonlinear_arith)
        requires
            d.1 * d.1 <= r * r,
            r > 0,
    ;
    assert(-r <= d.2 <= r) by (nonlinear_arith)
        requires
            d.2 * d.2 <= r * r,
            r > 0,
    ;
}

/// Cohesion: the direction from the agent to the mean position of the
/// visible neighbours.
pub fn cohesion_force(a: &Agent, snap: &Vec<Sample>) -> (f: Vec3)
    requires
        a.wf(),
        snapshot_ok(snap@),
    ensures
        f@ == cohesion_of(*a, snap@),
        within(f@, SCALE as int),
        visible_count(*a, snap@) == 0 ==> f == a.cohesion,
{
    let ghost r = a.vision_radius as int;
    let mut sx: i64 = 0;
    let mut sy: i64 = 0;
    let mut sz: i64 = 0;
    let mut n: usize = 0;
    let mut j: usize = 0;
    while j < snap.len()
        invariant
            a.wf(),
            snapshot_ok(snap@),
            r == a.vision_radius,
            j <= snap@.len(),
            (sx as int, sy as int, sz as int) == offset_sum(*a, snap@, j as int),
            n == visible_indices(*a, snap@, j as int).len(),
            n <= j,
            within((sx as int, sy as int, sz as int), n * r),
        decreases snap@.len() - j,
    {
        let o = snap[j].position;
        assert(within(snap@[j as int].position@, MAX_COORD as int));
        assert((n + 1) * r == n * r + r) by (nonlinear_arith);
        assert(n * r <= 1_000_000 * 5_000_000) by (nonlinear_arith)
            requires
                n <= 1_000_000,
                0 < r <= 5_000_000,
        ;
        if a.perceives(o) {
            proof {
                lemma_offset_within_radius(minus(o@, a.position@), r);
            }
            sx = sx + (o.x - a.position.x);
            sy = sy + (o.y - a.position.y);
            sz = sz + (o.z - a.position.z);
            n = n + 1;
        }
        j += 1;
    }
    proof {
        if visible_count(*a, snap@) == 0 {
            lemma_unseen_sums(*a, snap@, snap@.len() as int);
        }
    }
    if n == 0 || (sx == 0 && sy == 0 && sz == 0) {
        a.cohesion
    } else {
        assert(n * r <= 1_000_000 * 5_000_000) by (nonlinear_arith)
            requires
                n <= 1_000_000,
                0 < r <= 5_000_000,
        ;
        normalize(Vec3 { x: sx, y: sy, z: sz })
    }
}

} // verus!

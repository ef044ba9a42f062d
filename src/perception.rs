//! Which agents of a snapshot an agent can see.
use crate::agent::{Agent, Sample, MAX_AGENTS, MAX_COORD, MAX_RADIUS};
use crate::vector::{dot, minus, sq_len, within, Vec3, SCALE};
use vstd::prelude::*;

verus! {

/// `p > c * sqrt(q)`, decided on integers, for `q >= 0`.
pub open spec fn exceeds_cosine(p: int, c: int, q: int) -> bool {
    if c >= 0 {
        p > 0 && p * p > c * c * q
    } else {
        p >= 0 || p * p < c * c * q
    }
}

/// The viewer sees a point that lies at a non-zero distance of at most its
/// vision radius, and whose direction makes with the viewer's heading an
/// angle whose cosine exceeds `vision_cos`: `heading . offset / |offset| > vision_cos`.
pub open spec fn perceives(viewer: Agent, other: (int, int, int)) -> bool {
    let d = minus(other, viewer.position@);
    let q = sq_len(d);
    &&& 0 < q <= viewer.vision_radius * viewer.vision_radius
    &&& exceeds_cosine(dot(viewer.heading@, d), viewer.vision_cos as int, q)
}

/// Every position and heading of the snapshot lies in the agents' ranges.
pub open spec fn snapshot_ok(snap: Seq<Sample>) -> bool {
    &&& snap.len() <= MAX_AGENTS
    &&& forall|j: int|
        0 <= j < snap.len() ==> within(#[trigger] snap[j].position@, MAX_COORD as int)
            && within(snap[j].heading@, SCALE as int)
}

/// The indices, in order, of the first `n` samples that the viewer sees.
pub open spec fn visible_indices(viewer: Agent, snap: Seq<Sample>, n: int) -> Seq<int>
    decreases n,
{
    if n <= 0 {
        seq![]
    } else {
        let before = visible_indices(viewer, snap, n - 1);
        if perceives(viewer, snap[n - 1].position@) {
            before.push(n - 1)
        } else {
            before
        }
    }
}

pub open spec fn visible_count(viewer: Agent, snap: Seq<Sample>) -> int {
    visible_indices(viewer, snap, snap.len() as int).len() as int
}

proof fn lemma_products_fit(d: (int, int, int), h: (int, int, int), c: int, r: int)
    requires
        within(d, 2 * MAX_COORD as int),
        within(h, SCALE as int),
        -SCALE <= c <= SCALE,
        0 < r <= MAX_RADIUS,
    ensures
        0 <= d.0 * d.0 <= 4_000_000_000_000_000_000_000_000,
        0 <= d.1 * d.1 <= 4_000_000_000_000_000_000_000_000,
        0 <= d.2 * d.2 <= 4_000_000_000_000_000_000_000_000,
        -20_000_000_000_000_000 <= h.0 * d.0 <= 20_000_000_000_000_000,
        -20_000_000_000_000_000 <= h.1 * d.1 <= 20_000_000_000_000_000,
        -20_000_000_000_000_000 <= h.2 * d.2 <= 20_000_000_000_000_000,
        0 <= sq_len(d) <= 12_000_000_000_000_000_000_000_000,
        -60_000_000_000_000_000 <= dot(h, d) <= 60_000_000_000_000_000,
        0 <= dot(h, d) * dot(h, d) <= 3_600_000_000_000_000_000_000_000_000_000_000,
        0 <= c * c * sq_len(d) <= 1_200_000_000_000_000_000_000_000_000_000_000,
        r * r <= 10_000_000_000_000_000,
        0 <= c * c <= 100_000_000,
{
    assert(0 <= c * c <= 100_000_000) by (nonlinear_arith)
        requires
            -10_000 <= c <= 10_000,
    ;
    assert(0 <= d.0 * d.0 <= 4_000_000_000_000_000_000_000_000 && 0 <= d.1 * d.1
        <= 4_000_000_000_000_000_000_000_000 && 0 <= d.2 * d.2
        <= 4_000_000_000_000_000_000_000_000) by (nonlinear_arith)
        requires
            within(d, 2_000_000_000_000),
    ;
    assert(-20_000_000_000_000_000 <= h.0 * d.0 <= 20_000_000_000_000_000
        && -20_000_000_000_000_000 <= h.1 * d.1 <= 20_000_000_000_000_000
        && -20_000_000_000_000_000 <= h.2 * d.2 <= 20_000_000_000_000_000) by (nonlinear_arith)
        requires
            within(d, 2_000_000_000_000),
            within(h, 10_000),
    ;
    let p = dot(h, d);
    assert(0 <= p * p <= 3_600_000_000_000_000_000_000_000_000_000_000) by (nonlinear_arith)
        requires
            -60_000_000_000_000_000 <= p <= 60_000_000_000_000_000,
    ;
    let q = sq_len(d);
    assert(0 <= c * c * q <= 1_200_000_000_000_000_000_000_000_000_000_000) by (nonlinear_arith)
        requires
            -10_000 <= c <= 10_000,
            0 <= q <= 12_000_000_000_000_000_000_000_000,
    ;
    assert(r * r <= 10_000_000_000_000_000) by (nonlinear_arith)
        requires
            0 < r <= 100_000_000,
    ;
}

pub open spec fn negated(v: (int, int, int)) -> (int, int, int) {
    (-v.0, -v.1, -v.2)
}

/// An agent never sees a point at its own position.
pub proof fn lemma_own_position_unseen(viewer: Agent)
    ensures
        !perceives(viewer, viewer.position@),
{
}

/// Two agents with opposite headings and the same vision see each other or
/// neither.
pub proof fn lemma_opposite_headings_mutual(a: Agent, b: Agent)
    requires
        a.heading@ == negated(b.heading@),
        a.vision_radius == b.vision_radius,
        a.vision_cos == b.vision_cos,
    ensures
        perceives(a, b.position@) == perceives(b, a.position@),
{
    let d = minus(b.position@, a.position@);
    let e = minus(a.position@, b.position@);
    assert(sq_len(e) == sq_len(d)) by (nonlinear_arith)
        requires
            e == negated(d),
    ;
    assert(dot(b.heading@, e) == dot(a.heading@, d)) by (nonlinear_arith)
        requires
            e == negated(d),
            a.heading@ == negated(b.heading@),
    ;
}

/// Two agents with the same heading and a field of view no wider than a
/// half-space cannot both see each other: one of them is behind the other.
pub proof fn lemma_same_heading_one_way(a: Agent, b: Agent)
    requires
        a.heading == b.heading,
        a.vision_cos >= 0,
        b.vision_cos >= 0,
    ensures
        !(perceives(a, b.position@) && perceives(b, a.position@)),
{
    let d = minus(b.position@, a.position@);
    let e = minus(a.position@, b.position@);
    assert(dot(b.heading@, e) == -dot(a.heading@, d)) by (nonlinear_arith)
        requires
            e == negated(d),
            a.heading@ == b.heading@,
    ;
}

impl Agent {
    /// Whether this agent sees a point of the world.
    pub fn perceives(&self, other: Vec3) -> (r: bool)
        requires
            self.wf(),
            within(other@, MAX_COORD as int),
        ensures
            r == perceives(*self, other@),
    {
        let dx = other.x as i128 - self.position.x as i128;
        let dy = other.y as i128 - self.position.y as i128;
        let dz = other.z as i128 - self.position.z as i128;
        let hx = self.heading.x as i128;
        let hy = self.heading.y as i128;
        let hz = self.heading.z as i128;
        let c = self.vision_cos as i128;
        let r = self.vision_radius as i128;
        proof {
            lemma_products_fit((dx as int, dy as int, dz as int), self.heading@, c as int, r as int);
        }
        let q = dx * dx + dy * dy + dz * dz;
        if q <= 0 || q > r * r {
            return false;
        }
        let p = hx * dx + hy * dy + hz * dz;
        if c >= 0 {
            p > 0 && p * p > c * c * q
        } else {
            p >= 0 || p * p < c * c * q
        }
    }
}

/// The perception filter: the indices, in order, of the samples that the
/// viewer sees.
pub fn neighbors(viewer: &Agent, snap: &Vec<Sample>) -> (r: Vec<usize>)
    requires
        viewer.wf(),
        snapshot_ok(snap@),
    ensures
        r@.len() == visible_count(*viewer, snap@),
        forall|k: int|
            0 <= k < r@.len() ==> r@[k] as int == #[trigger] visible_indices(
                *viewer,
                snap@,
                snap@.len() as int,
            )[k],
{
    let mut r: Vec<usize> = Vec::new();
    let mut j: usize = 0;
    while j < snap.len()
        invariant
            viewer.wf(),
            snapshot_ok(snap@),
            j <= snap@.len(),
            r@.len() == visible_indices(*viewer, snap@, j as int).len(),
            forall|k: int|
                0 <= k < r@.len() ==> r@[k] as int == #[trigger] visible_indices(
                    *viewer,
                    snap@,
                    j as int,
                )[k],
        decreases snap@.len() - j,
    {
        assert(within(snap@[j as int].position@, MAX_COORD as int));
        if viewer.perceives(snap[j].position) {
            r.push(j);
        }
        j += 1;
    }
    r
}

} // verus!

//! The agent store and the tick: snapshot, forces, integration, boundary.
use crate::agent::{Agent, Sample, MAX_AGENTS, MAX_COORD};
use crate::forces::{
    lemma_unseen_sums, alignment_force, alignment_of, cohesion_force, cohesion_of, separation_force, separation_of,
};
use crate::motion::{
    cross, moved, moved_of, next_heading, next_heading_of, steering_force, steering_of, turn_fraction,
    turn_fraction_of, wrap_position, wrapped_of, BoundaryMode, World,
};
use crate::perception::{snapshot_ok, visible_count};
use crate::vector::{dot, is_unit, is_zero, lemma_normal_is_unit, trunc_div, within};
use vstd::prelude::*;

verus! {

/// The positions and headings of all agents, in store order.
pub open spec fn snapshot_of(agents: Seq<Agent>) -> Seq<Sample> {
    Seq::new(agents.len(), |i: int| Sample { position: agents[i].position, heading: agents[i].heading })
}

/// `new` is `old` after one tick of `dt` milliseconds in `world`, every force
/// read from `snap`.
pub open spec fn is_step(old: Agent, new: Agent, snap: Seq<Sample>, world: World, dt: int) -> bool {
    let s = separation_of(old, snap);
    let a = alignment_of(old, snap);
    let c = cohesion_of(old, snap);
    let f = steering_of(old.weights, s, a, c, old.position@, world);
    let h = next_heading_of(old.heading@, f, turn_fraction_of(dt));
    let p = moved_of(old.position@, h, old.speed as int, dt);
    &&& new.separation@ == s
    &&& new.alignment@ == a
    &&& new.cohesion@ == c
    &&& new.heading@ == h
    &&& new.position@ == if world.mode == BoundaryMode::Wrap {
        wrapped_of(p, world.bounds as int)
    } else {
        p
    }
    &&& new.speed == old.speed
    &&& new.vision_radius == old.vision_radius
    &&& new.vision_cos == old.vision_cos
    &&& new.weights == old.weights
}

/// Turning never leaves a direction: from a unit heading, the next heading
/// is a unit heading too, whatever the force and the time.
pub proof fn lemma_heading_stays_unit(h: (int, int, int), f: (int, int, int), t: int)
    requires
        is_unit(h),
    ensures
        is_unit(next_heading_of(h, f, t)),
{
    let r = next_heading_of(h, f, t);
    if r != h {
        if t >= crate::vector::SCALE {
            lemma_normal_is_unit(f);
        } else {
            lemma_normal_is_unit(crate::motion::turn_blend(h, f, t));
        }
    }
}

/// A tick of no time keeps every agent where it is and as it heads, as long
/// as a wrapping world holds it within its bounds.
pub proof fn lemma_idle_tick(old: Agent, new: Agent, snap: Seq<Sample>, world: World)
    requires
        old.wf(),
        world.wf(),
        world.mode == BoundaryMode::Wrap ==> within(old.position@, world.bounds as int),
        is_step(old, new, snap, world, 0),
    ensures
        new.position == old.position,
        new.heading == old.heading,
{
    assert(turn_fraction_of(0) == 0);
    assert(trunc_div(0, 10_000_000) == 0);
}

/// In a wrapping world, each coordinate that the move carries past a face of
/// the cube ends the tick on the opposite face, whatever the other coordinates do.
pub proof fn lemma_wrap_tick(old: Agent, new: Agent, snap: Seq<Sample>, world: World, dt: int)
    requires
        world.wf(),
        world.mode == BoundaryMode::Wrap,
        is_step(old, new, snap, world, dt),
    ensures
        ({
            let s = separation_of(old, snap);
            let a = alignment_of(old, snap);
            let c = cohesion_of(old, snap);
            let f = steering_of(old.weights, s, a, c, old.position@, world);
            let h = next_heading_of(old.heading@, f, turn_fraction_of(dt));
            let p = moved_of(old.position@, h, old.speed as int, dt);
            let b = world.bounds as int;
            &&& p.0 > b ==> new.position.x == -b
            &&& p.0 < -b ==> new.position.x == b
            &&& p.1 > b ==> new.position.y == -b
            &&& p.1 < -b ==> new.position.y == b
            &&& p.2 > b ==> new.position.z == -b
            &&& p.2 < -b ==> new.position.z == b
            &&& within(new.position@, b)
        }),
{
}

/// An agent that sees no one and has no separation or cohesion force keeps
/// both at zero and keeps its heading through a tick, as long as no boundary
/// force acts on it: the world wraps, or the agent is within half the bounds.
pub proof fn lemma_isolated_agent(old: Agent, new: Agent, snap: Seq<Sample>, world: World, dt: int)
    requires
        old.wf(),
        world.wf(),
        visible_count(old, snap) == 0,
        is_zero(old.separation@),
        is_zero(old.cohesion@),
        world.mode == BoundaryMode::Reflect ==> within(old.position@, world.bounds / 2),
        is_step(old, new, snap, world, dt),
    ensures
        is_zero(new.separation@),
        is_zero(new.cohesion@),
        new.heading == old.heading,
{
    lemma_unseen_sums(old, snap, snap.len() as int);
    let h = old.heading@;
    let w = old.weights.alignment as int;
    let ws = old.weights.separation as int;
    let wc = old.weights.cohesion as int;
    assert(ws * 0 == 0 && wc * 0 == 0) by (nonlinear_arith);
    let f = steering_of(old.weights, separation_of(old, snap), alignment_of(old, snap), cohesion_of(old, snap), old.position@, world);
    assert(f == (w * h.0, w * h.1, w * h.2));
    if w != 0 {
        assert(is_zero(cross(f, h))) by (nonlinear_arith)
            requires
                f == (w * h.0, w * h.1, w * h.2),
        ;
        assert(dot(f, h) > 0) by (nonlinear_arith)
            requires
                f == (w * h.0, w * h.1, w * h.2),
                w > 0,
                h.0 * h.0 + h.1 * h.1 + h.2 * h.2 > 0,
        ;
    } else {
        assert(is_zero(f)) by (nonlinear_arith)
            requires
                f == (w * h.0, w * h.1, w * h.2),
                w == 0,
        ;
    }
}

/// One tick of one agent.
fn step_agent(a: &Agent, snap: &Vec<Sample>, world: World, dt: u32) -> (r: Agent)
    requires
        a.wf(),
        snapshot_ok(snap@),
        world.wf(),
    ensures
        is_step(*a, r, snap@, world, dt as int),
        r.wf(),
{
    let s = separation_force(a, snap);
    let al = alignment_force(a, snap);
    let c = cohesion_force(a, snap);
    let f = steering_force(a.weights, s, al, c, a.position, world);
    let h = next_heading(a.heading, f, turn_fraction(dt));
    let p = moved(a.position, h, a.speed, dt);
    let position = match world.mode {
        BoundaryMode::Wrap => wrap_position(p, world.bounds),
        BoundaryMode::Reflect => p,
    };
    Agent { position, heading: h, separation: s, alignment: al, cohesion: c, ..*a }
}

/// All agents of a simulation, and the world they live in.
pub struct AgentStore {
    world: World,
    agents: Vec<Agent>,
}

impl View for AgentStore {
    type V = Seq<Agent>;

    closed spec fn view(&self) -> Seq<Agent> {
        self.agents@
    }
}

impl AgentStore {
    #[verifier::type_invariant]
    closed spec fn inv(self) -> bool {
        &&& self.world.wf()
        &&& self.agents@.len() <= MAX_AGENTS
        &&& forall|i: int| 0 <= i < self.agents@.len() ==> #[trigger] self.agents@[i].wf()
    }

    pub closed spec fn world_spec(self) -> World {
        self.world
    }

    /// A store of the given agents, where the world and every agent are valid
    /// and there are not too many agents.
    pub fn new(world: World, agents: Vec<Agent>) -> (r: Option<AgentStore>)
        ensures
            r.is_some() <==> world.wf() && agents@.len() <= MAX_AGENTS && forall|i: int|
                0 <= i < agents@.len() ==> #[trigger] agents@[i].wf(),
            r matches Some(s) ==> s@ == agents@ && s.world_spec() == world,
    {
        if !world.is_valid() || agents.len() > MAX_AGENTS {
            return None;
        }
        let mut i: usize = 0;
        while i < agents.len()
            invariant
                i <= agents@.len(),
                forall|k: int| 0 <= k < i ==> #[trigger] agents@[k].wf(),
            decreases agents@.len() - i,
        {
            if !agents[i].is_valid() {
                return None;
            }
            i += 1;
        }
        Some(AgentStore { world, agents })
    }

    pub fn len(&self) -> (n: usize)
        ensures
            n == self@.len(),
    {
        self.agents.len()
    }

    pub fn world(&self) -> (w: World)
        ensures
            w == self.world_spec(),
            w.wf(),
    {
        proof {
            use_type_invariant(self);
        }
        self.world
    }

    /// The agent at index `i`, if there is one.
    pub fn agent(&self, i: usize) -> (r: Option<Agent>)
        ensures
            i < self@.len() ==> r == Some(self@[i as int]),
            i >= self@.len() ==> r is None,
            r matches Some(a) ==> a.wf(),
    {
        proof {
            use_type_invariant(self);
        }
        if i < self.agents.len() {
            Some(self.agents[i])
        } else {
            None
        }
    }

    /// The snapshot builder: the position and heading of every agent, in order.
    pub fn snapshot(&self) -> (snap: Vec<Sample>)
        ensures
            snap@ == snapshot_of(self@),
            snapshot_ok(snap@),
    {
        proof {
            use_type_invariant(self);
        }
        let mut snap: Vec<Sample> = Vec::new();
        let mut i: usize = 0;
        while i < self.agents.len()
            invariant
                i <= self.agents@.len(),
                self.agents@.len() <= MAX_AGENTS,
                forall|k: int| 0 <= k < self.agents@.len() ==> #[trigger] self.agents@[k].wf(),
                snap@ =~= snapshot_of(self.agents@).take(i as int),
            decreases self.agents@.len() - i,
        {
            snap.push(self.agents[i].sample());
            i += 1;
        }
        assert(snap@ =~= snapshot_of(self.agents@));
        assert forall|j: int| 0 <= j < snap@.len() implies within(
            #[trigger] snap@[j].position@,
            MAX_COORD as int,
        ) && within(snap@[j].heading@, crate::vector::SCALE as int) by {
            assert(self.agents@[j].wf());
        }
        snap
    }

    /// One tick of `dt` milliseconds: every agent steers by the snapshot taken
    /// before any of them moved, then turns, moves, and meets the boundary.
    pub fn advance(&mut self, dt: u32)
        ensures
            final(self)@.len() == old(self)@.len(),
            final(self).world_spec() == old(self).world_spec(),
            forall|i: int|
                0 <= i < old(self)@.len() ==> is_step(
                    old(self)@[i],
                    #[trigger] final(self)@[i],
                    snapshot_of(old(self)@),
                    old(self).world_spec(),
                    dt as int,
                ),
            forall|i: int| 0 <= i < final(self)@.len() ==> is_unit(#[trigger] final(self)@[i].heading@),
            dt == 0 && (old(self).world_spec().mode == BoundaryMode::Wrap ==> forall|i: int|
                0 <= i < old(self)@.len() ==> within(
                    #[trigger] old(self)@[i].position@,
                    old(self).world_spec().bounds as int,
                )) ==> forall|i: int|
                0 <= i < old(self)@.len() ==> #[trigger] final(self)@[i].position == old(
                    self,
                )@[i].position && final(self)@[i].heading == old(self)@[i].heading,
    {
        proof {
            use_type_invariant(&*self);
        }
        let snap = self.snapshot();
        let world = self.world;
        let mut next: Vec<Agent> = Vec::new();
        let mut i: usize = 0;
        while i < self.agents.len()
            invariant
                i <= self.agents@.len(),
                self.agents@.len() <= MAX_AGENTS,
                world.wf(),
                snapshot_ok(snap@),
                forall|k: int| 0 <= k < self.agents@.len() ==> #[trigger] self.agents@[k].wf(),
                next@.len() == i,
                forall|k: int|
                    0 <= k < i ==> is_step(
                        self.agents@[k],
                        #[trigger] next@[k],
                        snap@,
                        world,
                        dt as int,
                    ) && next@[k].wf(),
            decreases self.agents@.len() - i,
        {
            let r = step_agent(&self.agents[i], &snap, world, dt);
            next.push(r);
            i += 1;
        }
        proof {
            assert forall|k: int| 0 <= k < next@.len() implies is_unit(#[trigger] next@[k].heading@) by {
                assert(next@[k].wf());
            }
            if dt == 0 && (world.mode == BoundaryMode::Wrap ==> forall|k: int|
                0 <= k < self.agents@.len() ==> within(
                    #[trigger] self.agents@[k].position@,
                    world.bounds as int,
                )) {
                assert forall|k: int| 0 <= k < next@.len() implies #[trigger] next@[k].position
                    == self.agents@[k].position && next@[k].heading == self.agents@[k].heading by {
                    assert(self.agents@[k].wf());
                    if world.mode == BoundaryMode::Wrap {
                        assert(within(self.agents@[k].position@, world.bounds as int));
                    }
                    lemma_idle_tick(self.agents@[k], next@[k], snap@, world);
                }
            }
        }
        self.agents = next;
    }
}

} // verus!

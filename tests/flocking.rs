use boids::agent::{Agent, ForceWeights, Sample};
use boids::config::{agent_from_draw, spawn, AgentDraw, ConfigError, SimConfig, ValueRange};
use boids::forces::{alignment_force, cohesion_force, separation_force};
use boids::motion::{
    boundary_force, moved, next_heading, steering_force, turn_fraction, wrap_axis, wrap_position,
    BoundaryMode, World,
};
use boids::perception::neighbors;
use boids::store::AgentStore;
use boids::vector::{isqrt, normalize, Vec3, SCALE};

const U: i64 = SCALE;

fn v(x: i64, y: i64, z: i64) -> Vec3 {
    Vec3 { x, y, z }
}

fn agent_at(position: Vec3, heading: Vec3, radius: i64, cos: i64) -> Agent {
    Agent::new(position, heading, 10 * U, radius, cos, ForceWeights::unit())
}

fn samples(agents: &[Agent]) -> Vec<Sample> {
    agents.iter().map(|a| a.sample()).collect()
}

fn sq_len(v: Vec3) -> i128 {
    let (x, y, z) = (v.x as i128, v.y as i128, v.z as i128);
    x * x + y * y + z * z
}

fn is_unit(v: Vec3) -> bool {
    let s = sq_len(v);
    let low = ((U - 4) * (U - 4)) as i128;
    let high = (U * U) as i128;
    low <= s && s <= high
}

#[test]
fn normalize_axis_vectors() {
    assert_eq!(normalize(v(3, 0, 0)), v(U, 0, 0));
    assert_eq!(normalize(v(0, -5, 0)), v(0, -U, 0));
    assert_eq!(normalize(v(0, 0, 123_456_789)), v(0, 0, U));
}

#[test]
fn normalize_truncates_toward_zero() {
    assert_eq!(normalize(v(3, 4, 0)), v(6000, 8000, 0));
    assert_eq!(normalize(v(1, 1, 0)), v(7071, 7071, 0));
    assert_eq!(normalize(v(-1, 1, 0)), v(-7071, 7071, 0));
    assert!(is_unit(normalize(v(1, 1, 1))));
}

#[test]
fn normalize_large_components() {
    let limit: i64 = 1 << 56;
    assert_eq!(normalize(v(limit, 0, 0)), v(U, 0, 0));
    let n = normalize(v(limit, -limit, limit));
    assert!(is_unit(n));
    assert_eq!(n, v(5773, -5773, 5773));
}

#[test]
fn integer_square_roots() {
    assert_eq!(isqrt(0), 0);
    assert_eq!(isqrt(15), 3);
    assert_eq!(isqrt(16), 4);
    assert_eq!(isqrt(100_000_000), 10_000);
    assert_eq!(isqrt(50_000_000), 7071);
}

#[test]
fn coincident_agents_do_not_see_each_other() {
    let a = agent_at(v(0, 0, 0), v(U, 0, 0), 5 * U, -U);
    let b = agent_at(v(0, 0, 0), v(U, 0, 0), 5 * U, -U);
    assert!(!a.perceives(b.position));
    assert!(!b.perceives(a.position));
}

#[test]
fn narrow_view_with_opposite_headings() {
    // Back to back: neither sees the other.
    let a = agent_at(v(0, 0, 0), v(-U, 0, 0), 5 * U, 9_900);
    let b = agent_at(v(U, 0, 0), v(U, 0, 0), 5 * U, 9_900);
    assert!(!a.perceives(b.position));
    assert!(!b.perceives(a.position));
    // Face to face: both see.
    let c = agent_at(v(0, 0, 0), v(U, 0, 0), 5 * U, 9_900);
    let d = agent_at(v(U, 0, 0), v(-U, 0, 0), 5 * U, 9_900);
    assert!(c.perceives(d.position));
    assert!(d.perceives(c.position));
}

#[test]
fn narrow_view_with_identical_headings() {
    let a = agent_at(v(0, 0, 0), v(U, 0, 0), 5 * U, 9_900);
    let b = agent_at(v(U, 0, 0), v(U, 0, 0), 5 * U, 9_900);
    assert!(a.perceives(b.position));
    assert!(!b.perceives(a.position));
}

#[test]
fn perception_respects_radius_and_cone() {
    let a = agent_at(v(0, 0, 0), v(U, 0, 0), 5 * U, 0);
    assert!(a.perceives(v(5 * U, 0, 0)));
    assert!(!a.perceives(v(5 * U + 1, 0, 0)));
    // Exactly sideways: the cosine is zero, which does not exceed zero.
    assert!(!a.perceives(v(0, U, 0)));
    assert!(a.perceives(v(1, U, 0)));
    let omni = agent_at(v(0, 0, 0), v(U, 0, 0), 5 * U, -U);
    assert!(omni.perceives(v(0, U, 0)));
    assert!(omni.perceives(v(-U, 1, 0)));
}

#[test]
fn neighbor_indices_in_order() {
    let agents = [
        agent_at(v(0, 0, 0), v(U, 0, 0), 5 * U, -U),
        agent_at(v(2 * U, 0, 0), v(U, 0, 0), 5 * U, -U),
        agent_at(v(50 * U, 0, 0), v(U, 0, 0), 5 * U, -U),
        agent_at(v(0, -3 * U, 0), v(U, 0, 0), 5 * U, -U),
    ];
    let snap = samples(&agents);
    assert_eq!(neighbors(&agents[0], &snap), vec![1, 3]);
    assert_eq!(neighbors(&agents[2], &snap), Vec::<usize>::new());
}

#[test]
fn separation_points_away_from_neighbor() {
    let a = agent_at(v(0, 0, 0), v(U, 0, 0), 5 * U, -U);
    let b = agent_at(v(U, 0, 0), v(U, 0, 0), 5 * U, -U);
    let snap = samples(&[a, b]);
    assert_eq!(separation_force(&a, &snap), v(-U, 0, 0));
    // Straight behind is outside even the widest field of view.
    assert_eq!(separation_force(&b, &snap), v(0, 0, 0));
}

#[test]
fn separation_favours_closer_neighbors() {
    let a = agent_at(v(0, 0, 0), v(U, 0, 0), 10 * U, -U);
    let near = agent_at(v(U, 0, 0), v(U, 0, 0), 10 * U, -U);
    let far = agent_at(v(0, 4 * U, 0), v(U, 0, 0), 10 * U, -U);
    let snap = samples(&[a, near, far]);
    let f = separation_force(&a, &snap);
    assert!(f.x < 0 && f.y < 0);
    assert!(-f.x > -f.y * 3);
}

#[test]
fn forces_without_neighbors_keep_previous_values() {
    let mut a = agent_at(v(0, 0, 0), v(0, U, 0), 5 * U, -U);
    a.separation = v(U, 0, 0);
    a.cohesion = v(0, 0, -U);
    a.alignment = v(-U, 0, 0);
    let far = agent_at(v(100 * U, 0, 0), v(U, 0, 0), 5 * U, -U);
    let snap = samples(&[a, far]);
    assert_eq!(separation_force(&a, &snap), v(U, 0, 0));
    assert_eq!(cohesion_force(&a, &snap), v(0, 0, -U));
    assert_eq!(alignment_force(&a, &snap), v(0, U, 0));
}

#[test]
fn alignment_follows_neighbor_headings() {
    let a = agent_at(v(0, 0, 0), v(U, 0, 0), 5 * U, -U);
    let b = agent_at(v(U, 0, 0), v(0, U, 0), 5 * U, -U);
    let c = agent_at(v(0, -U, 0), v(0, 0, U), 5 * U, -U);
    assert_eq!(alignment_force(&a, &samples(&[a, b])), v(0, U, 0));
    assert_eq!(alignment_force(&a, &samples(&[a, b, c])), v(0, 7071, 7071));
}

#[test]
fn cohesion_points_to_centroid() {
    let a = agent_at(v(0, 0, 0), v(U, 0, 0), 5 * U, -U);
    let b = agent_at(v(2 * U, 0, 0), v(U, 0, 0), 5 * U, -U);
    let c = agent_at(v(4 * U, 0, 0), v(U, 0, 0), 5 * U, -U);
    assert_eq!(cohesion_force(&a, &samples(&[a, b, c])), v(U, 0, 0));
    let d = agent_at(v(0, 0, 3 * U), v(U, 0, 0), 5 * U, -U);
    assert_eq!(cohesion_force(&a, &samples(&[a, b, d])), v(5547, 0, 8320));
}

#[test]
fn cohesion_aims_at_exact_mean() {
    let a = agent_at(v(0, 0, 0), v(U, 0, 0), 5 * U, -U);
    let b = agent_at(v(-1, 10, 0), v(U, 0, 0), 5 * U, -U);
    let c = agent_at(v(0, 10, 0), v(U, 0, 0), 5 * U, -U);
    // The mean (-0.5, 10, 0) lies slightly to the -x side.
    assert_eq!(cohesion_force(&a, &samples(&[a, b, c])), v(-499, 9987, 0));
}

#[test]
fn cohesion_ignores_a_common_shift() {
    let shift = v(1, 0, 0);
    let base = [v(0, 0, 0), v(-1, 10, 0), v(0, 10, 0)];
    let make = |d: Vec3| -> Vec<Agent> {
        base.iter()
            .map(|p| agent_at(v(p.x + d.x, p.y + d.y, p.z + d.z), v(U, 0, 0), 5 * U, -U))
            .collect()
    };
    let plain = make(v(0, 0, 0));
    let moved_flock = make(shift);
    let far = make(v(-123_456_789, 987_654, 31));
    let f = cohesion_force(&plain[0], &samples(&plain));
    assert_eq!(cohesion_force(&moved_flock[0], &samples(&moved_flock)), f);
    assert_eq!(cohesion_force(&far[0], &samples(&far)), f);
}

#[test]
fn store_accepts_large_flocks() {
    let world = World { bounds: 200 * U, mode: BoundaryMode::Wrap };
    let a = agent_at(v(0, 0, 0), v(U, 0, 0), 5 * U, -U);
    assert!(AgentStore::new(world, vec![a; 100_000]).is_some());
    assert!(AgentStore::new(world, vec![a; 1_000_001]).is_none());
    let c = SimConfig { agent_count: 1_000_000, ..SimConfig::default() };
    assert_eq!(c.validate(), Ok(()));
}

#[test]
fn boundary_force_pushes_inward() {
    assert_eq!(boundary_force(v(150 * U, 0, -120 * U), 200 * U), v(-50 * U * U, 0, 20 * U * U));
    assert_eq!(boundary_force(v(100 * U, -100 * U, 0), 200 * U), v(0, 0, 0));
}

#[test]
fn steering_blends_weighted_forces() {
    let w = ForceWeights { separation: 2 * U, alignment: U, cohesion: 0 };
    let wrap = World { bounds: 200 * U, mode: BoundaryMode::Wrap };
    let f = steering_force(w, v(U, 0, 0), v(0, U, 0), v(0, 0, U), v(150 * U, 0, 0), wrap);
    assert_eq!(f, v(2 * U * U, U * U, 0));
    let reflect = World { bounds: 200 * U, mode: BoundaryMode::Reflect };
    let g = steering_force(w, v(U, 0, 0), v(0, U, 0), v(0, 0, U), v(150 * U, 0, 0), reflect);
    assert_eq!(g, v(2 * U * U - 50 * U * U, U * U, 0));
}

#[test]
fn turn_fraction_values() {
    assert_eq!(turn_fraction(0), 0);
    assert_eq!(turn_fraction(16), 160);
    assert_eq!(turn_fraction(999), 9_990);
    assert_eq!(turn_fraction(1000), U);
    assert_eq!(turn_fraction(5000), U);
}

#[test]
fn heading_turns_toward_force() {
    let h = v(U, 0, 0);
    assert_eq!(next_heading(h, v(0, 5, 0), U), v(0, U, 0));
    assert_eq!(next_heading(h, v(0, 5, 0), U / 2), v(7071, 7071, 0));
    assert_eq!(next_heading(h, v(0, 5, 0), 0), h);
    assert_eq!(next_heading(h, v(0, 0, 0), U), h);
    assert_eq!(next_heading(h, v(7, 0, 0), U), h);
    // Straight behind: the turn passes the side half way, and ends on the force.
    assert_eq!(next_heading(h, v(-3, 0, 0), U / 4), v(7071, 7071, 0));
    assert_eq!(next_heading(h, v(-3, 0, 0), U / 2), v(0, U, 0));
    assert_eq!(next_heading(h, v(-3, 0, 0), 3 * U / 4), v(-7071, 7071, 0));
    assert_eq!(next_heading(h, v(-3, 0, 0), U), v(-U, 0, 0));
    assert_eq!(next_heading(v(0, 0, U), v(0, 0, -3), U), v(0, 0, -U));
    assert!(is_unit(next_heading(h, v(-3, 1, 0), 160)));
}

#[test]
fn full_turn_reaches_an_opposite_force() {
    let world = World { bounds: 200 * U, mode: BoundaryMode::Wrap };
    let mut a = agent_at(v(0, 0, 0), v(0, U, 0), 5 * U, -U);
    a.weights = ForceWeights { separation: 0, alignment: 0, cohesion: U };
    a.cohesion = v(0, -U, 0);
    assert_eq!(next_heading(v(0, U, 0), v(0, -U, 0), turn_fraction(1000)), v(0, -U, 0));
    let mut store = AgentStore::new(world, vec![a]).unwrap();
    store.advance(1000);
    assert_eq!(store.agent(0).unwrap().heading, v(0, -U, 0));
}

#[test]
fn movement_along_heading() {
    assert_eq!(moved(v(0, 0, 0), v(U, 0, 0), 10 * U, 1000), v(10 * U, 0, 0));
    assert_eq!(moved(v(5, 5, 5), v(6000, -8000, 0), 10 * U, 500), v(5 + 3 * U, 5 - 4 * U, 5));
    assert_eq!(moved(v(0, 0, 0), v(U, 0, 0), 10 * U, 0), v(0, 0, 0));
    let limit = 1_000_000_000_000;
    assert_eq!(moved(v(limit, 0, 0), v(U, 0, 0), 10 * U, 1000), v(limit, 0, 0));
}

#[test]
fn wrap_each_axis_independently() {
    let b = 200 * U;
    assert_eq!(wrap_axis(b + 1, b), -b);
    assert_eq!(wrap_axis(-b - 1, b), b);
    assert_eq!(wrap_axis(b, b), b);
    assert_eq!(wrap_axis(-5, b), -5);
    assert_eq!(wrap_position(v(b + 7, 3, -b - 2), b), v(-b, 3, b));
}

#[test]
fn store_rejects_invalid_input() {
    let world = World { bounds: 200 * U, mode: BoundaryMode::Wrap };
    let good = agent_at(v(0, 0, 0), v(U, 0, 0), 5 * U, -U);
    assert!(AgentStore::new(world, vec![good]).is_some());
    let no_heading = agent_at(v(0, 0, 0), v(0, 0, 0), 5 * U, -U);
    assert!(AgentStore::new(world, vec![good, no_heading]).is_none());
    let blind = agent_at(v(0, 0, 0), v(U, 0, 0), 0, -U);
    assert!(AgentStore::new(world, vec![blind]).is_none());
    let flat = World { bounds: 0, mode: BoundaryMode::Wrap };
    assert!(AgentStore::new(flat, vec![good]).is_none());
}

#[test]
fn isolated_agent_keeps_heading() {
    let world = World { bounds: 200 * U, mode: BoundaryMode::Wrap };
    let a = agent_at(v(0, 0, 0), v(0, 6000, 8000), 5 * U, -U);
    let far = agent_at(v(100 * U, 0, 0), v(U, 0, 0), 5 * U, -U);
    let mut store = AgentStore::new(world, vec![a, far]).unwrap();
    store.advance(16);
    let after = store.agent(0).unwrap();
    assert_eq!(after.heading, v(0, 6000, 8000));
    assert_eq!(after.separation, v(0, 0, 0));
    assert_eq!(after.cohesion, v(0, 0, 0));
    assert_eq!(after.position, v(0, 960, 1280));
}

#[test]
fn separation_scenario_through_a_tick() {
    let world = World { bounds: 200 * U, mode: BoundaryMode::Wrap };
    let a = agent_at(v(0, 0, 0), v(U, 0, 0), 5 * U, -U);
    let b = agent_at(v(U, 0, 0), v(U, 0, 0), 5 * U, -U);
    let mut store = AgentStore::new(world, vec![a, b]).unwrap();
    store.advance(16);
    assert_eq!(store.agent(0).unwrap().separation, v(-U, 0, 0));
    // The neighbour ahead does not see the one straight behind it.
    assert_eq!(store.agent(1).unwrap().separation, v(0, 0, 0));
}

#[test]
fn wrap_scenario_through_a_tick() {
    let b = 200 * U;
    let world = World { bounds: b, mode: BoundaryMode::Wrap };
    let a = agent_at(v(b + U, 0, 0), v(U, 0, 0), 5 * U, -U);
    let mut store = AgentStore::new(world, vec![a]).unwrap();
    store.advance(16);
    let after = store.agent(0).unwrap();
    assert_eq!(after.position.x, -b);
    assert_eq!(after.position.y, 0);
    assert_eq!(after.position.z, 0);
}

#[test]
fn zero_time_tick_changes_no_pose() {
    let world = World { bounds: 200 * U, mode: BoundaryMode::Wrap };
    let agents = vec![
        agent_at(v(0, 0, 0), v(U, 0, 0), 5 * U, -U),
        agent_at(v(U, U, 0), v(0, U, 0), 5 * U, -U),
        agent_at(v(-U, 2 * U, U), v(0, 0, -U), 5 * U, -3000),
    ];
    let mut store = AgentStore::new(world, agents.clone()).unwrap();
    store.advance(0);
    for (i, before) in agents.iter().enumerate() {
        let after = store.agent(i).unwrap();
        assert_eq!(after.position, before.position);
        assert_eq!(after.heading, before.heading);
    }
}

#[test]
fn headings_stay_unit_over_many_ticks() {
    let world = World { bounds: 20 * U, mode: BoundaryMode::Reflect };
    let mut agents = Vec::new();
    for i in 0..12i64 {
        let h = normalize(v(i - 6, 7 - i, 3));
        agents.push(agent_at(v(i * U, (i % 3) * U, -(i % 4) * U), h, 8 * U, -3000));
    }
    let mut store = AgentStore::new(world, agents).unwrap();
    for _ in 0..200 {
        store.advance(16);
        for i in 0..store.len() {
            assert!(is_unit(store.agent(i).unwrap().heading));
        }
    }
}

#[test]
fn reflecting_world_turns_agents_back() {
    let world = World { bounds: 20 * U, mode: BoundaryMode::Reflect };
    let a = agent_at(v(15 * U, 0, 0), v(U, 0, 0), 5 * U, -U);
    let mut store = AgentStore::new(world, vec![a]).unwrap();
    store.advance(100);
    let after = store.agent(0).unwrap();
    assert!(after.heading.x < U);
    assert!(is_unit(after.heading));
}

#[test]
fn config_errors_each_rule() {
    let ok = SimConfig::default();
    assert_eq!(ok.validate(), Ok(()));
    assert_eq!(SimConfig { agent_count: 0, ..ok }.validate(), Err(ConfigError::AgentCount));
    assert_eq!(SimConfig { agent_count: 1_000_001, ..ok }.validate(), Err(ConfigError::AgentCount));
    assert_eq!(SimConfig { world_bounds: 0, ..ok }.validate(), Err(ConfigError::WorldBounds));
    let empty = ValueRange { min: 5, max: 4 };
    assert_eq!(SimConfig { vision_radius: empty, ..ok }.validate(), Err(ConfigError::VisionRadius));
    let zero = ValueRange { min: 0, max: 4 };
    assert_eq!(SimConfig { vision_radius: zero, ..ok }.validate(), Err(ConfigError::VisionRadius));
    assert_eq!(SimConfig { vision_cos: U + 1, ..ok }.validate(), Err(ConfigError::FieldOfView));
    assert_eq!(SimConfig { speed: empty, ..ok }.validate(), Err(ConfigError::Speed));
    let w = ForceWeights { separation: -1, alignment: U, cohesion: U };
    assert_eq!(SimConfig { weights: w, ..ok }.validate(), Err(ConfigError::ForceWeights));
    // The first broken rule is the one reported.
    assert_eq!(
        SimConfig { agent_count: 0, world_bounds: 0, ..ok }.validate(),
        Err(ConfigError::AgentCount)
    );
}

#[test]
fn default_config_values() {
    let c = SimConfig::default();
    assert_eq!(c.agent_count, 4000);
    assert_eq!(c.world_bounds, 200 * U);
    assert_eq!(c.vision_radius, ValueRange { min: 10 * U, max: 30 * U - 1 });
    assert_eq!(c.vision_cos, -3000);
    assert_eq!(c.speed, ValueRange { min: 10 * U, max: 20 * U });
    assert_eq!(c.boundary, BoundaryMode::Wrap);
    assert_eq!(c.weights, ForceWeights::unit());
}

#[test]
fn spawn_refuses_bad_config() {
    let c = SimConfig { agent_count: 0, ..SimConfig::default() };
    assert!(matches!(spawn(&c), Err(ConfigError::AgentCount)));
    let d = SimConfig { world_bounds: -3, ..SimConfig::default() };
    assert!(matches!(spawn(&d), Err(ConfigError::WorldBounds)));
}

#[test]
fn spawn_places_agents_in_range() {
    let c = SimConfig { agent_count: 64, ..SimConfig::default() };
    let store = spawn(&c).unwrap();
    assert_eq!(store.len(), 64);
    assert_eq!(store.world(), World { bounds: c.world_bounds, mode: c.boundary });
    let mut distinct = false;
    let first = store.agent(0).unwrap();
    for i in 0..store.len() {
        let a = store.agent(i).unwrap();
        for p in [a.position.x, a.position.y, a.position.z] {
            assert!(-c.world_bounds <= p && p <= c.world_bounds);
        }
        assert!(is_unit(a.heading));
        assert!(c.speed.min <= a.speed && a.speed <= c.speed.max);
        assert!(c.vision_radius.min <= a.vision_radius && a.vision_radius <= c.vision_radius.max);
        assert_eq!(a.separation, v(0, 0, 0));
        assert_eq!(a.cohesion, v(0, 0, 0));
        assert_eq!(a.alignment, a.heading);
        if a.position != first.position {
            distinct = true;
        }
    }
    assert!(distinct);
    assert!(store.agent(64).is_none());
}

#[test]
fn agent_from_draw_normalizes_direction() {
    let c = SimConfig::default();
    let d = AgentDraw { position: v(1, 2, 3), direction: v(0, 0, -40), speed: 12 * U, vision_radius: 20 * U };
    let a = agent_from_draw(&c, d);
    assert_eq!(a.position, v(1, 2, 3));
    assert_eq!(a.heading, v(0, 0, -U));
    assert_eq!(a.speed, 12 * U);
    assert_eq!(a.vision_radius, 20 * U);
    assert_eq!(a.vision_cos, c.vision_cos);
    let z = AgentDraw { direction: v(0, 0, 0), ..d };
    assert_eq!(agent_from_draw(&c, z).heading, v(0, U, 0));
}

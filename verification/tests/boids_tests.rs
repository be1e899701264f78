use boids::config::BoidsValues;
use boids::config::DebugValues;
use boids::config::BOUNDS_X;
use boids::fixed::abs_i64;
use boids::fixed::div_ceil_mag;
use boids::fixed::div_floor;
use boids::fixed::div_trunc;
use boids::fixed::isqrt_u64;
use boids::fixed::Vec2i;
use boids::flock::flock_delta;
use boids::flock::Boid;
use boids::hash_grid::HashGrid;
use boids::integrate::clamp_speed;
use boids::integrate::integrate_boid;
use boids::sim::SimulationState;

fn v(x: i64, y: i64) -> Vec2i {
    Vec2i { x, y }
}

fn boid(px: i64, py: i64, vx: i64, vy: i64) -> Boid {
    Boid {
        pos: v(px, py),
        vel: v(vx, vy),
    }
}

#[test]
fn isqrt_small_values() {
    assert_eq!(isqrt_u64(0), 0);
    assert_eq!(isqrt_u64(1), 1);
    assert_eq!(isqrt_u64(15), 3);
    assert_eq!(isqrt_u64(16), 4);
    assert_eq!(isqrt_u64(1_000_000), 1000);
    assert_eq!(isqrt_u64(999_999), 999);
}

#[test]
fn isqrt_large_values() {
    assert_eq!(isqrt_u64(u64::MAX), 4_294_967_295);
    assert_eq!(isqrt_u64(8_000_000_000_000_000_000), 2_828_427_124);
}

#[test]
fn division_roundings() {
    assert_eq!(div_floor(7, 2), 3);
    assert_eq!(div_floor(-7, 2), -4);
    assert_eq!(div_trunc(7, 2), 3);
    assert_eq!(div_trunc(-7, 2), -3);
    assert_eq!(div_ceil_mag(7, 2), 4);
    assert_eq!(div_ceil_mag(-7, 2), -4);
    assert_eq!(div_floor(-15000, 15000), -1);
    assert_eq!(div_floor(-15001, 15000), -2);
    assert_eq!(abs_i64(-9), 9);
}

#[test]
fn grid_query_finds_near_agents_only() {
    let mut g = HashGrid::new(15_000);
    g.update_entity(1, v(0, 0));
    g.update_entity(2, v(10_000, 0));
    g.update_entity(3, v(100_000, 0));
    let q = g.get_in_radius(v(0, 0), 20_000);
    assert!(q.contains(&1));
    assert!(q.contains(&2));
    assert!(!q.contains(&3));
    let mut sorted = q.clone();
    sorted.sort();
    sorted.dedup();
    assert_eq!(sorted.len(), q.len());
}

#[test]
fn grid_query_negative_coordinates() {
    let mut g = HashGrid::new(15_000);
    g.update_entity(7, v(-1_000, -1_000));
    g.update_entity(8, v(-40_000, 12_000));
    let q = g.get_in_radius(v(0, 0), 2_000);
    assert!(q.contains(&7));
    assert!(!q.contains(&8));
}

#[test]
fn grid_update_moves_agent_between_cells() {
    let mut g = HashGrid::new(15_000);
    g.update_entity(2, v(10_000, 0));
    g.update_entity(2, v(200_000, 0));
    let near = g.get_in_radius(v(0, 0), 20_000);
    assert!(!near.contains(&2));
    let far = g.get_in_radius(v(200_000, 0), 1_000);
    assert!(far.contains(&2));
}

#[test]
fn grid_update_same_position_is_idempotent() {
    let mut g = HashGrid::new(15_000);
    g.update_entity(1, v(5_000, 5_000));
    g.update_entity(2, v(6_000, 5_000));
    let before = g.get_in_radius(v(5_000, 5_000), 10_000);
    g.update_entity(1, v(5_000, 5_000));
    let after = g.get_in_radius(v(5_000, 5_000), 10_000);
    assert_eq!(before, after);
}

#[test]
fn grid_remove_entity_forgets_agent() {
    let mut g = HashGrid::new(15_000);
    g.update_entity(1, v(0, 0));
    g.update_entity(2, v(1_000, 0));
    g.remove_entity(1);
    let q = g.get_in_radius(v(0, 0), 10_000);
    assert!(!q.contains(&1));
    assert!(q.contains(&2));
}

#[test]
fn separation_scenario_two_agents() {
    // Two agents one unit apart, protected range two units, avoidance
    // weight fifty: the agent at the origin is pushed (-50, 0).
    let ns = vec![boid(1_000, 0, 0, 0)];
    let d = flock_delta(v(0, 0), v(0, 0), &ns, 0, 2_000, 30, 50_000, 5);
    assert_eq!(d, v(-50_000, 0));
}

#[test]
fn separation_scenario_with_other_terms_disabled() {
    let ns = vec![boid(1_000, 0, 0, 0)];
    let d = flock_delta(v(0, 0), v(0, 0), &ns, 40_000, 2_000, 0, 50_000, 0);
    assert_eq!(d, v(-50_000, 0));
}

#[test]
fn isolated_agent_gets_zero_delta() {
    let ns = vec![boid(50_000, 0, 10_000, 0), boid(0, -45_000, 0, 0)];
    let d = flock_delta(v(0, 0), v(5_000, 0), &ns, 40_000, 2_000, 30, 50_000, 5);
    assert_eq!(d, v(0, 0));
}

#[test]
fn coincident_neighbor_contributes_no_separation() {
    // A neighbor at exactly the agent's position is skipped by the
    // separation rule instead of dividing by zero.
    let ns = vec![boid(0, 0, 0, 0)];
    let d = flock_delta(v(0, 0), v(0, 0), &ns, 0, 2_000, 0, 50_000, 0);
    assert_eq!(d, v(0, 0));
}

#[test]
fn alignment_and_cohesion_averages() {
    // One neighbor in visual range moving (2, 0) at (10, 0); matching
    // weight 1.0 and centering weight 1.0, nothing else.
    let ns = vec![boid(10_000, 0, 2_000, 0)];
    let d = flock_delta(v(0, 0), v(0, 0), &ns, 40_000, 0, 1_000, 0, 1_000);
    // alignment: (2000 - 0) * 1000 / 1000 = 2000; cohesion: (10000 - 0)
    // * 1000 / 1000 = 10000.
    assert_eq!(d, v(12_000, 0));
}

fn no_target_values() -> BoidsValues {
    BoidsValues {
        target_pos: None,
        ..Default::default()
    }
}

#[test]
fn clamp_rescales_fast_agent_to_max() {
    let vals = no_target_values();
    let b = boid(0, 0, 100_000, 0);
    let r = integrate_boid(&b, v(0, 0), &vals, 1_000);
    assert_eq!(r.vel, v(60_000, 0));
    assert_eq!(r.pos, v(60_000, 0));
}

#[test]
fn clamp_rescales_slow_agent_to_min() {
    let vals = no_target_values();
    let b = boid(0, 0, 1_000, 0);
    let r = integrate_boid(&b, v(0, 0), &vals, 1_000);
    assert_eq!(r.vel, v(30_000, 0));
}

#[test]
fn clamp_leaves_zero_velocity_alone() {
    let r = clamp_speed(v(0, 0), 30_000, 60_000);
    assert_eq!(r, v(0, 0));
}

#[test]
fn clamp_diagonal_speed_lands_in_bounds() {
    let r = clamp_speed(v(90_000, 90_000), 30_000, 60_000);
    let n = (r.x as i128) * (r.x as i128) + (r.y as i128) * (r.y as i128);
    assert!(n >= 30_000i128 * 30_000);
    assert!(n < 60_001i128 * 60_001);
}

#[test]
fn boundary_turn_points_back_inward() {
    let vals = BoidsValues {
        target_pos: None,
        min_speed: 0,
        ..Default::default()
    };
    let b = boid(150_000, 0, 40_000, 0);
    let r = integrate_boid(&b, v(0, 0), &vals, 0);
    // Beyond the east bound the turn strength (1.2) reduces vx.
    assert_eq!(r.vel, v(38_800, 0));
}

#[test]
fn target_steering_pulls_toward_target() {
    let vals = BoidsValues {
        target_pos: Some(v(0, 0)),
        min_speed: 0,
        max_speed: 1_000_000,
        ..Default::default()
    };
    // Agent east of the target: steering subtracts along +x.
    let b = boid(50_000, 0, 10_000, 0);
    let r = integrate_boid(&b, v(0, 0), &vals, 0);
    // Unit vector (1, 0), steering 0.3: vx drops by 300.
    assert_eq!(r.vel, v(9_700, 0));
}

#[test]
fn sanitize_clamps_malformed_config() {
    let raw = BoidsValues {
        min_speed: 70_000,
        max_speed: 50_000,
        matching: -5,
        avoid: 99_000_000_000,
        ..Default::default()
    };
    let s = raw.sanitized();
    assert_eq!(s.max_speed, 50_000);
    assert_eq!(s.min_speed, 50_000);
    assert_eq!(s.matching, 0);
    assert_eq!(s.avoid, 1_000_000);
}

#[test]
fn sanitize_clamps_target_and_keeps_one_in_range() {
    let raw = BoidsValues {
        target_pos: Some(v(3_000_000_000, -7)),
        ..Default::default()
    };
    let s = raw.sanitized();
    assert_eq!(s.target_pos, Some(v(1_000_000_000, -7)));
    let ok = BoidsValues {
        target_pos: Some(v(42, 43)),
        ..Default::default()
    };
    assert_eq!(ok.sanitized().target_pos, Some(v(42, 43)));
}

#[test]
fn default_values_match_stock_configuration() {
    let d = BoidsValues::default();
    assert_eq!(d.count, 400);
    assert_eq!(d.target_pos, Some(v(0, 0)));
    assert_eq!(d.visual_range, 40_000);
    assert_eq!(d.protected_range, 2_000);
    assert_eq!(d.target_steering, 300);
    assert_eq!(d.matching, 30);
    assert_eq!(d.avoid, 50_000);
    assert_eq!(d.centering, 5);
    assert_eq!(d.turn, 1_200);
    assert_eq!(d.min_speed, 30_000);
    assert_eq!(d.max_speed, 60_000);
    assert!(!DebugValues::default().show_grid);
}

#[test]
fn reconcile_reaches_target_exactly() {
    let mut s = SimulationState::new(15_000);
    s.reconcile_population(5);
    assert_eq!(s.agents().len(), 5);
    let before = s.agents();
    s.reconcile_population(3);
    let mid = s.agents();
    assert_eq!(mid.len(), 3);
    assert_eq!(&before[..3], &mid[..]);
    s.reconcile_population(6);
    let after = s.agents();
    assert_eq!(after.len(), 6);
    assert_eq!(&mid[..], &after[..3]);
}

#[test]
fn reconcile_leaves_no_dangling_index_entry() {
    let mut s = SimulationState::new(15_000);
    s.reconcile_population(8);
    s.reconcile_population(2);
    // Every broad-phase hit names a live agent.
    for id in 0..2u64 {
        for other in s.neighbors_of(id, 300_000) {
            assert!(other < 2);
            assert_ne!(other, id);
        }
    }
}

#[test]
fn tick_keeps_population_and_speed_bounds() {
    let mut s = SimulationState::new(15_000);
    s.set_population_target(50);
    for _ in 0..3 {
        s.tick(16);
    }
    let agents = s.agents();
    assert_eq!(agents.len(), 50);
    for a in &agents {
        let n = (a.vel.x as i128) * (a.vel.x as i128) + (a.vel.y as i128) * (a.vel.y as i128);
        assert!(n == 0 || (n >= 30_000i128 * 30_000 && n < 60_001i128 * 60_001));
    }
}

#[test]
fn tick_agents_stay_within_coordinate_range() {
    let mut s = SimulationState::new(15_000);
    s.set_population_target(20);
    for _ in 0..5 {
        s.tick(100);
    }
    for a in &s.agents() {
        assert!(a.pos.x.abs() <= 1_000_000_000);
        assert!(a.pos.y.abs() <= 1_000_000_000);
    }
}

#[test]
fn set_target_position_clamps_into_world() {
    let mut s = SimulationState::new(15_000);
    s.set_target_position(Some(v(500_000, -500_000)));
    assert_eq!(
        s.get_config().target_pos,
        Some(v(BOUNDS_X, -BOUNDS_X))
    );
    s.set_target_position(None);
    assert_eq!(s.get_config().target_pos, None);
}

#[test]
fn set_config_replaces_parameters() {
    let mut s = SimulationState::new(15_000);
    let vals = BoidsValues {
        count: 7,
        turn: 900,
        ..Default::default()
    };
    s.set_config(vals);
    assert_eq!(s.get_config().count, 7);
    assert_eq!(s.get_config().turn, 900);
    s.set_population_target(11);
    assert_eq!(s.get_config().count, 11);
}

#[test]
fn neighbors_of_excludes_the_agent_itself() {
    let mut s = SimulationState::new(15_000);
    s.reconcile_population(10);
    for id in 0..10u64 {
        assert!(!s.neighbors_of(id, 300_000).contains(&id));
    }
}

#[test]
fn spawned_agents_start_inside_world_bounds() {
    let mut s = SimulationState::new(15_000);
    s.reconcile_population(40);
    for a in &s.agents() {
        assert!(a.pos.x.abs() <= 100_000);
        assert!(a.pos.y.abs() <= 100_000);
        assert!(a.vel.x.abs() <= 100_000);
        assert!(a.vel.y.abs() <= 100_000);
    }
}

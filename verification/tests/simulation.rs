//! End-to-end simulation scenarios on the fixed-point model.

use pool_sim::ball::{Ball, BallType, PhysicsConfig};
use pool_sim::events::EventEnum;
use pool_sim::game::{Game, SimulationFault};
use pool_sim::pool_table::{Cushion, CushionType, Pocket};
use pool_sim::standard_config;
use pool_sim::vec2::Vec2;
use pool_sim::SimObjects;

#[test]
fn scenario_straight_roll_stops() {
    // A single ball at the origin, struck along the x axis on an
    // obstacle-free table, comes to rest at its stopping distance
    // force^2 / (2 * mu_g): 50_985 position units in the integer model.
    let cfg = standard_config();
    let ball = Ball::new(1, BallType::CUE);
    let mut sim = SimObjects {
        cfg,
        balls: vec![ball],
        pockets: vec![],
        cushions: vec![],
    };
    sim.strike(0, Vec2::new(1, 0), 1_000_000);
    let mut game = Game { sim_objects: sim };
    let r = game.step_until_quiescent();
    assert!(r.is_ok());
    let b = game.sim_objects.get_ball(0);
    assert!(!b.is_moving());
    assert_eq!(b.speed, 0);
    assert_eq!(b.r.x, 50_985);
    assert_eq!(b.r.y, 0);
}

#[test]
fn scenario_head_on_collision_transfers_velocity() {
    // A stationary ball directly in the path of a moving one: HitBall fires
    // before StopRolling, and the equal-mass elastic exchange hands the full
    // along-centers velocity to the struck ball. Ball pairs are enumerated
    // from the higher index down, so the shooter sits at index 1.
    let cfg = standard_config();
    let mut target = Ball::new(1, BallType::SOLID);
    target.r = Vec2::new(100_000, 0);
    let shooter = Ball::new(2, BallType::CUE);
    let mut sim = SimObjects {
        cfg,
        balls: vec![target, shooter],
        pockets: vec![],
        cushions: vec![],
    };
    sim.strike(1, Vec2::new(1, 0), 1_000_000);
    let game = Game { sim_objects: sim };
    let ev = game.get_next_event().expect("one ball is moving");
    assert!(matches!(ev, EventEnum::HitBall(_)));
    let t = ev.get_time_until();
    assert_eq!(t, 613);
    let v_impact = game.sim_objects.get_ball(1).v_t(cfg, t);
    assert_eq!(v_impact.x, 398_853);
    assert_eq!(v_impact.y, 0);
    let mut sim = game.sim_objects;
    sim.apply_event(ev);
    let shooter_after = sim.get_ball(1);
    let target_after = sim.get_ball(0);
    assert!(!shooter_after.is_moving());
    assert_eq!(shooter_after.v, Vec2::new(0, 0));
    assert!(target_after.is_moving());
    assert_eq!(target_after.v.x, 398_853);
    assert_eq!(target_after.v.y, 0);
    // Momentum at the instant of impact is conserved exactly.
    assert_eq!(shooter_after.v.x + target_after.v.x, v_impact.x);
}

#[test]
fn scenario_aimed_at_pocket_is_captured() {
    // A ball aimed at a pocket center within its stopping distance falls in:
    // it ends pocketed, wiped to rest at the origin.
    let cfg = standard_config();
    let ball = Ball::new(1, BallType::CUE);
    let pocket = Pocket { r: Vec2::new(40_000, 0) };
    let mut sim = SimObjects {
        cfg,
        balls: vec![ball],
        pockets: vec![pocket],
        cushions: vec![],
    };
    sim.strike(0, Vec2::new(1, 0), 1_000_000);
    let mut game = Game { sim_objects: sim };
    let r = game.step_until_quiescent();
    assert!(r.is_ok());
    let b = game.sim_objects.get_ball(0);
    assert!(b.is_pocketed());
    assert!(!b.is_moving());
    assert_eq!(b.r, Vec2::new(0, 0));
    assert_eq!(b.v, Vec2::new(0, 0));
    assert_eq!(b.speed, 0);
}

#[test]
fn scenario_perpendicular_cushion_reflects() {
    // A ball aimed perpendicular into a cushion: the velocity component
    // along the cushion's normal axis reverses sign, the tangential one
    // (zero here) is unchanged, and the speed is preserved.
    let cfg = standard_config();
    let mut ball = Ball::new(1, BallType::CUE);
    ball.r = Vec2::new(50_000, 50_000);
    let cushion = Cushion {
        r1: Vec2::new(100_000, -200_000),
        r2: Vec2::new(100_000, 200_000),
        ctype: CushionType::RIGHT,
    };
    let mut sim = SimObjects {
        cfg,
        balls: vec![ball],
        pockets: vec![],
        cushions: vec![cushion],
    };
    sim.strike(0, Vec2::new(1, 0), 1_000_000);
    let game = Game { sim_objects: sim };
    let ev = game.get_next_event().expect("the ball is moving");
    assert!(matches!(ev, EventEnum::HitCushion(_)));
    let t = ev.get_time_until();
    let v_impact = game.sim_objects.get_ball(0).v_t(cfg, t);
    assert!(v_impact.x > 0);
    assert_eq!(v_impact.y, 0);
    let speed_before = game.sim_objects.get_ball(0).speed;
    let mut sim = game.sim_objects;
    sim.apply_event(ev);
    let b = sim.get_ball(0);
    assert_eq!(b.v.x, -v_impact.x);
    assert_eq!(b.v.y, 0);
    assert!(b.is_moving());
    assert!(b.speed <= speed_before);
    // Norm preservation at the instant of impact.
    assert_eq!(
        b.v.x as i128 * b.v.x as i128 + b.v.y as i128 * b.v.y as i128,
        v_impact.x as i128 * v_impact.x as i128 + v_impact.y as i128 * v_impact.y as i128,
    );
}

#[test]
fn update_state_matches_closed_form() {
    // After 100 ticks at initial speed 1_000_000 units/s the speed is
    // max(0, m0 - mu_g * t) = 901_934 and the position is the closed-form
    // rolled distance, 9_509 units.
    let cfg = standard_config();
    let ball = Ball::new(1, BallType::CUE);
    let mut sim = SimObjects {
        cfg,
        balls: vec![ball],
        pockets: vec![],
        cushions: vec![],
    };
    sim.strike(0, Vec2::new(1, 0), 1_000_000);
    let mut b = *sim.get_ball(0);
    b.update_state(cfg, 100);
    assert_eq!(b.speed, 901_934);
    assert_eq!(b.r.x, 9_509);
    assert_eq!(b.r.y, 0);
    assert!(b.is_moving());
}

#[test]
fn update_state_zero_is_noop() {
    let cfg = standard_config();
    let ball = Ball::new(1, BallType::CUE);
    let mut sim = SimObjects {
        cfg,
        balls: vec![ball],
        pockets: vec![],
        cushions: vec![],
    };
    sim.strike(0, Vec2::new(3, 4), 500_000);
    let before = *sim.get_ball(0);
    let mut after = before;
    after.update_state(cfg, 0);
    assert_eq!(after, before);
}

#[test]
fn stop_time_zeroes_speed_idempotently() {
    // At the predicted stop time the speed is exactly zero, and advancing a
    // stopped ball further changes nothing.
    let cfg = standard_config();
    let ball = Ball::new(1, BallType::CUE);
    let mut sim = SimObjects {
        cfg,
        balls: vec![ball],
        pockets: vec![],
        cushions: vec![],
    };
    sim.strike(0, Vec2::new(1, 0), 1_000_000);
    let mut b = *sim.get_ball(0);
    b.update_state(cfg, 1020);
    assert_eq!(b.speed, 0);
    assert!(!b.is_moving());
    let stopped = b;
    b.update_state(cfg, 500);
    assert_eq!(b, stopped);
}

#[test]
fn hit_normalizes_direction() {
    let cfg = standard_config();
    let ball = Ball::new(1, BallType::CUE);
    let mut sim = SimObjects {
        cfg,
        balls: vec![ball],
        pockets: vec![],
        cushions: vec![],
    };
    sim.strike(0, Vec2::new(300_000, 400_000), 1_000_000);
    let b = sim.get_ball(0);
    assert_eq!(b.dir, Vec2::new(600_000, 800_000));
    assert_eq!(b.v, Vec2::new(600_000, 800_000));
    assert_eq!(b.speed, 1_000_000);
    assert!(b.is_moving());
}

#[test]
fn exhausted_event_budget_is_a_fault() {
    // A turn that cannot settle within the configured number of events is
    // reported as a simulation fault, not allowed to spin.
    let cfg = PhysicsConfig {
        max_steps: 0,
        ..standard_config()
    };
    let ball = Ball::new(1, BallType::CUE);
    let mut sim = SimObjects {
        cfg,
        balls: vec![ball],
        pockets: vec![],
        cushions: vec![],
    };
    sim.strike(0, Vec2::new(1, 0), 1_000_000);
    let mut game = Game { sim_objects: sim };
    let r = game.step_until_quiescent();
    assert_eq!(r, Err(SimulationFault));
}

#[test]
fn quiescent_table_has_no_event() {
    let cfg = standard_config();
    let game = Game::new(cfg);
    assert!(game.get_next_event().is_none());
}

#[test]
fn full_rack_turn_settles() {
    // A full turn on the standard table: strike the cue up the table and run
    // to quiescence.
    let cfg = standard_config();
    let mut game = Game::new(cfg);
    let r = game.play_turn(Vec2::new(0, 1_000_000), 2_000_000);
    assert!(r.is_ok());
    for i in 0..game.sim_objects.num_balls() {
        assert!(!game.sim_objects.get_ball(i).is_moving());
    }
}

#[test]
fn trajectory_is_clamped_beyond_stop_time() {
    // A ball's trajectory is valid only until its stop time; beyond it the
    // closed form holds the rest position and zero velocity.
    let cfg = standard_config();
    let ball = Ball::new(1, BallType::CUE);
    let mut sim = SimObjects {
        cfg,
        balls: vec![ball],
        pockets: vec![],
        cushions: vec![],
    };
    sim.strike(0, Vec2::new(1, 0), 1_000_000);
    let b = sim.get_ball(0);
    let at_stop = b.r_t(cfg, 1020);
    let far_beyond = b.r_t(cfg, 10_000_000);
    assert_eq!(at_stop, far_beyond);
    assert_eq!(at_stop.x, 50_985);
    assert_eq!(b.v_t(cfg, 10_000_000), Vec2::new(0, 0));
}

#[test]
fn diagonal_collision_conserves_momentum() {
    // A collision along the diagonal line of centers: the along-centers
    // component is exchanged; total momentum at the instant of impact is
    // conserved up to the fixed-point rounding of each component.
    let cfg = standard_config();
    let mut target = Ball::new(1, BallType::SOLID);
    target.r = Vec2::new(100_000, 100_000);
    let shooter = Ball::new(2, BallType::CUE);
    let mut sim = SimObjects {
        cfg,
        balls: vec![target, shooter],
        pockets: vec![],
        cushions: vec![],
    };
    sim.strike(1, Vec2::new(500_000, 500_000), 1_500_000);
    let game = Game { sim_objects: sim };
    let ev = game.get_next_event().expect("the shooter is moving");
    assert!(matches!(ev, EventEnum::HitBall(_)));
    let t = ev.get_time_until();
    let v_impact = game.sim_objects.get_ball(1).v_t(cfg, t);
    let mut sim = game.sim_objects;
    sim.apply_event(ev);
    let shooter_after = sim.get_ball(1);
    let target_after = sim.get_ball(0);
    assert!(target_after.is_moving());
    let px = shooter_after.v.x + target_after.v.x - v_impact.x;
    let py = shooter_after.v.y + target_after.v.y - v_impact.y;
    assert!(px.abs() <= 2, "momentum drift in x: {}", px);
    assert!(py.abs() <= 2, "momentum drift in y: {}", py);
}

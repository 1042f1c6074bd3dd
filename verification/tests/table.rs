//! The standard table, the rack, and the read accessors.

use pool_sim::ball::BallType;
use pool_sim::events::{EventEnum, NullEvent};
use pool_sim::game::Game;
use pool_sim::pool_balls::assign_btype;
use pool_sim::pool_table::{CushionType, PoolTable, TABLE_LENGTH, TABLE_WIDTH};
use pool_sim::standard_config;
use pool_sim::vec2::Vec2;
use pool_sim::SimObjects;

#[test]
fn standard_table_counts() {
    let sim = SimObjects::new(standard_config());
    assert_eq!(sim.num_balls(), 16);
    assert_eq!(sim.num_pockets(), 6);
    assert_eq!(sim.num_cushions(), 4);
    for i in 0..sim.num_balls() {
        assert!(!sim.get_ball(i).is_moving());
        assert!(!sim.get_ball(i).is_pocketed());
    }
}

#[test]
fn standard_pockets_sit_on_the_rails() {
    let sim = SimObjects::new(standard_config());
    assert_eq!(sim.get_pocket(0).r, Vec2::new(0, 0));
    assert_eq!(sim.get_pocket(1).r, Vec2::new(0, TABLE_LENGTH / 2));
    assert_eq!(sim.get_pocket(2).r, Vec2::new(0, TABLE_LENGTH));
    assert_eq!(sim.get_pocket(3).r, Vec2::new(TABLE_WIDTH, 0));
    assert_eq!(sim.get_pocket(4).r, Vec2::new(TABLE_WIDTH, TABLE_LENGTH / 2));
    assert_eq!(sim.get_pocket(5).r, Vec2::new(TABLE_WIDTH, TABLE_LENGTH));
}

#[test]
fn standard_cushions_frame_the_table() {
    let sim = SimObjects::new(standard_config());
    assert_eq!(sim.get_cushion(0).ctype, CushionType::BOTTOM);
    assert_eq!(sim.get_cushion(1).ctype, CushionType::LEFT);
    assert_eq!(sim.get_cushion(2).ctype, CushionType::TOP);
    assert_eq!(sim.get_cushion(3).ctype, CushionType::RIGHT);
    assert_eq!(sim.get_cushion(1).r1, Vec2::new(0, 0));
    assert_eq!(sim.get_cushion(1).r2, Vec2::new(0, TABLE_LENGTH));
}

#[test]
fn pool_table_standalone_geometry() {
    let t = PoolTable::new();
    assert_eq!(t.num_pockets(), 6);
    assert_eq!(t.num_cushions(), 4);
    assert_eq!(t.get_pocket(2).r, Vec2::new(0, TABLE_LENGTH));
}

#[test]
fn ball_types_by_number() {
    for n in 1..=7 {
        assert_eq!(assign_btype(n), BallType::SOLID);
    }
    assert_eq!(assign_btype(8), BallType::EIGHT);
    for n in 9..=15 {
        assert_eq!(assign_btype(n), BallType::STRIPED);
    }
    assert_eq!(assign_btype(16), BallType::CUE);
}

#[test]
fn rack_places_cue_last() {
    let sim = SimObjects::new(standard_config());
    let cue = sim.get_ball(15);
    assert_eq!(cue.id, 16);
    assert_eq!(cue.btype, BallType::CUE);
    assert_eq!(cue.r, Vec2::new(0, 0));
    // The triangle sits above the foot of the table.
    for i in 0..15 {
        assert!(sim.get_ball(i).r.y > 0);
    }
}

#[test]
fn rack_layout_is_exact() {
    // Index 0 holds the head-of-triangle slot (front row), index 1 the
    // second slot of the back row; the eight ball sits at index 10 and the
    // ids of indices 7 and 10 were carried along by the swap.
    let sim = SimObjects::new(standard_config());
    assert_eq!(sim.get_ball(0).r, Vec2::new(28_575, 78_068));
    assert_eq!(sim.get_ball(0).btype, BallType::STRIPED);
    assert_eq!(sim.get_ball(1).r, Vec2::new(200_025, 276_041));
    assert_eq!(sim.get_ball(1).btype, BallType::SOLID);
    assert_eq!(sim.get_ball(10).btype, BallType::EIGHT);
    assert_eq!(sim.get_ball(10).id, 8);
    assert_eq!(sim.get_ball(7).id, 11);
    // Seven solids, seven stripes, one eight ball, one cue.
    let mut solids = 0;
    let mut stripes = 0;
    let mut eights = 0;
    let mut cues = 0;
    for i in 0..16 {
        match sim.get_ball(i).btype {
            BallType::SOLID => solids += 1,
            BallType::STRIPED => stripes += 1,
            BallType::EIGHT => eights += 1,
            BallType::CUE => cues += 1,
        }
    }
    assert_eq!((solids, stripes, eights, cues), (7, 7, 1, 1));
    // All sixteen ids are distinct.
    for i in 0..16 {
        for j in 0..i {
            assert_ne!(sim.get_ball(i).id, sim.get_ball(j).id);
        }
    }
}

#[test]
fn degenerate_cushion_produces_no_event() {
    // A zero-length cushion is absorbed as "no event": a ball rolling over
    // it sees no contact and simply stops.
    let cfg = standard_config();
    let ball = pool_sim::ball::Ball::new(1, BallType::CUE);
    let cushion = pool_sim::pool_table::Cushion {
        r1: Vec2::new(30_000, 0),
        r2: Vec2::new(30_000, 0),
        ctype: CushionType::RIGHT,
    };
    let mut sim = SimObjects {
        cfg,
        balls: vec![ball],
        pockets: vec![],
        cushions: vec![cushion],
    };
    sim.strike(0, Vec2::new(1, 0), 1_000_000);
    let game = Game { sim_objects: sim };
    let ev = game.get_next_event().expect("the ball is moving");
    assert!(matches!(ev, pool_sim::events::EventEnum::StopRolling(_)));
    let mut game = game;
    let r = game.step_until_quiescent();
    assert!(r.is_ok());
    assert_eq!(game.sim_objects.get_ball(0).r.x, 50_985);
}

#[test]
fn mutable_ball_access() {
    let mut sim = SimObjects::new(standard_config());
    let b = sim.get_mut_ball(3);
    b.r = Vec2::new(123, 456);
    assert_eq!(sim.get_ball(3).r, Vec2::new(123, 456));
    let cue = sim.get_mut_cue();
    cue.r = Vec2::new(750_000, 500_000);
    assert_eq!(sim.get_ball(15).r, Vec2::new(750_000, 500_000));
}

#[test]
fn null_event_never_occurs() {
    let e = EventEnum::NullEvent(NullEvent::new());
    assert_eq!(e.get_time_until(), i64::MAX);
}

#[test]
fn event_selection_prefers_earlier_candidates() {
    // On a quiescent standard table there is no event; after a gentle strike
    // straight up the empty side of the table, the only candidate left is
    // the cue rolling to a stop.
    let cfg = standard_config();
    let mut game = Game::new(cfg);
    assert!(game.get_next_event().is_none());
    let cue = game.sim_objects.get_mut_cue();
    cue.r = Vec2::new(750_000, 4_000_000);
    game.sim_objects.strike(15, Vec2::new(0, -1), 100_000);
    let ev = game.get_next_event().expect("the cue is moving");
    assert!(matches!(ev, EventEnum::StopRolling(_)));
    assert!(ev.get_time_until() > 0);
}

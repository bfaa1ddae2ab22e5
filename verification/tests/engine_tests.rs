use boids::agent::{Agent, Params};
use boids::engine::Engine;
use boids::integrate::TickError;
use boids::lanes::LaneEngine;
use boids::vec2::Vec2;

fn params() -> Params {
    Params {
        width: 1_080_000,
        height: 800_000,
        max_speed: 100_000,
        max_force: 80_000,
        perception_radius: 100_000,
        separation_radius: 100_000,
    }
}

#[test]
fn empty_population_tick() {
    let mut engine = Engine::new(0, params(), 7);
    assert_eq!(engine.tick(100, None), Ok(()));
    assert!(engine.snapshot().is_empty());
    assert_eq!(engine.population(), 0);
}

#[test]
fn deterministic_runs() {
    let mut e1 = Engine::new(24, params(), 42);
    let mut e2 = Engine::new(24, params(), 42);
    assert_eq!(e1.snapshot(), e2.snapshot());
    let dts = [16i64, 33, 16, 100, 7];
    for &dt in dts.iter() {
        assert_eq!(e1.tick(dt, None), Ok(()));
        assert_eq!(e2.tick(dt, None), Ok(()));
        assert_eq!(e1.snapshot(), e2.snapshot());
    }
}

#[test]
fn different_seeds_differ() {
    let e1 = Engine::new(16, params(), 1);
    let e2 = Engine::new(16, params(), 2);
    assert_ne!(e1.snapshot(), e2.snapshot());
}

#[test]
fn seeded_agents_inside_world() {
    let engine = Engine::new(50, params(), 3);
    for a in engine.snapshot().iter() {
        assert!(0 <= a.position.x && a.position.x < 1_080_000);
        assert!(0 <= a.position.y && a.position.y < 800_000);
        let speed_sq = a.velocity.x as i128 * a.velocity.x as i128
            + a.velocity.y as i128 * a.velocity.y as i128;
        assert!(speed_sq <= 50_000i128 * 50_000);
    }
}

#[test]
fn chunked_matches_sequential() {
    let mut seq = Engine::new(24, params(), 11);
    let mut chunked = Engine::new(24, params(), 11);
    for _ in 0..4 {
        assert_eq!(seq.tick(33, None), Ok(()));
        assert_eq!(chunked.tick_chunked(33, None, 5), Ok(()));
        assert_eq!(seq.snapshot(), chunked.snapshot());
    }
}

#[test]
fn lane_matches_scalar() {
    let mut scalar = Engine::new(16, params(), 9);
    let mut lanes = LaneEngine::new(16, params(), 9);
    assert_eq!(scalar.snapshot().clone(), lanes.snapshot());
    for _ in 0..3 {
        assert_eq!(scalar.tick(25, None), Ok(()));
        assert_eq!(lanes.tick(25, None), Ok(()));
        assert_eq!(scalar.snapshot().clone(), lanes.snapshot());
    }
}

#[test]
fn lane_matches_scalar_with_attraction() {
    let mut scalar = Engine::new(8, params(), 5);
    let mut lanes = LaneEngine::new(8, params(), 5);
    let target = Some(Vec2 { x: 540_000, y: 400_000 });
    assert_eq!(scalar.tick(40, target), Ok(()));
    assert_eq!(lanes.tick(40, target), Ok(()));
    assert_eq!(scalar.snapshot().clone(), lanes.snapshot());
}

#[test]
fn grow_appends_and_keeps_prefix() {
    let mut engine = Engine::new(4, params(), 21);
    let before = engine.snapshot().clone();
    engine.grow(3);
    let after = engine.snapshot().clone();
    assert_eq!(after.len(), 7);
    assert_eq!(&after[..4], &before[..]);
}

#[test]
fn shrink_clamps_and_reports() {
    let mut engine = Engine::new(5, params(), 21);
    let before = engine.snapshot().clone();
    assert_eq!(engine.shrink(2), 2);
    assert_eq!(engine.snapshot().len(), 3);
    assert_eq!(&engine.snapshot()[..], &before[..3]);
    assert_eq!(engine.shrink(10), 3);
    assert_eq!(engine.population(), 0);
}

#[test]
fn defect_aborts_tick_and_keeps_state() {
    // One agent already at the velocity limit; the unclamped attraction
    // term pushes it past the representable range.
    let agent = Agent {
        position: Vec2 { x: 0, y: 0 },
        velocity: Vec2 { x: 0x8000_0000, y: 0 },
    };
    let mut engine = Engine::from_agents(vec![agent], params(), 0);
    let before = engine.snapshot().clone();
    let target = Some(Vec2 { x: 0x8000_0000, y: 0 });
    assert_eq!(engine.tick(1000, target), Err(TickError::Defect));
    assert_eq!(engine.snapshot().clone(), before);
}

#[test]
fn grow_is_seed_deterministic() {
    let mut a = Engine::new(4, params(), 77);
    let mut b = Engine::new(4, params(), 77);
    a.grow(4);
    b.grow(4);
    assert_eq!(a.snapshot(), b.snapshot());
}

use boids::agent::{Agent, Params};
use boids::integrate::{step_agent, TickError};
use boids::vec2::Vec2;

fn params() -> Params {
    Params {
        width: 10_000,
        height: 8_000,
        max_speed: 100_000,
        max_force: 80_000,
        perception_radius: 1_000,
        separation_radius: 1_000,
    }
}

fn lone(pos: Vec2, vel: Vec2) -> Vec<Agent> {
    vec![Agent { position: pos, velocity: vel }]
}

#[test]
fn wrap_right_edge_to_zero() {
    // x overshoots the right edge by any positive amount: back to 0.
    let boids = lone(Vec2 { x: 9_000, y: 4_000 }, Vec2 { x: 2_000, y: 0 });
    let a = step_agent(&boids, 0, &params(), None, 1000).unwrap();
    assert_eq!(a.position.x, 0);
    assert_eq!(a.position.y, 4_000);
    assert_eq!(a.velocity, Vec2 { x: 2_000, y: 0 });
}

#[test]
fn wrap_left_edge_to_width() {
    let boids = lone(Vec2 { x: 1_000, y: 4_000 }, Vec2 { x: -2_000, y: 0 });
    let a = step_agent(&boids, 0, &params(), None, 1000).unwrap();
    assert_eq!(a.position.x, 10_000);
}

#[test]
fn wrap_bottom_edge_to_zero() {
    let boids = lone(Vec2 { x: 5_000, y: 7_500 }, Vec2 { x: 0, y: 1_000 });
    let a = step_agent(&boids, 0, &params(), None, 1000).unwrap();
    assert_eq!(a.position.y, 0);
}

#[test]
fn wrap_top_edge_to_height() {
    let boids = lone(Vec2 { x: 5_000, y: 500 }, Vec2 { x: 0, y: -1_000 });
    let a = step_agent(&boids, 0, &params(), None, 1000).unwrap();
    assert_eq!(a.position.y, 8_000);
}

#[test]
fn landing_exactly_on_edge_stays() {
    // The wrap is strict: a position equal to the edge is kept.
    let boids = lone(Vec2 { x: 9_000, y: 4_000 }, Vec2 { x: 1_000, y: 0 });
    let a = step_agent(&boids, 0, &params(), None, 1000).unwrap();
    assert_eq!(a.position.x, 10_000);
}

#[test]
fn dt_zero_changes_nothing() {
    let boids = lone(Vec2 { x: 5_000, y: 4_000 }, Vec2 { x: 1_234, y: -5_678 });
    let a = step_agent(&boids, 0, &params(), None, 0).unwrap();
    assert_eq!(a, boids[0]);
}

#[test]
fn integration_is_velocity_then_position() {
    // With an attraction term straight down: velocity first picks up the
    // acceleration, then the position moves with the new velocity.
    let boids = lone(Vec2 { x: 5_000, y: 4_000 }, Vec2 { x: 0, y: 0 });
    let target = Some(Vec2 { x: 5_000, y: 8_000 });
    // Acceleration is (0, max_speed) = (0, 100000); dt = 10 ms.
    let a = step_agent(&boids, 0, &params(), target, 10).unwrap();
    assert_eq!(a.velocity, Vec2 { x: 0, y: 1_000 });
    assert_eq!(a.position, Vec2 { x: 5_000, y: 4_010 });
}

#[test]
fn velocity_out_of_range_is_a_defect() {
    let boids = lone(Vec2 { x: 0, y: 0 }, Vec2 { x: 0x8000_0000, y: 0 });
    let target = Some(Vec2 { x: 0x8000_0000, y: 0 });
    assert_eq!(step_agent(&boids, 0, &params(), target, 1000), Err(TickError::Defect));
}

use boids::agent::{Agent, Params};
use boids::steering::{alignment, attraction, calc_acceleration, cohesion, separation};
use boids::vec2::Vec2;

fn params() -> Params {
    // 1000 fixed-point ticks per world unit: a perception radius of 100
    // units, a maximum speed of 100 units/s, a maximum force of 80.
    Params {
        width: 1_080_000,
        height: 800_000,
        max_speed: 100_000,
        max_force: 80_000,
        perception_radius: 100_000,
        separation_radius: 100_000,
    }
}

/// Two agents 10 units apart on the x-axis with opposite velocities.
fn facing_pair() -> Vec<Agent> {
    vec![
        Agent { position: Vec2 { x: 0, y: 0 }, velocity: Vec2 { x: 0, y: 50_000 } },
        Agent { position: Vec2 { x: 10_000, y: 0 }, velocity: Vec2 { x: 0, y: -50_000 } },
    ]
}

fn norm_sq(v: Vec2) -> i128 {
    v.x as i128 * v.x as i128 + v.y as i128 * v.y as i128
}

#[test]
fn two_agents_alignment_exact() {
    let boids = facing_pair();
    let p = params();
    let a0 = alignment(&boids, 0, &p);
    // Pulled toward the neighbour's (downward) velocity, clamped to 80.
    assert_eq!(a0, Vec2 { x: 0, y: -80_000 });
    let a1 = alignment(&boids, 1, &p);
    assert_eq!(a1, Vec2 { x: 0, y: 80_000 });
}

#[test]
fn two_agents_cohesion_exact() {
    let boids = facing_pair();
    let p = params();
    let c0 = cohesion(&boids, 0, &p);
    assert_eq!(c0, Vec2 { x: 71_553, y: -35_776 });
    // Pulled toward the other agent: positive x for agent 0.
    assert!(c0.x > 0);
    let c1 = cohesion(&boids, 1, &p);
    assert_eq!(c1, Vec2 { x: -71_553, y: 35_776 });
}

#[test]
fn two_agents_separation_pushes_apart() {
    let boids = facing_pair();
    let p = params();
    let s0 = separation(&boids, 0, &p);
    let s1 = separation(&boids, 1, &p);
    // Pushed apart along the connecting line: agent 0 toward negative x,
    // agent 1 toward positive x.
    assert!(s0.x < 0);
    assert!(s1.x > 0);
    assert_eq!(s0, Vec2 { x: -71_553, y: -35_776 });
    assert_eq!(s1, Vec2 { x: 71_553, y: 35_776 });
}

#[test]
fn rules_clamped_to_max_force() {
    let boids = facing_pair();
    let p = params();
    let limit = 80_000i128 * 80_000;
    for i in 0..2 {
        assert!(norm_sq(alignment(&boids, i, &p)) <= limit);
        assert!(norm_sq(cohesion(&boids, i, &p)) <= limit);
        assert!(norm_sq(separation(&boids, i, &p)) <= limit);
    }
}

#[test]
fn no_neighbors_zero_contribution() {
    // Two agents 500 units apart: outside both radii.
    let boids = vec![
        Agent { position: Vec2 { x: 0, y: 0 }, velocity: Vec2 { x: 1_000, y: 2_000 } },
        Agent { position: Vec2 { x: 500_000, y: 0 }, velocity: Vec2 { x: -3_000, y: 0 } },
    ];
    let p = params();
    for i in 0..2 {
        assert_eq!(alignment(&boids, i, &p), Vec2 { x: 0, y: 0 });
        assert_eq!(cohesion(&boids, i, &p), Vec2 { x: 0, y: 0 });
        assert_eq!(separation(&boids, i, &p), Vec2 { x: 0, y: 0 });
        assert_eq!(calc_acceleration(&boids, i, &p, None), Vec2 { x: 0, y: 0 });
    }
}

#[test]
fn zero_distance_pair_is_ignored() {
    // Exactly overlapping agents see no neighbour and contribute zero.
    let boids = vec![
        Agent { position: Vec2 { x: 5_000, y: 5_000 }, velocity: Vec2 { x: 1_000, y: 0 } },
        Agent { position: Vec2 { x: 5_000, y: 5_000 }, velocity: Vec2 { x: -1_000, y: 0 } },
    ];
    let p = params();
    assert_eq!(alignment(&boids, 0, &p), Vec2 { x: 0, y: 0 });
    assert_eq!(separation(&boids, 0, &p), Vec2 { x: 0, y: 0 });
}

#[test]
fn attraction_is_unclamped_at_max_speed() {
    let agent = Agent { position: Vec2 { x: 0, y: 0 }, velocity: Vec2 { x: 0, y: 0 } };
    let p = params();
    let at = attraction(&agent, Vec2 { x: 0, y: 500_000 }, &p);
    // Stretched to max_speed, which exceeds max_force: not clamped.
    assert_eq!(at, Vec2 { x: 0, y: 100_000 });
}

#[test]
fn acceleration_sums_rules() {
    let boids = facing_pair();
    let p = params();
    let acc = calc_acceleration(&boids, 0, &p, None);
    assert_eq!(acc, Vec2 { x: 0, y: -151_552 });
}

//! Numeric integration and edge wrapping.
//!
//! `velocity' = velocity + acceleration * dt`; `position' = position +
//! velocity' * dt`; positions leaving the world rectangle teleport to the
//! opposite edge. Time is fixed-point too: `dt` counts thousandths of a
//! second (`DT_UNIT`), and `dt == 0` is a valid no-op step.
//!
//! A produced velocity outside the representable range is a defect — the
//! fixed-point analogue of a non-finite float — and aborts the step with
//! `TickError::Defect` rather than being clamped silently. A wrapped
//! position is always back inside the world, so positions cannot defect.
//!
//! Integration is split from steering so that every execution strategy
//! — sequential, chunked, lanewise — runs the very same integrator.

use vstd::prelude::*;

use crate::agent::Agent;
use crate::agent::Params;
use crate::agent::agent_wf;
use crate::agent::all_wf;
use crate::fixed::div_t;
use crate::fixed::div_trunc;
use crate::fixed::lemma_div_t_bound;
use crate::steering::acceleration;
use crate::steering::calc_acceleration;
use crate::vec2::COORD_LIMIT;
use crate::vec2::Vec2;

verus! {

/// Number of `dt` ticks in one second: `dt` is given in milliseconds.
pub const DT_UNIT: i64 = 1000;

/// A fatal defect: the step produced a velocity outside the
/// representable coordinate range.
#[derive(Clone, Copy, PartialEq, Eq, Structural, Debug)]
pub enum TickError {
    Defect,
}

/// Teleport wrap at the world edges: an overshoot past `w` restarts at
/// `0`, an overshoot below `0` restarts at `w`, anything inside stays.
pub open spec fn wrap(x: int, w: int) -> int {
    if x > w {
        0
    } else if x < 0 {
        w
    } else {
        x
    }
}

/// The wrap law, spelled out: crossing an edge by any positive amount
/// lands exactly on the opposite edge, and interior positions are left
/// untouched.
pub proof fn lemma_wrap_law(w: int, eps: int)
    requires
        w > 0,
        eps > 0,
    ensures
        wrap(w + eps, w) == 0,
        wrap(-eps, w) == w,
        forall|x: int| 0 <= x <= w ==> wrap(x, w) == x,
{
}

/// The velocity an agent carries after integrating acceleration
/// `(ax, ay)` over `dt`.
pub open spec fn integrated_velocity(a: Agent, ax: int, ay: int, dt: int) -> (int, int) {
    (
        a.velocity.x + div_t(ax * dt, DT_UNIT as int),
        a.velocity.y + div_t(ay * dt, DT_UNIT as int),
    )
}

/// Whether an integrated velocity stays representable; when it does
/// not, the step reports a defect.
pub open spec fn velocity_in_range(v: (int, int)) -> bool {
    &&& -COORD_LIMIT <= v.0 <= COORD_LIMIT
    &&& -COORD_LIMIT <= v.1 <= COORD_LIMIT
}

/// An agent one step later, given its acceleration: integrated
/// velocity, then integrated and wrapped position.
pub open spec fn integrated_agent(a: Agent, ax: int, ay: int, p: Params, dt: int) -> Agent {
    let v = integrated_velocity(a, ax, ay, dt);
    let px = wrap(a.position.x + div_t(v.0 * dt, DT_UNIT as int), p.width as int);
    let py = wrap(a.position.y + div_t(v.1 * dt, DT_UNIT as int), p.height as int);
    Agent {
        position: Vec2 { x: px as i64, y: py as i64 },
        velocity: Vec2 { x: v.0 as i64, y: v.1 as i64 },
    }
}

/// The velocity agent `i` will carry after one step.
pub open spec fn next_velocity(
    s: Seq<Agent>,
    i: int,
    p: Params,
    attract: Option<Vec2>,
    dt: int,
) -> (int, int) {
    let a = acceleration(s, i, p, attract);
    integrated_velocity(s[i], a.0, a.1, dt)
}

/// Whether agent `i`'s step succeeds.
pub open spec fn vel_ok(s: Seq<Agent>, i: int, p: Params, attract: Option<Vec2>, dt: int) -> bool {
    velocity_in_range(next_velocity(s, i, p, attract, dt))
}

/// Agent `i` one step later: integrated velocity, wrapped position.
pub open spec fn next_agent(s: Seq<Agent>, i: int, p: Params, attract: Option<Vec2>, dt: int) -> Agent {
    let a = acceleration(s, i, p, attract);
    integrated_agent(s[i], a.0, a.1, p, dt)
}

/// A successfully integrated agent is well formed and sits inside the
/// world rectangle.
pub proof fn lemma_integrated_agent_wf(a: Agent, ax: int, ay: int, p: Params, dt: int)
    requires
        p.wf(),
        velocity_in_range(integrated_velocity(a, ax, ay, dt)),
    ensures
        agent_wf(integrated_agent(a, ax, ay, p, dt)),
        0 <= integrated_agent(a, ax, ay, p, dt).position.x <= p.width,
        0 <= integrated_agent(a, ax, ay, p, dt).position.y <= p.height,
{
}

/// Integrate one agent from a precomputed acceleration. Fails exactly
/// when the new velocity leaves the representable range.
pub fn integrate_agent(this: Agent, acc: Vec2, p: &Params, dt: i64) -> (r: Result<
    Agent,
    TickError,
>)
    requires
        p.wf(),
        agent_wf(this),
        0 <= dt <= COORD_LIMIT,
        -0x2_0000_0000 <= acc.x <= 0x2_0000_0000,
        -0x2_0000_0000 <= acc.y <= 0x2_0000_0000,
    ensures
        r is Ok <==> velocity_in_range(
            integrated_velocity(this, acc.x as int, acc.y as int, dt as int),
        ),
        r matches Ok(a) ==> a == integrated_agent(this, acc.x as int, acc.y as int, *p, dt as int),
        r matches Err(e) ==> e == TickError::Defect,
{
    proof {
        assert(-0x1_0000_0000_0000_0000 <= (acc.x as i128) * (dt as i128) <= 0x1_0000_0000_0000_0000
            && -0x1_0000_0000_0000_0000 <= (acc.y as i128) * (dt as i128)
            <= 0x1_0000_0000_0000_0000) by (nonlinear_arith)
            requires
                -0x2_0000_0000 <= acc.x <= 0x2_0000_0000,
                -0x2_0000_0000 <= acc.y <= 0x2_0000_0000,
                0 <= dt <= COORD_LIMIT,
        ;
        lemma_div_t_bound((acc.x as int) * (dt as int), DT_UNIT as int, 0x1_0000_0000_0000_0000);
        lemma_div_t_bound((acc.y as int) * (dt as int), DT_UNIT as int, 0x1_0000_0000_0000_0000);
    }
    let dvx: i128 = div_trunc((acc.x as i128) * (dt as i128), DT_UNIT as i128);
    let dvy: i128 = div_trunc((acc.y as i128) * (dt as i128), DT_UNIT as i128);
    let nvx128: i128 = this.velocity.x as i128 + dvx;
    let nvy128: i128 = this.velocity.y as i128 + dvy;
    if nvx128 < -(COORD_LIMIT as i128) || nvx128 > COORD_LIMIT as i128 || nvy128 < -(
    COORD_LIMIT as i128) || nvy128 > COORD_LIMIT as i128 {
        return Err(TickError::Defect);
    }
    let nvx: i64 = nvx128 as i64;
    let nvy: i64 = nvy128 as i64;
    proof {
        assert(-0x4000_0000_0000_0000 <= (nvx as i128) * (dt as i128) <= 0x4000_0000_0000_0000
            && -0x4000_0000_0000_0000 <= (nvy as i128) * (dt as i128)
            <= 0x4000_0000_0000_0000) by (nonlinear_arith)
            requires
                -COORD_LIMIT <= nvx <= COORD_LIMIT,
                -COORD_LIMIT <= nvy <= COORD_LIMIT,
                0 <= dt <= COORD_LIMIT,
        ;
        lemma_div_t_bound((nvx as int) * (dt as int), DT_UNIT as int, 0x4000_0000_0000_0000);
        lemma_div_t_bound((nvy as int) * (dt as int), DT_UNIT as int, 0x4000_0000_0000_0000);
    }
    let dpx: i128 = div_trunc((nvx as i128) * (dt as i128), DT_UNIT as i128);
    let dpy: i128 = div_trunc((nvy as i128) * (dt as i128), DT_UNIT as i128);
    let px128: i128 = this.position.x as i128 + dpx;
    let py128: i128 = this.position.y as i128 + dpy;
    let px: i64 = if px128 > p.width as i128 {
        0
    } else if px128 < 0 {
        p.width
    } else {
        px128 as i64
    };
    let py: i64 = if py128 > p.height as i128 {
        0
    } else if py128 < 0 {
        p.height
    } else {
        py128 as i64
    };
    Ok(Agent { position: Vec2 { x: px, y: py }, velocity: Vec2 { x: nvx, y: nvy } })
}

/// Compute agent `i`'s next state from the current generation:
/// steering, integration, edge wrap. Fails exactly when the new
/// velocity leaves the representable range.
pub fn step_agent(boids: &Vec<Agent>, i: usize, p: &Params, attract: Option<Vec2>, dt: i64) -> (r:
    Result<Agent, TickError>)
    requires
        p.wf(),
        all_wf(boids@),
        i < boids@.len(),
        0 <= dt <= COORD_LIMIT,
        attract matches Some(t) ==> -COORD_LIMIT <= t.x <= COORD_LIMIT && -COORD_LIMIT <= t.y
            <= COORD_LIMIT,
    ensures
        r is Ok <==> vel_ok(boids@, i as int, *p, attract, dt as int),
        r matches Ok(a) ==> a == next_agent(boids@, i as int, *p, attract, dt as int) && agent_wf(a)
            && 0 <= a.position.x <= p.width && 0 <= a.position.y <= p.height,
        r matches Err(e) ==> e == TickError::Defect,
{
    let acc = calc_acceleration(boids, i, p, attract);
    let this: Agent = boids[i];
    proof {
        assert(agent_wf(boids@[i as int]));
        if velocity_in_range(integrated_velocity(this, acc.x as int, acc.y as int, dt as int)) {
            lemma_integrated_agent_wf(this, acc.x as int, acc.y as int, *p, dt as int);
        }
    }
    integrate_agent(this, acc, p, dt)
}

} // verus!

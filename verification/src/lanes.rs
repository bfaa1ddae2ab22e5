//! Struct-of-arrays lane strategy.
//!
//! The population is reorganised into four parallel component arrays
//! (position x/y, velocity x/y) and processed in lanes of `LANE`
//! agents: each lane accumulates its eight neighbour sums side by side
//! against one broadcast agent at a time, a computed neighbour mask
//! gating each slot's accumulators, and then finishes all eight results
//! through the same steering and integration contracts as the scalar
//! engine. The population size must be a multiple of the lane width.
//!
//! Lane equivalence is a contract, not a hope: `LaneEngine::tick`
//! produces exactly `next_gen(current)`, the same generation the
//! sequential and chunked strategies produce.

use vstd::prelude::*;

use crate::agent::Agent;
use crate::agent::Params;
use crate::agent::agent_wf;
use crate::agent::all_wf;
use crate::fixed::div_trunc;
use crate::fixed::lemma_div_t_bound;
use crate::steering::align_contrib;
use crate::steering::cohesion_contrib;
use crate::steering::count_sees;
use crate::steering::pos_sum;
use crate::steering::dist_sq;
use crate::engine::lemma_next_gen_wf;
use crate::engine::next_gen;
use crate::engine::tick_ok;
use crate::integrate::TickError;
use crate::integrate::integrate_agent;
use crate::integrate::next_agent;
use crate::integrate::vel_ok;
use crate::rng::random_agents;
use crate::rng::seeded_gen;
use crate::steering::SEP_WEIGHT;
use crate::steering::acceleration;
use crate::steering::attraction;
use crate::steering::sees;
use crate::steering::sep_contrib;
use crate::steering::sep_vec_sum;
use crate::steering::vel_sum;
use crate::vec2::COORD_LIMIT;
use crate::vec2::Vec2;
use crate::vec2::steer_vec;

verus! {

/// Agents processed side by side in one batch.
pub const LANE: usize = 8;

/// One generation in struct-of-arrays form.
pub struct LaneStore {
    pos_x: Vec<i64>,
    pos_y: Vec<i64>,
    vel_x: Vec<i64>,
    vel_y: Vec<i64>,
}

impl LaneStore {
    /// The stored generation, agent by agent.
    pub closed spec fn agents(self) -> Seq<Agent> {
        Seq::new(
            self.pos_x@.len(),
            |i: int|
                Agent {
                    position: Vec2 { x: self.pos_x@[i], y: self.pos_y@[i] },
                    velocity: Vec2 { x: self.vel_x@[i], y: self.vel_y@[i] },
                },
        )
    }

    /// The four component arrays walk in step.
    pub closed spec fn wf(self) -> bool {
        &&& self.pos_y@.len() == self.pos_x@.len()
        &&& self.vel_x@.len() == self.pos_x@.len()
        &&& self.vel_y@.len() == self.pos_x@.len()
    }

    /// Scatter an agent-of-structs generation into component arrays.
    pub fn from_agents(scalar: &Vec<Agent>) -> (r: LaneStore)
        ensures
            r.wf(),
            r.agents() == scalar@,
    {
        let n: usize = scalar.len();
        let mut pos_x: Vec<i64> = Vec::new();
        let mut pos_y: Vec<i64> = Vec::new();
        let mut vel_x: Vec<i64> = Vec::new();
        let mut vel_y: Vec<i64> = Vec::new();
        let mut i: usize = 0;
        while i < n
            invariant
                i <= n,
                n == scalar@.len(),
                pos_x@.len() == i,
                pos_y@.len() == i,
                vel_x@.len() == i,
                vel_y@.len() == i,
                forall|q: int|
                    0 <= q < i ==> #[trigger] pos_x@[q] == scalar@[q].position.x && pos_y@[q]
                        == scalar@[q].position.y && vel_x@[q] == scalar@[q].velocity.x && vel_y@[q]
                        == scalar@[q].velocity.y,
            decreases n - i,
        {
            let a: Agent = scalar[i];
            pos_x.push(a.position.x);
            pos_y.push(a.position.y);
            vel_x.push(a.velocity.x);
            vel_y.push(a.velocity.y);
            i = i + 1;
        }
        let r = LaneStore { pos_x, pos_y, vel_x, vel_y };
        proof {
            assert(r.agents() =~= scalar@);
        }
        r
    }

    /// A zeroed store of `len` agents, ready to be overwritten.
    pub fn with_length(len: usize) -> (r: LaneStore)
        ensures
            r.wf(),
            r.agents().len() == len,
    {
        let mut pos_x: Vec<i64> = Vec::new();
        let mut pos_y: Vec<i64> = Vec::new();
        let mut vel_x: Vec<i64> = Vec::new();
        let mut vel_y: Vec<i64> = Vec::new();
        let mut i: usize = 0;
        while i < len
            invariant
                i <= len,
                pos_x@.len() == i,
                pos_y@.len() == i,
                vel_x@.len() == i,
                vel_y@.len() == i,
            decreases len - i,
        {
            pos_x.push(0);
            pos_y.push(0);
            vel_x.push(0);
            vel_y.push(0);
            i = i + 1;
        }
        LaneStore { pos_x, pos_y, vel_x, vel_y }
    }

    /// Gather the component arrays back into an agent-of-structs
    /// generation.
    pub fn to_agents(&self) -> (r: Vec<Agent>)
        requires
            self.wf(),
        ensures
            r@ == self.agents(),
    {
        let n: usize = self.pos_x.len();
        let mut out: Vec<Agent> = Vec::new();
        let mut i: usize = 0;
        while i < n
            invariant
                self.wf(),
                i <= n,
                n == self.agents().len(),
                out@.len() == i,
                forall|q: int| 0 <= q < i ==> #[trigger] out@[q] == self.agents()[q],
            decreases n - i,
        {
            let a = Agent {
                position: Vec2 { x: self.pos_x[i], y: self.pos_y[i] },
                velocity: Vec2 { x: self.vel_x[i], y: self.vel_y[i] },
            };
            out.push(a);
            i = i + 1;
        }
        proof {
            assert(out@ =~= self.agents());
        }
        out
    }

    pub fn len(&self) -> (n: usize)
        ensures
            n == self.agents().len(),
    {
        self.pos_x.len()
    }

    pub fn num_lanes(&self) -> (n: usize)
        ensures
            n == self.agents().len() as int / LANE as int,
    {
        self.pos_x.len() / LANE
    }

    /// Read one agent out of the component arrays.
    fn slot(&self, i: usize) -> (a: Agent)
        requires
            self.wf(),
            i < self.agents().len(),
        ensures
            a == self.agents()[i as int],
    {
        Agent {
            position: Vec2 { x: self.pos_x[i], y: self.pos_y[i] },
            velocity: Vec2 { x: self.vel_x[i], y: self.vel_y[i] },
        }
    }

    /// Overwrite one agent in the component arrays.
    fn set_slot(&mut self, i: usize, a: Agent)
        requires
            old(self).wf(),
            i < old(self).agents().len(),
        ensures
            final(self).wf(),
            final(self).agents() == old(self).agents().update(i as int, a),
    {
        self.pos_x[i] = a.position.x;
        self.pos_y[i] = a.position.y;
        self.vel_x[i] = a.velocity.x;
        self.vel_y[i] = a.velocity.y;
        proof {
            assert(self.agents() =~= old(self).agents().update(i as int, a));
        }
    }
}

/// Alignment for the eight agents of one lane at once: every other
/// agent is broadcast against the lane, a compare-and-select mask
/// accumulates sums and counts side by side, and each slot finishes
/// through the shared steering tail.
#[verifier::rlimit(30)]
fn lane_alignment(store: &LaneStore, lane: usize, p: &Params) -> (r: (Vec<i64>, Vec<i64>))
    requires
        store.wf(),
        p.wf(),
        all_wf(store.agents()),
        (lane + 1) * LANE <= store.agents().len(),
    ensures
        r.0@.len() == LANE,
        r.1@.len() == LANE,
        forall|k: int|
            0 <= k < LANE ==> #[trigger] r.0@[k] as int == align_contrib(
                store.agents(),
                lane * LANE + k,
                *p,
            ).0 && r.1@[k] as int == align_contrib(store.agents(), lane * LANE + k, *p).1,
        forall|k: int|
            0 <= k < LANE ==> -p.max_force <= #[trigger] r.0@[k] <= p.max_force && -p.max_force
                <= r.1@[k] <= p.max_force,
{
    let ghost s = store.agents();
    let pr: i64 = p.perception_radius;
    proof {
        assert(0 <= (pr as i128) * (pr as i128) <= 0x4000_0000_0000_0000) by (nonlinear_arith)
            requires
                0 <= pr <= COORD_LIMIT,
        ;
    }
    let rr: i128 = (pr as i128) * (pr as i128);
    let n: usize = store.len();
    let base: usize = lane * LANE;
    let mut sx: Vec<i128> = Vec::new();
    let mut sy: Vec<i128> = Vec::new();
    let mut cnt: Vec<usize> = Vec::new();
    let mut k0: usize = 0;
    while k0 < LANE
        invariant
            k0 <= LANE,
            sx@.len() == k0,
            sy@.len() == k0,
            cnt@.len() == k0,
            forall|q: int| 0 <= q < k0 ==> #[trigger] sx@[q] == 0,
            forall|q: int| 0 <= q < k0 ==> #[trigger] sy@[q] == 0,
            forall|q: int| 0 <= q < k0 ==> #[trigger] cnt@[q] == 0,
        decreases LANE - k0,
    {
        sx.push(0);
        sy.push(0);
        cnt.push(0);
        k0 = k0 + 1;
    }
    let mut j: usize = 0;
    while j < n
        invariant
            store.wf(),
            p.wf(),
            all_wf(s),
            s == store.agents(),
            base == lane * LANE,
            base + LANE <= n,
            n == s.len(),
            pr == p.perception_radius,
            rr == (pr as int) * (pr as int),
            sx@.len() == LANE,
            sy@.len() == LANE,
            cnt@.len() == LANE,
            j <= n,
            forall|q: int|
                0 <= q < LANE ==> #[trigger] cnt@[q] as int == count_sees(
                    s,
                    base + q,
                    pr as int,
                    j as int,
                ) && cnt@[q] <= j,
            forall|q: int|
                0 <= q < LANE ==> #[trigger] sx@[q] as int == vel_sum(
                    s,
                    base + q,
                    pr as int,
                    j as int,
                ).0 && -((cnt@[q] as int) * (COORD_LIMIT as int)) <= sx@[q] as int <= (
                cnt@[q] as int) * (COORD_LIMIT as int),
            forall|q: int|
                0 <= q < LANE ==> #[trigger] sy@[q] as int == vel_sum(
                    s,
                    base + q,
                    pr as int,
                    j as int,
                ).1 && -((cnt@[q] as int) * (COORD_LIMIT as int)) <= sy@[q] as int <= (
                cnt@[q] as int) * (COORD_LIMIT as int),
        decreases n - j,
    {
        let ox: i64 = store.pos_x[j];
        let oy: i64 = store.pos_y[j];
        let ovx: i64 = store.vel_x[j];
        let ovy: i64 = store.vel_y[j];
        proof {
            assert(agent_wf(s[j as int]));
        }
        let mut k: usize = 0;
        while k < LANE
            invariant
                store.wf(),
                p.wf(),
                all_wf(s),
                s == store.agents(),
                base == lane * LANE,
                base + LANE <= n,
                n == s.len(),
                pr == p.perception_radius,
                rr == (pr as int) * (pr as int),
                sx@.len() == LANE,
                sy@.len() == LANE,
                cnt@.len() == LANE,
                j < n,
                k <= LANE,
                ox == s[j as int].position.x,
                oy == s[j as int].position.y,
                ovx == s[j as int].velocity.x,
                ovy == s[j as int].velocity.y,
                forall|q: int|
                    0 <= q < k ==> #[trigger] cnt@[q] as int == count_sees(
                        s,
                        base + q,
                        pr as int,
                        j as int + 1,
                    ) && cnt@[q] <= j + 1,
                forall|q: int|
                    k <= q < LANE ==> #[trigger] cnt@[q] as int == count_sees(
                        s,
                        base + q,
                        pr as int,
                        j as int,
                    ) && cnt@[q] <= j,
                forall|q: int|
                    0 <= q < k ==> #[trigger] sx@[q] as int == vel_sum(
                        s,
                        base + q,
                        pr as int,
                        j as int + 1,
                    ).0 && -((cnt@[q] as int) * (COORD_LIMIT as int)) <= sx@[q] as int <= (
                    cnt@[q] as int) * (COORD_LIMIT as int),
                forall|q: int|
                    k <= q < LANE ==> #[trigger] sx@[q] as int == vel_sum(
                        s,
                        base + q,
                        pr as int,
                        j as int,
                    ).0 && -((cnt@[q] as int) * (COORD_LIMIT as int)) <= sx@[q] as int <= (
                    cnt@[q] as int) * (COORD_LIMIT as int),
                forall|q: int|
                    0 <= q < k ==> #[trigger] sy@[q] as int == vel_sum(
                        s,
                        base + q,
                        pr as int,
                        j as int + 1,
                    ).1 && -((cnt@[q] as int) * (COORD_LIMIT as int)) <= sy@[q] as int <= (
                    cnt@[q] as int) * (COORD_LIMIT as int),
                forall|q: int|
                    k <= q < LANE ==> #[trigger] sy@[q] as int == vel_sum(
                        s,
                        base + q,
                        pr as int,
                        j as int,
                    ).1 && -((cnt@[q] as int) * (COORD_LIMIT as int)) <= sy@[q] as int <= (
                    cnt@[q] as int) * (COORD_LIMIT as int),
            decreases LANE - k,
        {
            let px: i64 = store.pos_x[base + k];
            let py: i64 = store.pos_y[base + k];
            proof {
                assert(agent_wf(s[base + k as int]));
            }
            let dx: i64 = ox - px;
            let dy: i64 = oy - py;
            proof {
                assert(0 <= (dx as i128) * (dx as i128) <= 0x1_0000_0000_0000_0000 && 0 <= (
                dy as i128) * (dy as i128) <= 0x1_0000_0000_0000_0000 && (dx as i128) * (
                dx as i128) + (dy as i128) * (dy as i128) == dist_sq(
                    s[base + k as int],
                    s[j as int],
                )) by (nonlinear_arith)
                    requires
                        -0x1_0000_0000 <= dx <= 0x1_0000_0000,
                        -0x1_0000_0000 <= dy <= 0x1_0000_0000,
                        dx as int == s[j as int].position.x - s[base + k as int].position.x,
                        dy as int == s[j as int].position.y - s[base + k as int].position.y,
                ;
            }
            let d2: i128 = (dx as i128) * (dx as i128) + (dy as i128) * (dy as i128);
            let m: bool = d2 > 0 && d2 < rr;
            proof {
                if j == base + k {
                    assert(dx == 0 && dy == 0);
                    assert(d2 == 0) by (nonlinear_arith)
                        requires
                            d2 == (dx as i128) * (dx as i128) + (dy as i128) * (dy as i128),
                            dx == 0,
                            dy == 0,
                    ;
                }
                assert(m == sees(s, base + k as int, j as int, pr as int));
            }
            if m {
                sx[k] = sx[k] + ovx as i128;
                sy[k] = sy[k] + ovy as i128;
                cnt[k] = cnt[k] + 1;
            }
            k = k + 1;
        }
        j = j + 1;
    }
    let mut rx: Vec<i64> = Vec::new();
    let mut ry: Vec<i64> = Vec::new();
    let mut k: usize = 0;
    while k < LANE
        invariant
            store.wf(),
            p.wf(),
            all_wf(s),
            s == store.agents(),
            base == lane * LANE,
            base + LANE <= n,
            n == s.len(),
            pr == p.perception_radius,
            sx@.len() == LANE,
            sy@.len() == LANE,
            cnt@.len() == LANE,
            k <= LANE,
            rx@.len() == k,
            ry@.len() == k,
            forall|q: int|
                0 <= q < LANE ==> #[trigger] cnt@[q] as int == count_sees(
                    s,
                    base + q,
                    pr as int,
                    n as int,
                ),
            forall|q: int|
                0 <= q < LANE ==> #[trigger] sx@[q] as int == vel_sum(s, base + q, pr as int, n as int).0
                    && -((cnt@[q] as int) * (COORD_LIMIT as int)) <= sx@[q] as int <= (
                cnt@[q] as int) * (COORD_LIMIT as int),
            forall|q: int|
                0 <= q < LANE ==> #[trigger] sy@[q] as int == vel_sum(s, base + q, pr as int, n as int).1
                    && -((cnt@[q] as int) * (COORD_LIMIT as int)) <= sy@[q] as int <= (
                cnt@[q] as int) * (COORD_LIMIT as int),
            forall|q: int|
                0 <= q < k ==> #[trigger] rx@[q] as int == align_contrib(s, base + q, *p).0
                    && ry@[q] as int == align_contrib(s, base + q, *p).1,
            forall|q: int|
                0 <= q < k ==> -p.max_force <= #[trigger] rx@[q] <= p.max_force && -p.max_force
                    <= ry@[q] <= p.max_force,
        decreases LANE - k,
    {
        let c: usize = cnt[k];
        if c == 0 {
            rx.push(0);
            ry.push(0);
            proof {
                assert(rx@[k as int] == 0 && ry@[k as int] == 0);
            }
        } else {
            proof {
                lemma_div_t_bound(sx@[k as int] as int, c as int, COORD_LIMIT as int);
                lemma_div_t_bound(sy@[k as int] as int, c as int, COORD_LIMIT as int);
                assert(agent_wf(s[base + k as int]));
            }
            let ax: i64 = div_trunc(sx[k], c as i128) as i64;
            let ay: i64 = div_trunc(sy[k], c as i128) as i64;
            let v = steer_vec(
                ax,
                ay,
                store.vel_x[base + k],
                store.vel_y[base + k],
                p.max_speed,
                p.max_force,
            );
            rx.push(v.x);
            ry.push(v.y);
            proof {
                assert(rx@[k as int] == v.x && ry@[k as int] == v.y);
            }
        }
        k = k + 1;
    }
    (rx, ry)
}
/// Separation for the eight agents of one lane at once: the weighted
/// pushes away from close neighbours accumulate under the same
/// broadcast-and-mask pattern.
#[verifier::rlimit(30)]
fn lane_separation(store: &LaneStore, lane: usize, p: &Params) -> (r: (Vec<i64>, Vec<i64>))
    requires
        store.wf(),
        p.wf(),
        all_wf(store.agents()),
        (lane + 1) * LANE <= store.agents().len(),
    ensures
        r.0@.len() == LANE,
        r.1@.len() == LANE,
        forall|k: int|
            0 <= k < LANE ==> #[trigger] r.0@[k] as int == sep_contrib(
                store.agents(),
                lane * LANE + k,
                *p,
            ).0 && r.1@[k] as int == sep_contrib(store.agents(), lane * LANE + k, *p).1,
        forall|k: int|
            0 <= k < LANE ==> -p.max_force <= #[trigger] r.0@[k] <= p.max_force && -p.max_force
                <= r.1@[k] <= p.max_force,
{
    let ghost s = store.agents();
    let sr: i64 = p.separation_radius;
    proof {
        assert(0 <= (sr as i128) * (sr as i128) <= 0x4000_0000_0000_0000) by (nonlinear_arith)
            requires
                0 <= sr <= COORD_LIMIT,
        ;
    }
    let rr: i128 = (sr as i128) * (sr as i128);
    let n: usize = store.len();
    let base: usize = lane * LANE;
    let mut sx: Vec<i128> = Vec::new();
    let mut sy: Vec<i128> = Vec::new();
    let mut cnt: Vec<usize> = Vec::new();
    let mut k0: usize = 0;
    while k0 < LANE
        invariant
            k0 <= LANE,
            sx@.len() == k0,
            sy@.len() == k0,
            cnt@.len() == k0,
            forall|q: int| 0 <= q < k0 ==> #[trigger] sx@[q] == 0,
            forall|q: int| 0 <= q < k0 ==> #[trigger] sy@[q] == 0,
            forall|q: int| 0 <= q < k0 ==> #[trigger] cnt@[q] == 0,
        decreases LANE - k0,
    {
        sx.push(0);
        sy.push(0);
        cnt.push(0);
        k0 = k0 + 1;
    }
    let mut j: usize = 0;
    while j < n
        invariant
            store.wf(),
            p.wf(),
            all_wf(s),
            s == store.agents(),
            base == lane * LANE,
            base + LANE <= n,
            n == s.len(),
            sr == p.separation_radius,
            rr == (sr as int) * (sr as int),
            sx@.len() == LANE,
            sy@.len() == LANE,
            cnt@.len() == LANE,
            j <= n,
            forall|q: int|
                0 <= q < LANE ==> #[trigger] cnt@[q] as int == count_sees(
                    s,
                    base + q,
                    sr as int,
                    j as int,
                ) && cnt@[q] <= j,
            forall|q: int|
                0 <= q < LANE ==> #[trigger] sx@[q] as int == sep_vec_sum(
                    s,
                    base + q,
                    sr as int,
                    j as int,
                ).0 && -((cnt@[q] as int) * (SEP_WEIGHT as int)) <= sx@[q] as int <= (
                cnt@[q] as int) * (SEP_WEIGHT as int),
            forall|q: int|
                0 <= q < LANE ==> #[trigger] sy@[q] as int == sep_vec_sum(
                    s,
                    base + q,
                    sr as int,
                    j as int,
                ).1 && -((cnt@[q] as int) * (SEP_WEIGHT as int)) <= sy@[q] as int <= (
                cnt@[q] as int) * (SEP_WEIGHT as int),
        decreases n - j,
    {
        let ox: i64 = store.pos_x[j];
        let oy: i64 = store.pos_y[j];
        proof {
            assert(agent_wf(s[j as int]));
        }
        let mut k: usize = 0;
        while k < LANE
            invariant
                store.wf(),
                p.wf(),
                all_wf(s),
                s == store.agents(),
                base == lane * LANE,
                base + LANE <= n,
                n == s.len(),
                sr == p.separation_radius,
                rr == (sr as int) * (sr as int),
                sx@.len() == LANE,
                sy@.len() == LANE,
                cnt@.len() == LANE,
                j < n,
                k <= LANE,
                ox == s[j as int].position.x,
                oy == s[j as int].position.y,
                forall|q: int|
                    0 <= q < k ==> #[trigger] cnt@[q] as int == count_sees(
                        s,
                        base + q,
                        sr as int,
                        j as int + 1,
                    ) && cnt@[q] <= j + 1,
                forall|q: int|
                    k <= q < LANE ==> #[trigger] cnt@[q] as int == count_sees(
                        s,
                        base + q,
                        sr as int,
                        j as int,
                    ) && cnt@[q] <= j,
                forall|q: int|
                    0 <= q < k ==> #[trigger] sx@[q] as int == sep_vec_sum(
                        s,
                        base + q,
                        sr as int,
                        j as int + 1,
                    ).0 && -((cnt@[q] as int) * (SEP_WEIGHT as int)) <= sx@[q] as int <= (
                    cnt@[q] as int) * (SEP_WEIGHT as int),
                forall|q: int|
                    k <= q < LANE ==> #[trigger] sx@[q] as int == sep_vec_sum(
                        s,
                        base + q,
                        sr as int,
                        j as int,
                    ).0 && -((cnt@[q] as int) * (SEP_WEIGHT as int)) <= sx@[q] as int <= (
                    cnt@[q] as int) * (SEP_WEIGHT as int),
                forall|q: int|
                    0 <= q < k ==> #[trigger] sy@[q] as int == sep_vec_sum(
                        s,
                        base + q,
                        sr as int,
                        j as int + 1,
                    ).1 && -((cnt@[q] as int) * (SEP_WEIGHT as int)) <= sy@[q] as int <= (
                    cnt@[q] as int) * (SEP_WEIGHT as int),
                forall|q: int|
                    k <= q < LANE ==> #[trigger] sy@[q] as int == sep_vec_sum(
                        s,
                        base + q,
                        sr as int,
                        j as int,
                    ).1 && -((cnt@[q] as int) * (SEP_WEIGHT as int)) <= sy@[q] as int <= (
                    cnt@[q] as int) * (SEP_WEIGHT as int),
            decreases LANE - k,
        {
            let px: i64 = store.pos_x[base + k];
            let py: i64 = store.pos_y[base + k];
            proof {
                assert(agent_wf(s[base + k as int]));
            }
            let dx: i64 = px - ox;
            let dy: i64 = py - oy;
            proof {
                assert(0 <= (dx as i128) * (dx as i128) <= 0x1_0000_0000_0000_0000 && 0 <= (
                dy as i128) * (dy as i128) <= 0x1_0000_0000_0000_0000 && (dx as i128) * (
                dx as i128) + (dy as i128) * (dy as i128) == dist_sq(
                    s[base + k as int],
                    s[j as int],
                )) by (nonlinear_arith)
                    requires
                        -0x1_0000_0000 <= dx <= 0x1_0000_0000,
                        -0x1_0000_0000 <= dy <= 0x1_0000_0000,
                        dx as int == s[base + k as int].position.x - s[j as int].position.x,
                        dy as int == s[base + k as int].position.y - s[j as int].position.y,
                ;
            }
            let d2: i128 = (dx as i128) * (dx as i128) + (dy as i128) * (dy as i128);
            let m: bool = d2 > 0 && d2 < rr;
            proof {
                if j == base + k {
                    assert(dx == 0 && dy == 0);
                    assert(d2 == 0) by (nonlinear_arith)
                        requires
                            d2 == (dx as i128) * (dx as i128) + (dy as i128) * (dy as i128),
                            dx == 0,
                            dy == 0,
                    ;
                }
                assert(m == sees(s, base + k as int, j as int, sr as int));
            }
            if m {
                proof {
                    assert(-((SEP_WEIGHT as int) * d2) <= (dx as i128) * (SEP_WEIGHT as i128) <= (
                    SEP_WEIGHT as int) * d2 && -((SEP_WEIGHT as int) * d2) <= (dy as i128) * (
                    SEP_WEIGHT as i128) <= (SEP_WEIGHT as int) * d2) by (nonlinear_arith)
                        requires
                            d2 == (dx as i128) * (dx as i128) + (dy as i128) * (dy as i128),
                            d2 > 0,
                            -0x1_0000_0000 <= dx <= 0x1_0000_0000,
                            -0x1_0000_0000 <= dy <= 0x1_0000_0000,
                    ;
                    lemma_div_t_bound(
                        (dx as int) * (SEP_WEIGHT as int),
                        d2 as int,
                        SEP_WEIGHT as int,
                    );
                    lemma_div_t_bound(
                        (dy as int) * (SEP_WEIGHT as int),
                        d2 as int,
                        SEP_WEIGHT as int,
                    );
                }
                let tx: i128 = div_trunc((dx as i128) * (SEP_WEIGHT as i128), d2);
                let ty: i128 = div_trunc((dy as i128) * (SEP_WEIGHT as i128), d2);
                sx[k] = sx[k] + tx;
                sy[k] = sy[k] + ty;
                cnt[k] = cnt[k] + 1;
            }
            k = k + 1;
        }
        j = j + 1;
    }
    let mut rx: Vec<i64> = Vec::new();
    let mut ry: Vec<i64> = Vec::new();
    let mut k: usize = 0;
    while k < LANE
        invariant
            store.wf(),
            p.wf(),
            all_wf(s),
            s == store.agents(),
            base == lane * LANE,
            base + LANE <= n,
            n == s.len(),
            sr == p.separation_radius,
            sx@.len() == LANE,
            sy@.len() == LANE,
            cnt@.len() == LANE,
            k <= LANE,
            rx@.len() == k,
            ry@.len() == k,
            forall|q: int|
                0 <= q < LANE ==> #[trigger] cnt@[q] as int == count_sees(
                    s,
                    base + q,
                    sr as int,
                    n as int,
                ),
            forall|q: int|
                0 <= q < LANE ==> #[trigger] sx@[q] as int == sep_vec_sum(s, base + q, sr as int, n as int).0
                    && -((cnt@[q] as int) * (SEP_WEIGHT as int)) <= sx@[q] as int <= (
                cnt@[q] as int) * (SEP_WEIGHT as int),
            forall|q: int|
                0 <= q < LANE ==> #[trigger] sy@[q] as int == sep_vec_sum(s, base + q, sr as int, n as int).1
                    && -((cnt@[q] as int) * (SEP_WEIGHT as int)) <= sy@[q] as int <= (
                cnt@[q] as int) * (SEP_WEIGHT as int),
            forall|q: int|
                0 <= q < k ==> #[trigger] rx@[q] as int == sep_contrib(s, base + q, *p).0
                    && ry@[q] as int == sep_contrib(s, base + q, *p).1,
            forall|q: int|
                0 <= q < k ==> -p.max_force <= #[trigger] rx@[q] <= p.max_force && -p.max_force
                    <= ry@[q] <= p.max_force,
        decreases LANE - k,
    {
        let c: usize = cnt[k];
        if c == 0 {
            rx.push(0);
            ry.push(0);
            proof {
                assert(rx@[k as int] == 0 && ry@[k as int] == 0);
            }
        } else {
            proof {
                lemma_div_t_bound(sx@[k as int] as int, c as int, SEP_WEIGHT as int);
                lemma_div_t_bound(sy@[k as int] as int, c as int, SEP_WEIGHT as int);
                assert(agent_wf(s[base + k as int]));
            }
            let ax: i64 = div_trunc(sx[k], c as i128) as i64;
            let ay: i64 = div_trunc(sy[k], c as i128) as i64;
            let v = steer_vec(
                ax,
                ay,
                store.vel_x[base + k],
                store.vel_y[base + k],
                p.max_speed,
                p.max_force,
            );
            rx.push(v.x);
            ry.push(v.y);
            proof {
                assert(rx@[k as int] == v.x && ry@[k as int] == v.y);
            }
        }
        k = k + 1;
    }
    (rx, ry)
}

/// Cohesion for the eight agents of one lane at once, accumulating
/// neighbour positions with the same broadcast-and-mask pattern.
#[verifier::rlimit(30)]
fn lane_cohesion(store: &LaneStore, lane: usize, p: &Params) -> (r: (Vec<i64>, Vec<i64>))
    requires
        store.wf(),
        p.wf(),
        all_wf(store.agents()),
        (lane + 1) * LANE <= store.agents().len(),
    ensures
        r.0@.len() == LANE,
        r.1@.len() == LANE,
        forall|k: int|
            0 <= k < LANE ==> #[trigger] r.0@[k] as int == cohesion_contrib(
                store.agents(),
                lane * LANE + k,
                *p,
            ).0 && r.1@[k] as int == cohesion_contrib(store.agents(), lane * LANE + k, *p).1,
        forall|k: int|
            0 <= k < LANE ==> -p.max_force <= #[trigger] r.0@[k] <= p.max_force && -p.max_force
                <= r.1@[k] <= p.max_force,
{
    let ghost s = store.agents();
    let pr: i64 = p.perception_radius;
    proof {
        assert(0 <= (pr as i128) * (pr as i128) <= 0x4000_0000_0000_0000) by (nonlinear_arith)
            requires
                0 <= pr <= COORD_LIMIT,
        ;
    }
    let rr: i128 = (pr as i128) * (pr as i128);
    let n: usize = store.len();
    let base: usize = lane * LANE;
    let mut sx: Vec<i128> = Vec::new();
    let mut sy: Vec<i128> = Vec::new();
    let mut cnt: Vec<usize> = Vec::new();
    let mut k0: usize = 0;
    while k0 < LANE
        invariant
            k0 <= LANE,
            sx@.len() == k0,
            sy@.len() == k0,
            cnt@.len() == k0,
            forall|q: int| 0 <= q < k0 ==> #[trigger] sx@[q] == 0,
            forall|q: int| 0 <= q < k0 ==> #[trigger] sy@[q] == 0,
            forall|q: int| 0 <= q < k0 ==> #[trigger] cnt@[q] == 0,
        decreases LANE - k0,
    {
        sx.push(0);
        sy.push(0);
        cnt.push(0);
        k0 = k0 + 1;
    }
    let mut j: usize = 0;
    while j < n
        invariant
            store.wf(),
            p.wf(),
            all_wf(s),
            s == store.agents(),
            base == lane * LANE,
            base + LANE <= n,
            n == s.len(),
            pr == p.perception_radius,
            rr == (pr as int) * (pr as int),
            sx@.len() == LANE,
            sy@.len() == LANE,
            cnt@.len() == LANE,
            j <= n,
            forall|q: int|
                0 <= q < LANE ==> #[trigger] cnt@[q] as int == count_sees(
                    s,
                    base + q,
                    pr as int,
                    j as int,
                ) && cnt@[q] <= j,
            forall|q: int|
                0 <= q < LANE ==> #[trigger] sx@[q] as int == pos_sum(
                    s,
                    base + q,
                    pr as int,
                    j as int,
                ).0 && -((cnt@[q] as int) * (COORD_LIMIT as int)) <= sx@[q] as int <= (
                cnt@[q] as int) * (COORD_LIMIT as int),
            forall|q: int|
                0 <= q < LANE ==> #[trigger] sy@[q] as int == pos_sum(
                    s,
                    base + q,
                    pr as int,
                    j as int,
                ).1 && -((cnt@[q] as int) * (COORD_LIMIT as int)) <= sy@[q] as int <= (
                cnt@[q] as int) * (COORD_LIMIT as int),
        decreases n - j,
    {
        let ox: i64 = store.pos_x[j];
        let oy: i64 = store.pos_y[j];
        proof {
            assert(agent_wf(s[j as int]));
        }
        let mut k: usize = 0;
        while k < LANE
            invariant
                store.wf(),
                p.wf(),
                all_wf(s),
                s == store.agents(),
                base == lane * LANE,
                base + LANE <= n,
                n == s.len(),
                pr == p.perception_radius,
                rr == (pr as int) * (pr as int),
                sx@.len() == LANE,
                sy@.len() == LANE,
                cnt@.len() == LANE,
                j < n,
                k <= LANE,
                ox == s[j as int].position.x,
                oy == s[j as int].position.y,
                forall|q: int|
                    0 <= q < k ==> #[trigger] cnt@[q] as int == count_sees(
                        s,
                        base + q,
                        pr as int,
                        j as int + 1,
                    ) && cnt@[q] <= j + 1,
                forall|q: int|
                    k <= q < LANE ==> #[trigger] cnt@[q] as int == count_sees(
                        s,
                        base + q,
                        pr as int,
                        j as int,
                    ) && cnt@[q] <= j,
                forall|q: int|
                    0 <= q < k ==> #[trigger] sx@[q] as int == pos_sum(
                        s,
                        base + q,
                        pr as int,
                        j as int + 1,
                    ).0 && -((cnt@[q] as int) * (COORD_LIMIT as int)) <= sx@[q] as int <= (
                    cnt@[q] as int) * (COORD_LIMIT as int),
                forall|q: int|
                    k <= q < LANE ==> #[trigger] sx@[q] as int == pos_sum(
                        s,
                        base + q,
                        pr as int,
                        j as int,
                    ).0 && -((cnt@[q] as int) * (COORD_LIMIT as int)) <= sx@[q] as int <= (
                    cnt@[q] as int) * (COORD_LIMIT as int),
                forall|q: int|
                    0 <= q < k ==> #[trigger] sy@[q] as int == pos_sum(
                        s,
                        base + q,
                        pr as int,
                        j as int + 1,
                    ).1 && -((cnt@[q] as int) * (COORD_LIMIT as int)) <= sy@[q] as int <= (
                    cnt@[q] as int) * (COORD_LIMIT as int),
                forall|q: int|
                    k <= q < LANE ==> #[trigger] sy@[q] as int == pos_sum(
                        s,
                        base + q,
                        pr as int,
                        j as int,
                    ).1 && -((cnt@[q] as int) * (COORD_LIMIT as int)) <= sy@[q] as int <= (
                    cnt@[q] as int) * (COORD_LIMIT as int),
            decreases LANE - k,
        {
            let px: i64 = store.pos_x[base + k];
            let py: i64 = store.pos_y[base + k];
            proof {
                assert(agent_wf(s[base + k as int]));
            }
            let dx: i64 = ox - px;
            let dy: i64 = oy - py;
            proof {
                assert(0 <= (dx as i128) * (dx as i128) <= 0x1_0000_0000_0000_0000 && 0 <= (
                dy as i128) * (dy as i128) <= 0x1_0000_0000_0000_0000 && (dx as i128) * (
                dx as i128) + (dy as i128) * (dy as i128) == dist_sq(
                    s[base + k as int],
                    s[j as int],
                )) by (nonlinear_arith)
                    requires
                        -0x1_0000_0000 <= dx <= 0x1_0000_0000,
                        -0x1_0000_0000 <= dy <= 0x1_0000_0000,
                        dx as int == s[j as int].position.x - s[base + k as int].position.x,
                        dy as int == s[j as int].position.y - s[base + k as int].position.y,
                ;
            }
            let d2: i128 = (dx as i128) * (dx as i128) + (dy as i128) * (dy as i128);
            let m: bool = d2 > 0 && d2 < rr;
            proof {
                if j == base + k {
                    assert(dx == 0 && dy == 0);
                    assert(d2 == 0) by (nonlinear_arith)
                        requires
                            d2 == (dx as i128) * (dx as i128) + (dy as i128) * (dy as i128),
                            dx == 0,
                            dy == 0,
                    ;
                }
                assert(m == sees(s, base + k as int, j as int, pr as int));
            }
            if m {
                sx[k] = sx[k] + ox as i128;
                sy[k] = sy[k] + oy as i128;
                cnt[k] = cnt[k] + 1;
            }
            k = k + 1;
        }
        j = j + 1;
    }
    let mut rx: Vec<i64> = Vec::new();
    let mut ry: Vec<i64> = Vec::new();
    let mut k: usize = 0;
    while k < LANE
        invariant
            store.wf(),
            p.wf(),
            all_wf(s),
            s == store.agents(),
            base == lane * LANE,
            base + LANE <= n,
            n == s.len(),
            pr == p.perception_radius,
            sx@.len() == LANE,
            sy@.len() == LANE,
            cnt@.len() == LANE,
            k <= LANE,
            rx@.len() == k,
            ry@.len() == k,
            forall|q: int|
                0 <= q < LANE ==> #[trigger] cnt@[q] as int == count_sees(
                    s,
                    base + q,
                    pr as int,
                    n as int,
                ),
            forall|q: int|
                0 <= q < LANE ==> #[trigger] sx@[q] as int == pos_sum(s, base + q, pr as int, n as int).0
                    && -((cnt@[q] as int) * (COORD_LIMIT as int)) <= sx@[q] as int <= (
                cnt@[q] as int) * (COORD_LIMIT as int),
            forall|q: int|
                0 <= q < LANE ==> #[trigger] sy@[q] as int == pos_sum(s, base + q, pr as int, n as int).1
                    && -((cnt@[q] as int) * (COORD_LIMIT as int)) <= sy@[q] as int <= (
                cnt@[q] as int) * (COORD_LIMIT as int),
            forall|q: int|
                0 <= q < k ==> #[trigger] rx@[q] as int == cohesion_contrib(s, base + q, *p).0
                    && ry@[q] as int == cohesion_contrib(s, base + q, *p).1,
            forall|q: int|
                0 <= q < k ==> -p.max_force <= #[trigger] rx@[q] <= p.max_force && -p.max_force
                    <= ry@[q] <= p.max_force,
        decreases LANE - k,
    {
        let c: usize = cnt[k];
        if c == 0 {
            rx.push(0);
            ry.push(0);
            proof {
                assert(rx@[k as int] == 0 && ry@[k as int] == 0);
            }
        } else {
            proof {
                lemma_div_t_bound(sx@[k as int] as int, c as int, COORD_LIMIT as int);
                lemma_div_t_bound(sy@[k as int] as int, c as int, COORD_LIMIT as int);
                assert(agent_wf(s[base + k as int]));
            }
            let ax: i64 = div_trunc(sx[k], c as i128) as i64;
            let ay: i64 = div_trunc(sy[k], c as i128) as i64;
            let v = steer_vec(
                ax - store.pos_x[base + k],
                ay - store.pos_y[base + k],
                store.vel_x[base + k],
                store.vel_y[base + k],
                p.max_speed,
                p.max_force,
            );
            rx.push(v.x);
            ry.push(v.y);
            proof {
                assert(rx@[k as int] == v.x && ry@[k as int] == v.y);
            }
        }
        k = k + 1;
    }
    (rx, ry)
}

/// Total acceleration for one lane: the three rule batches summed slot
/// by slot, plus the attraction term when a target is given.
fn lane_acceleration(store: &LaneStore, lane: usize, p: &Params, attract: Option<Vec2>) -> (r: (
    Vec<i64>,
    Vec<i64>,
))
    requires
        store.wf(),
        p.wf(),
        all_wf(store.agents()),
        (lane + 1) * LANE <= store.agents().len(),
        attract matches Some(t) ==> -COORD_LIMIT <= t.x <= COORD_LIMIT && -COORD_LIMIT <= t.y
            <= COORD_LIMIT,
    ensures
        r.0@.len() == LANE,
        r.1@.len() == LANE,
        forall|k: int|
            0 <= k < LANE ==> #[trigger] r.0@[k] as int == acceleration(
                store.agents(),
                lane * LANE + k,
                *p,
                attract,
            ).0 && r.1@[k] as int == acceleration(store.agents(), lane * LANE + k, *p, attract).1,
        forall|k: int|
            0 <= k < LANE ==> -0x2_0000_0000 <= #[trigger] r.0@[k] <= 0x2_0000_0000
                && -0x2_0000_0000 <= r.1@[k] <= 0x2_0000_0000,
{
    let ghost s = store.agents();
    let n: usize = store.len();
    let (alx, aly) = lane_alignment(store, lane, p);
    let (cox, coy) = lane_cohesion(store, lane, p);
    let (sex, sey) = lane_separation(store, lane, p);
    let base: usize = lane * LANE;
    let mut rx: Vec<i64> = Vec::new();
    let mut ry: Vec<i64> = Vec::new();
    let mut k: usize = 0;
    while k < LANE
        invariant
            store.wf(),
            p.wf(),
            all_wf(s),
            s == store.agents(),
            base == lane * LANE,
            base + LANE <= s.len(),
            attract matches Some(t) ==> -COORD_LIMIT <= t.x <= COORD_LIMIT && -COORD_LIMIT <= t.y
                <= COORD_LIMIT,
            alx@.len() == LANE,
            aly@.len() == LANE,
            cox@.len() == LANE,
            coy@.len() == LANE,
            sex@.len() == LANE,
            sey@.len() == LANE,
            forall|q: int|
                0 <= q < LANE ==> #[trigger] alx@[q] as int == align_contrib(s, base + q, *p).0
                    && aly@[q] as int == align_contrib(s, base + q, *p).1,
            forall|q: int|
                0 <= q < LANE ==> -p.max_force <= #[trigger] alx@[q] <= p.max_force && -p.max_force
                    <= aly@[q] <= p.max_force,
            forall|q: int|
                0 <= q < LANE ==> #[trigger] cox@[q] as int == cohesion_contrib(s, base + q, *p).0
                    && coy@[q] as int == cohesion_contrib(s, base + q, *p).1,
            forall|q: int|
                0 <= q < LANE ==> -p.max_force <= #[trigger] cox@[q] <= p.max_force && -p.max_force
                    <= coy@[q] <= p.max_force,
            forall|q: int|
                0 <= q < LANE ==> #[trigger] sex@[q] as int == sep_contrib(s, base + q, *p).0
                    && sey@[q] as int == sep_contrib(s, base + q, *p).1,
            forall|q: int|
                0 <= q < LANE ==> -p.max_force <= #[trigger] sex@[q] <= p.max_force && -p.max_force
                    <= sey@[q] <= p.max_force,
            k <= LANE,
            rx@.len() == k,
            ry@.len() == k,
            forall|q: int|
                0 <= q < k ==> #[trigger] rx@[q] as int == acceleration(s, base + q, *p, attract).0
                    && ry@[q] as int == acceleration(s, base + q, *p, attract).1,
            forall|q: int|
                0 <= q < k ==> -0x2_0000_0000 <= #[trigger] rx@[q] <= 0x2_0000_0000
                    && -0x2_0000_0000 <= ry@[q] <= 0x2_0000_0000,
        decreases LANE - k,
    {
        let mut ax: i64 = alx[k] + cox[k] + sex[k];
        let mut ay: i64 = aly[k] + coy[k] + sey[k];
        match attract {
            Some(t) => {
                proof {
                    assert(agent_wf(s[base + k as int]));
                }
                let this: Agent = store.slot(base + k);
                let at = attraction(&this, t, p);
                ax = ax + at.x;
                ay = ay + at.y;
            },
            None => {},
        }
        rx.push(ax);
        ry.push(ay);
        proof {
            assert(rx@[k as int] == ax && ry@[k as int] == ay);
        }
        k = k + 1;
    }
    (rx, ry)
}

/// Integrate one lane into the next store, reading only the current
/// one; the eight slots go through the shared integrator. Fails exactly
/// when a slot of the lane produces an unrepresentable velocity.
fn lane_step(
    cur: &LaneStore,
    nxt: &mut LaneStore,
    lane: usize,
    p: &Params,
    attract: Option<Vec2>,
    dt: i64,
) -> (r: Result<(), TickError>)
    requires
        cur.wf(),
        p.wf(),
        all_wf(cur.agents()),
        (lane + 1) * LANE <= cur.agents().len(),
        old(nxt).wf(),
        old(nxt).agents().len() == cur.agents().len(),
        0 <= dt <= COORD_LIMIT,
        attract matches Some(t) ==> -COORD_LIMIT <= t.x <= COORD_LIMIT && -COORD_LIMIT <= t.y
            <= COORD_LIMIT,
    ensures
        final(nxt).wf(),
        final(nxt).agents().len() == cur.agents().len(),
        r is Ok <==> (forall|k: int|
            0 <= k < LANE ==> #[trigger] vel_ok(cur.agents(), lane * LANE + k, *p, attract, dt as int)),
        r is Ok ==> (forall|q: int|
            0 <= q < LANE ==> #[trigger] final(nxt).agents()[lane * LANE + q] == next_agent(
                cur.agents(),
                lane * LANE + q,
                *p,
                attract,
                dt as int,
            )),
        r is Ok ==> (forall|i: int|
            0 <= i < cur.agents().len() && !(lane * LANE <= i < lane * LANE + LANE)
                ==> #[trigger] final(nxt).agents()[i] == old(nxt).agents()[i]),
        r matches Err(e) ==> e == TickError::Defect,
{
    let ghost s = cur.agents();
    let n: usize = cur.len();
    let base: usize = lane * LANE;
    let (ax, ay) = lane_acceleration(cur, lane, p, attract);
    let mut k: usize = 0;
    while k < LANE
        invariant
            cur.wf(),
            p.wf(),
            all_wf(s),
            s == cur.agents(),
            base == lane * LANE,
            base + LANE <= s.len(),
            nxt.wf(),
            nxt.agents().len() == s.len(),
            0 <= dt <= COORD_LIMIT,
            attract matches Some(t) ==> -COORD_LIMIT <= t.x <= COORD_LIMIT && -COORD_LIMIT <= t.y
                <= COORD_LIMIT,
            k <= LANE,
            ax@.len() == LANE,
            ay@.len() == LANE,
            forall|q: int|
                0 <= q < LANE ==> #[trigger] ax@[q] as int == acceleration(s, base + q, *p, attract).0
                    && ay@[q] as int == acceleration(s, base + q, *p, attract).1,
            forall|q: int|
                0 <= q < LANE ==> -0x2_0000_0000 <= #[trigger] ax@[q] <= 0x2_0000_0000
                    && -0x2_0000_0000 <= ay@[q] <= 0x2_0000_0000,
            forall|q: int| 0 <= q < k ==> #[trigger] vel_ok(s, base + q, *p, attract, dt as int),
            forall|q: int|
                0 <= q < k ==> #[trigger] nxt.agents()[base + q] == next_agent(
                    s,
                    base + q,
                    *p,
                    attract,
                    dt as int,
                ),
            forall|i: int|
                0 <= i < s.len() && !(base <= i < base + k) ==> #[trigger] nxt.agents()[i] == old(
                    nxt,
                ).agents()[i],
        decreases LANE - k,
    {
        proof {
            assert(agent_wf(s[base + k as int]));
        }
        let this: Agent = cur.slot(base + k);
        let acc = Vec2 { x: ax[k], y: ay[k] };
        proof {
            assert(acceleration(s, base + k as int, *p, attract) == (acc.x as int, acc.y as int));
        }
        match integrate_agent(this, acc, p, dt) {
            Ok(a) => {
                proof {
                    assert(a == next_agent(s, base + k as int, *p, attract, dt as int));
                }
                nxt.set_slot(base + k, a);
            },
            Err(e) => {
                proof {
                    assert(!vel_ok(s, base + k as int, *p, attract, dt as int));
                }
                return Err(e);
            },
        }
        k = k + 1;
    }
    Ok(())
}

/// The lane-vectorised engine: two struct-of-arrays generation stores
/// alternating roles each tick, the population a whole number of lanes.
pub struct LaneEngine {
    a: LaneStore,
    b: LaneStore,
    current_is_a: bool,
    params: Params,
}

impl LaneEngine {
    /// The authoritative generation.
    pub closed spec fn agents(self) -> Seq<Agent> {
        if self.current_is_a {
            self.a.agents()
        } else {
            self.b.agents()
        }
    }

    pub closed spec fn config(self) -> Params {
        self.params
    }

    pub closed spec fn wf(self) -> bool {
        &&& self.params.wf()
        &&& self.a.wf()
        &&& self.b.wf()
        &&& self.b.agents().len() == self.a.agents().len()
        &&& all_wf(self.agents())
        &&& self.agents().len() as int % (LANE as int) == 0
    }

    /// Reorganise an existing generation into lanes; the population
    /// must fill whole lanes.
    pub fn from_agents(agents: &Vec<Agent>, params: Params) -> (r: LaneEngine)
        requires
            params.wf(),
            all_wf(agents@),
            agents@.len() as int % (LANE as int) == 0,
        ensures
            r.wf(),
            r.agents() == agents@,
            r.config() == params,
    {
        let a = LaneStore::from_agents(agents);
        let n: usize = agents.len();
        let b = LaneStore::with_length(n);
        LaneEngine { a, b, current_is_a: true, params }
    }

    /// Create a lane engine with `count` seeded agents; `count` must be
    /// a multiple of the lane width.
    pub fn new(count: usize, params: Params, seed: u64) -> (r: LaneEngine)
        requires
            params.wf(),
            count % LANE == 0,
            4 * count <= usize::MAX,
        ensures
            r.wf(),
            r.agents() == seeded_gen(seed, 0, count as int, params),
            r.agents().len() == count,
            r.config() == params,
    {
        let init = random_agents(seed, 0, count, &params);
        LaneEngine::from_agents(&init, params)
    }

    /// Copy the current generation out in agent-of-structs form.
    pub fn snapshot(&self) -> (r: Vec<Agent>)
        requires
            self.wf(),
        ensures
            r@ == self.agents(),
    {
        if self.current_is_a {
            self.a.to_agents()
        } else {
            self.b.to_agents()
        }
    }

    pub fn population(&self) -> (n: usize)
        ensures
            n == self.agents().len(),
    {
        if self.current_is_a {
            self.a.len()
        } else {
            self.b.len()
        }
    }

    /// Advance one tick lane by lane, then swap. Produces exactly the
    /// generation the sequential scalar strategy produces; on a defect
    /// the tick aborts, nothing is swapped, and the current generation
    /// is unchanged.
    pub fn tick(&mut self, dt: i64, attract: Option<Vec2>) -> (r: Result<(), TickError>)
        requires
            old(self).wf(),
            0 <= dt <= COORD_LIMIT,
            attract matches Some(t) ==> -COORD_LIMIT <= t.x <= COORD_LIMIT && -COORD_LIMIT <= t.y
                <= COORD_LIMIT,
        ensures
            final(self).wf(),
            final(self).config() == old(self).config(),
            r is Ok <==> tick_ok(old(self).agents(), old(self).config(), attract, dt as int),
            r is Ok ==> final(self).agents() == next_gen(
                old(self).agents(),
                old(self).config(),
                attract,
                dt as int,
            ),
            r is Err ==> final(self).agents() == old(self).agents(),
            r matches Err(e) ==> e == TickError::Defect,
    {
        let p: Params = self.params;
        let ghost s = self.agents();
        let n: usize = if self.current_is_a {
            self.a.len()
        } else {
            self.b.len()
        };
        let lanes: usize = n / LANE;
        let mut l: usize = 0;
        while l < lanes
            invariant
                p.wf(),
                p == self.params,
                self.params == old(self).params,
                all_wf(s),
                s == old(self).agents(),
                self.current_is_a == old(self).current_is_a,
                self.a.wf(),
                self.b.wf(),
                self.b.agents().len() == self.a.agents().len(),
                self.current_is_a ==> self.a == old(self).a,
                !self.current_is_a ==> self.b == old(self).b,
                self.agents() == s,
                n == s.len(),
                n as int % (LANE as int) == 0,
                lanes == n as int / LANE as int,
                0 <= dt <= COORD_LIMIT,
                attract matches Some(t) ==> -COORD_LIMIT <= t.x <= COORD_LIMIT && -COORD_LIMIT
                    <= t.y <= COORD_LIMIT,
                l <= lanes,
                forall|q: int| 0 <= q < l * LANE ==> #[trigger] vel_ok(s, q, p, attract, dt as int),
                self.current_is_a ==> (forall|q: int|
                    0 <= q < l * LANE ==> #[trigger] self.b.agents()[q] == next_agent(
                        s,
                        q,
                        p,
                        attract,
                        dt as int,
                    )),
                !self.current_is_a ==> (forall|q: int|
                    0 <= q < l * LANE ==> #[trigger] self.a.agents()[q] == next_agent(
                        s,
                        q,
                        p,
                        attract,
                        dt as int,
                    )),
            decreases lanes - l,
        {
            proof {
                assert((l + 1) * LANE <= n) by (nonlinear_arith)
                    requires
                        l + 1 <= lanes,
                        lanes == n as int / 8,
                        n as int % 8 == 0,
                        n >= 0,
                ;
            }
            let r: Result<(), TickError> = if self.current_is_a {
                lane_step(&self.a, &mut self.b, l, &p, attract, dt)
            } else {
                lane_step(&self.b, &mut self.a, l, &p, attract, dt)
            };
            match r {
                Ok(()) => {
                    proof {
                        assert forall|q: int|
                            0 <= q < (l + 1) * LANE implies #[trigger] vel_ok(
                            s,
                            q,
                            p,
                            attract,
                            dt as int,
                        ) by {
                            if l * LANE <= q {
                                assert(vel_ok(s, l * LANE + (q - l * LANE), p, attract, dt as int));
                            }
                        }
                        if self.current_is_a {
                            assert forall|q: int|
                                0 <= q < (l + 1) * LANE implies #[trigger] self.b.agents()[q]
                                == next_agent(s, q, p, attract, dt as int) by {
                                if l * LANE <= q {
                                    assert(self.b.agents()[l * LANE + (q - l * LANE)] == next_agent(
                                        s,
                                        l * LANE + (q - l * LANE),
                                        p,
                                        attract,
                                        dt as int,
                                    ));
                                }
                            }
                        } else {
                            assert forall|q: int|
                                0 <= q < (l + 1) * LANE implies #[trigger] self.a.agents()[q]
                                == next_agent(s, q, p, attract, dt as int) by {
                                if l * LANE <= q {
                                    assert(self.a.agents()[l * LANE + (q - l * LANE)] == next_agent(
                                        s,
                                        l * LANE + (q - l * LANE),
                                        p,
                                        attract,
                                        dt as int,
                                    ));
                                }
                            }
                        }
                    }
                },
                Err(e) => {
                    proof {
                        let k = choose|k: int|
                            0 <= k < LANE && !(#[trigger] vel_ok(s, l * LANE + k, p, attract, dt as int));
                        assert(0 <= l * LANE + k < n);
                        assert(!tick_ok(s, p, attract, dt as int));
                    }
                    return Err(e);
                },
            }
            l = l + 1;
        }
        proof {
            assert(lanes * LANE == n) by (nonlinear_arith)
                requires
                    lanes == n as int / 8,
                    n as int % 8 == 0,
                    n >= 0,
            ;
            if self.current_is_a {
                assert(self.b.agents() =~= next_gen(s, p, attract, dt as int));
            } else {
                assert(self.a.agents() =~= next_gen(s, p, attract, dt as int));
            }
            lemma_next_gen_wf(s, p, attract, dt as int);
        }
        self.current_is_a = !self.current_is_a;
        Ok(())
    }
}

} // verus!

//! Neighbour query and the three steering rules, plus point attraction.
//!
//! For an agent `i` every other index `j` is tested against a radius:
//! `j` is a neighbour when `0 < d2 < r * r`, where `d2` is the squared
//! distance — the self slot and exact-overlap pairs are excluded. The
//! perception radius feeds alignment and cohesion, the separation radius
//! feeds separation. Each rule averages over its neighbour set, steers
//! toward the averaged direction at `max_speed`, and clamps the result to
//! `max_force`; an empty neighbour set contributes exactly the zero
//! vector. Attraction is the one unclamped term.
//!
//! The all-pairs O(n^2) scan is deliberate: the subject under study is
//! execution strategy, not asymptotic complexity.

use vstd::prelude::*;

use crate::agent::Agent;
use crate::agent::Params;
use crate::agent::agent_wf;
use crate::agent::all_wf;
use crate::fixed::div_t;
use crate::fixed::div_trunc;
use crate::fixed::lemma_div_t_bound;
use crate::vec2::COORD_LIMIT;
use crate::vec2::Vec2;
use crate::vec2::norm_sq;
use crate::vec2::scale_to;
use crate::vec2::scale_to_vec;
use crate::vec2::steer;
use crate::vec2::steer_vec;

verus! {

/// Weight applied to each separation term `diff / d2`, so that the
/// fraction survives fixed-point truncation; only the direction of the
/// averaged sum matters, since the sum is normalised afterwards.
pub const SEP_WEIGHT: i64 = 0x1_0000_0000;

/// Squared distance between two agents' positions.
pub open spec fn dist_sq(a: Agent, b: Agent) -> int {
    norm_sq(b.position.x - a.position.x, b.position.y - a.position.y)
}

/// Neighbourhood membership: `j` is within radius `r` of `i`, the self
/// slot excluded and zero-distance pairs excluded.
pub open spec fn sees(s: Seq<Agent>, i: int, j: int, r: int) -> bool {
    &&& j != i
    &&& 0 < dist_sq(s[i], s[j])
    &&& dist_sq(s[i], s[j]) < r * r
}

/// How many of the first `m` indices are neighbours of `i` at radius `r`.
pub open spec fn count_sees(s: Seq<Agent>, i: int, r: int, m: int) -> int
    decreases m,
{
    if m <= 0 {
        0
    } else {
        count_sees(s, i, r, m - 1) + if sees(s, i, m - 1, r) {
            1int
        } else {
            0int
        }
    }
}

/// Sum of the velocities of the neighbours among the first `m` indices.
pub open spec fn vel_sum(s: Seq<Agent>, i: int, r: int, m: int) -> (int, int)
    decreases m,
{
    if m <= 0 {
        (0int, 0int)
    } else {
        let p = vel_sum(s, i, r, m - 1);
        if sees(s, i, m - 1, r) {
            (p.0 + s[m - 1].velocity.x, p.1 + s[m - 1].velocity.y)
        } else {
            p
        }
    }
}

/// Sum of the positions of the neighbours among the first `m` indices.
pub open spec fn pos_sum(s: Seq<Agent>, i: int, r: int, m: int) -> (int, int)
    decreases m,
{
    if m <= 0 {
        (0int, 0int)
    } else {
        let p = pos_sum(s, i, r, m - 1);
        if sees(s, i, m - 1, r) {
            (p.0 + s[m - 1].position.x, p.1 + s[m - 1].position.y)
        } else {
            p
        }
    }
}

/// One separation push: the offset away from the neighbour, weighted by
/// `SEP_WEIGHT` and divided by the squared distance (the fixed-point
/// rendering of `normalize(diff) / distance`).
pub open spec fn sep_term(a: Agent, b: Agent) -> (int, int) {
    let dx = a.position.x - b.position.x;
    let dy = a.position.y - b.position.y;
    let d2 = dist_sq(a, b);
    (div_t(dx * SEP_WEIGHT, d2), div_t(dy * SEP_WEIGHT, d2))
}

/// Sum of the separation pushes from the neighbours among the first `m`
/// indices.
pub open spec fn sep_vec_sum(s: Seq<Agent>, i: int, r: int, m: int) -> (int, int)
    decreases m,
{
    if m <= 0 {
        (0int, 0int)
    } else {
        let p = sep_vec_sum(s, i, r, m - 1);
        if sees(s, i, m - 1, r) {
            let t = sep_term(s[i], s[m - 1]);
            (p.0 + t.0, p.1 + t.1)
        } else {
            p
        }
    }
}

/// Alignment: steer toward the average neighbour velocity; the zero
/// vector when the perception set is empty.
pub open spec fn align_contrib(s: Seq<Agent>, i: int, p: Params) -> (int, int) {
    let r = p.perception_radius as int;
    let c = count_sees(s, i, r, s.len() as int);
    if c == 0 {
        (0int, 0int)
    } else {
        let t = vel_sum(s, i, r, s.len() as int);
        steer(
            div_t(t.0, c),
            div_t(t.1, c),
            s[i].velocity.x as int,
            s[i].velocity.y as int,
            p.max_speed as int,
            p.max_force as int,
        )
    }
}

/// Cohesion: steer toward the average neighbour position; the zero
/// vector when the perception set is empty.
pub open spec fn cohesion_contrib(s: Seq<Agent>, i: int, p: Params) -> (int, int) {
    let r = p.perception_radius as int;
    let c = count_sees(s, i, r, s.len() as int);
    if c == 0 {
        (0int, 0int)
    } else {
        let t = pos_sum(s, i, r, s.len() as int);
        steer(
            div_t(t.0, c) - s[i].position.x,
            div_t(t.1, c) - s[i].position.y,
            s[i].velocity.x as int,
            s[i].velocity.y as int,
            p.max_speed as int,
            p.max_force as int,
        )
    }
}

/// Separation: steer along the average of the weighted pushes away from
/// close neighbours; the zero vector when the separation set is empty.
pub open spec fn sep_contrib(s: Seq<Agent>, i: int, p: Params) -> (int, int) {
    let r = p.separation_radius as int;
    let c = count_sees(s, i, r, s.len() as int);
    if c == 0 {
        (0int, 0int)
    } else {
        let t = sep_vec_sum(s, i, r, s.len() as int);
        steer(
            div_t(t.0, c),
            div_t(t.1, c),
            s[i].velocity.x as int,
            s[i].velocity.y as int,
            p.max_speed as int,
            p.max_force as int,
        )
    }
}

/// Attraction toward a target point, stretched to `max_speed` and not
/// clamped.
pub open spec fn attraction_contrib(a: Agent, target: Vec2, s: int) -> (int, int) {
    scale_to(target.x - a.position.x, target.y - a.position.y, s)
}

/// Total acceleration of agent `i`: the three rule contributions plus
/// the attraction term when a target is given.
pub open spec fn acceleration(s: Seq<Agent>, i: int, p: Params, attract: Option<Vec2>) -> (
    int,
    int,
) {
    let al = align_contrib(s, i, p);
    let co = cohesion_contrib(s, i, p);
    let se = sep_contrib(s, i, p);
    let at = match attract {
        Some(t) => attraction_contrib(s[i], t, p.max_speed as int),
        None => (0int, 0int),
    };
    (al.0 + co.0 + se.0 + at.0, al.1 + co.1 + se.1 + at.1)
}

/// Alignment rule for agent `i` against the whole current generation.
pub fn alignment(boids: &Vec<Agent>, i: usize, p: &Params) -> (r: Vec2)
    requires
        p.wf(),
        all_wf(boids@),
        i < boids@.len(),
    ensures
        r.s() == align_contrib(boids@, i as int, *p),
        count_sees(boids@, i as int, p.perception_radius as int, boids@.len() as int) == 0 ==> r.x
            == 0 && r.y == 0,
        -p.max_force <= r.x <= p.max_force,
        -p.max_force <= r.y <= p.max_force,
        norm_sq(r.x as int, r.y as int) <= p.max_force * p.max_force,
{
    let pr: i64 = p.perception_radius;
    proof {
        assert(0 <= (pr as i128) * (pr as i128) <= 0x4000_0000_0000_0000) by (nonlinear_arith)
            requires
                0 <= pr <= COORD_LIMIT,
        ;
        assert(0 <= (p.max_force as int) * (p.max_force as int)) by (nonlinear_arith);
    }
    let rr: i128 = (pr as i128) * (pr as i128);
    let this: Agent = boids[i];
    let n: usize = boids.len();
    let mut sx: i128 = 0;
    let mut sy: i128 = 0;
    let mut cnt: usize = 0;
    for j in 0..n
        invariant
            p.wf(),
            all_wf(boids@),
            i < n,
            n == boids@.len(),
            this == boids@[i as int],
            pr == p.perception_radius,
            rr == (pr as int) * (pr as int),
            cnt as int == count_sees(boids@, i as int, pr as int, j as int),
            sx as int == vel_sum(boids@, i as int, pr as int, j as int).0,
            sy as int == vel_sum(boids@, i as int, pr as int, j as int).1,
            cnt <= j,
            -((cnt as int) * (COORD_LIMIT as int)) <= sx as int <= (cnt as int) * (
            COORD_LIMIT as int),
            -((cnt as int) * (COORD_LIMIT as int)) <= sy as int <= (cnt as int) * (
            COORD_LIMIT as int),
    {
        if j != i {
            let other: Agent = boids[j];
            proof {
                assert(agent_wf(boids@[j as int]));
            }
            let dx: i64 = other.position.x - this.position.x;
            let dy: i64 = other.position.y - this.position.y;
            proof {
                assert(0 <= (dx as i128) * (dx as i128) <= 0x1_0000_0000_0000_0000 && 0 <= (
                dy as i128) * (dy as i128) <= 0x1_0000_0000_0000_0000 && (dx as i128) * (
                dx as i128) + (dy as i128) * (dy as i128) == dist_sq(
                    boids@[i as int],
                    boids@[j as int],
                )) by (nonlinear_arith)
                    requires
                        -0x1_0000_0000 <= dx <= 0x1_0000_0000,
                        -0x1_0000_0000 <= dy <= 0x1_0000_0000,
                        dx as int == boids@[j as int].position.x - boids@[i as int].position.x,
                        dy as int == boids@[j as int].position.y - boids@[i as int].position.y,
                ;
            }
            let d2: i128 = (dx as i128) * (dx as i128) + (dy as i128) * (dy as i128);
            if d2 > 0 && d2 < rr {
                sx = sx + other.velocity.x as i128;
                sy = sy + other.velocity.y as i128;
                cnt = cnt + 1;
            }
        }
    }
    if cnt == 0 {
        Vec2::zero()
    } else {
        proof {
            lemma_div_t_bound(sx as int, cnt as int, COORD_LIMIT as int);
            lemma_div_t_bound(sy as int, cnt as int, COORD_LIMIT as int);
        }
        let ax: i64 = div_trunc(sx, cnt as i128) as i64;
        let ay: i64 = div_trunc(sy, cnt as i128) as i64;
        steer_vec(ax, ay, this.velocity.x, this.velocity.y, p.max_speed, p.max_force)
    }
}

/// Cohesion rule for agent `i` against the whole current generation.
pub fn cohesion(boids: &Vec<Agent>, i: usize, p: &Params) -> (r: Vec2)
    requires
        p.wf(),
        all_wf(boids@),
        i < boids@.len(),
    ensures
        r.s() == cohesion_contrib(boids@, i as int, *p),
        count_sees(boids@, i as int, p.perception_radius as int, boids@.len() as int) == 0 ==> r.x
            == 0 && r.y == 0,
        -p.max_force <= r.x <= p.max_force,
        -p.max_force <= r.y <= p.max_force,
        norm_sq(r.x as int, r.y as int) <= p.max_force * p.max_force,
{
    let pr: i64 = p.perception_radius;
    proof {
        assert(0 <= (pr as i128) * (pr as i128) <= 0x4000_0000_0000_0000) by (nonlinear_arith)
            requires
                0 <= pr <= COORD_LIMIT,
        ;
        assert(0 <= (p.max_force as int) * (p.max_force as int)) by (nonlinear_arith);
    }
    let rr: i128 = (pr as i128) * (pr as i128);
    let this: Agent = boids[i];
    let n: usize = boids.len();
    let mut sx: i128 = 0;
    let mut sy: i128 = 0;
    let mut cnt: usize = 0;
    for j in 0..n
        invariant
            p.wf(),
            all_wf(boids@),
            i < n,
            n == boids@.len(),
            this == boids@[i as int],
            pr == p.perception_radius,
            rr == (pr as int) * (pr as int),
            cnt as int == count_sees(boids@, i as int, pr as int, j as int),
            sx as int == pos_sum(boids@, i as int, pr as int, j as int).0,
            sy as int == pos_sum(boids@, i as int, pr as int, j as int).1,
            cnt <= j,
            -((cnt as int) * (COORD_LIMIT as int)) <= sx as int <= (cnt as int) * (
            COORD_LIMIT as int),
            -((cnt as int) * (COORD_LIMIT as int)) <= sy as int <= (cnt as int) * (
            COORD_LIMIT as int),
    {
        if j != i {
            let other: Agent = boids[j];
            proof {
                assert(agent_wf(boids@[j as int]));
            }
            let dx: i64 = other.position.x - this.position.x;
            let dy: i64 = other.position.y - this.position.y;
            proof {
                assert(0 <= (dx as i128) * (dx as i128) <= 0x1_0000_0000_0000_0000 && 0 <= (
                dy as i128) * (dy as i128) <= 0x1_0000_0000_0000_0000 && (dx as i128) * (
                dx as i128) + (dy as i128) * (dy as i128) == dist_sq(
                    boids@[i as int],
                    boids@[j as int],
                )) by (nonlinear_arith)
                    requires
                        -0x1_0000_0000 <= dx <= 0x1_0000_0000,
                        -0x1_0000_0000 <= dy <= 0x1_0000_0000,
                        dx as int == boids@[j as int].position.x - boids@[i as int].position.x,
                        dy as int == boids@[j as int].position.y - boids@[i as int].position.y,
                ;
            }
            let d2: i128 = (dx as i128) * (dx as i128) + (dy as i128) * (dy as i128);
            if d2 > 0 && d2 < rr {
                sx = sx + other.position.x as i128;
                sy = sy + other.position.y as i128;
                cnt = cnt + 1;
            }
        }
    }
    if cnt == 0 {
        Vec2::zero()
    } else {
        proof {
            lemma_div_t_bound(sx as int, cnt as int, COORD_LIMIT as int);
            lemma_div_t_bound(sy as int, cnt as int, COORD_LIMIT as int);
        }
        let ax: i64 = div_trunc(sx, cnt as i128) as i64;
        let ay: i64 = div_trunc(sy, cnt as i128) as i64;
        steer_vec(
            ax - this.position.x,
            ay - this.position.y,
            this.velocity.x,
            this.velocity.y,
            p.max_speed,
            p.max_force,
        )
    }
}

/// Separation rule for agent `i` against the whole current generation.
pub fn separation(boids: &Vec<Agent>, i: usize, p: &Params) -> (r: Vec2)
    requires
        p.wf(),
        all_wf(boids@),
        i < boids@.len(),
    ensures
        r.s() == sep_contrib(boids@, i as int, *p),
        count_sees(boids@, i as int, p.separation_radius as int, boids@.len() as int) == 0 ==> r.x
            == 0 && r.y == 0,
        -p.max_force <= r.x <= p.max_force,
        -p.max_force <= r.y <= p.max_force,
        norm_sq(r.x as int, r.y as int) <= p.max_force * p.max_force,
{
    let sr: i64 = p.separation_radius;
    proof {
        assert(0 <= (sr as i128) * (sr as i128) <= 0x4000_0000_0000_0000) by (nonlinear_arith)
            requires
                0 <= sr <= COORD_LIMIT,
        ;
        assert(0 <= (p.max_force as int) * (p.max_force as int)) by (nonlinear_arith);
    }
    let rr: i128 = (sr as i128) * (sr as i128);
    let this: Agent = boids[i];
    let n: usize = boids.len();
    let mut sx: i128 = 0;
    let mut sy: i128 = 0;
    let mut cnt: usize = 0;
    for j in 0..n
        invariant
            p.wf(),
            all_wf(boids@),
            i < n,
            n == boids@.len(),
            this == boids@[i as int],
            sr == p.separation_radius,
            rr == (sr as int) * (sr as int),
            cnt as int == count_sees(boids@, i as int, sr as int, j as int),
            sx as int == sep_vec_sum(boids@, i as int, sr as int, j as int).0,
            sy as int == sep_vec_sum(boids@, i as int, sr as int, j as int).1,
            cnt <= j,
            -((cnt as int) * (SEP_WEIGHT as int)) <= sx as int <= (cnt as int) * (
            SEP_WEIGHT as int),
            -((cnt as int) * (SEP_WEIGHT as int)) <= sy as int <= (cnt as int) * (
            SEP_WEIGHT as int),
    {
        if j != i {
            let other: Agent = boids[j];
            proof {
                assert(agent_wf(boids@[j as int]));
            }
            let dx: i64 = this.position.x - other.position.x;
            let dy: i64 = this.position.y - other.position.y;
            proof {
                assert(0 <= (dx as i128) * (dx as i128) <= 0x1_0000_0000_0000_0000 && 0 <= (
                dy as i128) * (dy as i128) <= 0x1_0000_0000_0000_0000 && (dx as i128) * (
                dx as i128) + (dy as i128) * (dy as i128) == dist_sq(
                    boids@[i as int],
                    boids@[j as int],
                )) by (nonlinear_arith)
                    requires
                        -0x1_0000_0000 <= dx <= 0x1_0000_0000,
                        -0x1_0000_0000 <= dy <= 0x1_0000_0000,
                        dx as int == boids@[i as int].position.x - boids@[j as int].position.x,
                        dy as int == boids@[i as int].position.y - boids@[j as int].position.y,
                ;
            }
            let d2: i128 = (dx as i128) * (dx as i128) + (dy as i128) * (dy as i128);
            if d2 > 0 && d2 < rr {
                proof {
                    assert(-((SEP_WEIGHT as int) * d2) <= (dx as i128) * (SEP_WEIGHT as i128) <= (
                    SEP_WEIGHT as int) * d2 && -((SEP_WEIGHT as int) * d2) <= (dy as i128) * (
                    SEP_WEIGHT as i128) <= (SEP_WEIGHT as int) * d2) by (nonlinear_arith)
                        requires
                            d2 == (dx as i128) * (dx as i128) + (dy as i128) * (dy as i128),
                            d2 > 0,
                            -0x1_0000_0000 <= dx <= 0x1_0000_0000,
                            -0x1_0000_0000 <= dy <= 0x1_0000_0000,
                    ;
                    lemma_div_t_bound(
                        (dx as int) * (SEP_WEIGHT as int),
                        d2 as int,
                        SEP_WEIGHT as int,
                    );
                    lemma_div_t_bound(
                        (dy as int) * (SEP_WEIGHT as int),
                        d2 as int,
                        SEP_WEIGHT as int,
                    );
                }
                let tx: i128 = div_trunc((dx as i128) * (SEP_WEIGHT as i128), d2);
                let ty: i128 = div_trunc((dy as i128) * (SEP_WEIGHT as i128), d2);
                sx = sx + tx;
                sy = sy + ty;
                cnt = cnt + 1;
            }
        }
    }
    if cnt == 0 {
        Vec2::zero()
    } else {
        proof {
            lemma_div_t_bound(sx as int, cnt as int, SEP_WEIGHT as int);
            lemma_div_t_bound(sy as int, cnt as int, SEP_WEIGHT as int);
        }
        let ax: i64 = div_trunc(sx, cnt as i128) as i64;
        let ay: i64 = div_trunc(sy, cnt as i128) as i64;
        steer_vec(ax, ay, this.velocity.x, this.velocity.y, p.max_speed, p.max_force)
    }
}

/// Attraction toward `target`, stretched to `max_speed` and left
/// unclamped.
pub fn attraction(a: &Agent, target: Vec2, p: &Params) -> (r: Vec2)
    requires
        p.wf(),
        agent_wf(*a),
        -COORD_LIMIT <= target.x <= COORD_LIMIT,
        -COORD_LIMIT <= target.y <= COORD_LIMIT,
    ensures
        r.s() == attraction_contrib(*a, target, p.max_speed as int),
        -p.max_speed <= r.x <= p.max_speed,
        -p.max_speed <= r.y <= p.max_speed,
{
    scale_to_vec(target.x - a.position.x, target.y - a.position.y, p.max_speed)
}

/// Total acceleration of agent `i`: alignment + cohesion + separation,
/// plus attraction when a target is given.
pub fn calc_acceleration(boids: &Vec<Agent>, i: usize, p: &Params, attract: Option<Vec2>) -> (
    r: Vec2
)
    requires
        p.wf(),
        all_wf(boids@),
        i < boids@.len(),
        attract matches Some(t) ==> -COORD_LIMIT <= t.x <= COORD_LIMIT && -COORD_LIMIT <= t.y
            <= COORD_LIMIT,
    ensures
        r.s() == acceleration(boids@, i as int, *p, attract),
        -(3 * p.max_force + p.max_speed) <= r.x <= 3 * p.max_force + p.max_speed,
        -(3 * p.max_force + p.max_speed) <= r.y <= 3 * p.max_force + p.max_speed,
{
    let al = alignment(boids, i, p);
    let co = cohesion(boids, i, p);
    let se = separation(boids, i, p);
    let mut ax: i64 = al.x + co.x + se.x;
    let mut ay: i64 = al.y + co.y + se.y;
    match attract {
        Some(t) => {
            let this: Agent = boids[i];
            proof {
                assert(agent_wf(boids@[i as int]));
            }
            let at = attraction(&this, t, p);
            ax = ax + at.x;
            ay = ay + at.y;
        },
        None => {},
    }
    Vec2 { x: ax, y: ay }
}

} // verus!

//! Seeded population creation.
//!
//! Initial agents are derived from a ChaCha word stream: for agent `k`,
//! four words give its position inside the world rectangle, a velocity
//! x-component in `[-max_speed/2, max_speed/2]`, and the sign of the
//! matching y-component, chosen so the initial speed is close to
//! `max_speed / 2`. The stream is a function of the seed alone, so a
//! population is reproducible from its seed — the root of the engine's
//! determinism guarantee.

use vstd::prelude::*;

use rand::RngCore;
use rand::SeedableRng;

use crate::agent::Agent;
use crate::agent::Params;
use crate::agent::agent_wf;
use crate::agent::all_wf;
use crate::fixed::floor_sqrt;
use crate::fixed::isqrt_floor;
use crate::fixed::lemma_floor_sqrt;
use crate::fixed::lemma_sq_le;
use crate::vec2::COORD_LIMIT;
use crate::vec2::Vec2;

verus! {

/// Word `k` of the ChaCha stream grown from `seed`: a fixed value on
/// every machine and in every run.
pub uninterp spec fn chacha_word(seed: u64, k: nat) -> u64;

/// Relies on rand_chacha::ChaCha8Rng, seeded with
/// rand_core::SeedableRng::seed_from_u64 and read with
/// rand_core::RngCore::next_u64: rand_core documents the stream as
/// reproducible across runs, library versions and architectures, so it
/// is a function of the seed alone.
#[verifier::external_body]
fn chacha_word_stream(seed: u64, n: usize) -> (r: Vec<u64>)
    ensures
        r@.len() == n,
        forall|k: int| 0 <= k < n ==> r@[k] == chacha_word(seed, k as nat),
{
    let mut rng = rand_chacha::ChaCha8Rng::seed_from_u64(seed);
    let mut v: Vec<u64> = Vec::with_capacity(n);
    for _ in 0..n {
        v.push(rng.next_u64());
    }
    v
}

/// Agent `k` of the population grown from `seed`.
pub open spec fn seeded_agent(seed: u64, k: int, p: Params) -> Agent {
    let w0 = chacha_word(seed, (4 * k) as nat);
    let w1 = chacha_word(seed, (4 * k + 1) as nat);
    let w2 = chacha_word(seed, (4 * k + 2) as nat);
    let w3 = chacha_word(seed, (4 * k + 3) as nat);
    let half = (p.max_speed as int) / 2;
    let px = (w0 as int) % (p.width as int);
    let py = (w1 as int) % (p.height as int);
    let vx = (w2 as int) % (2 * half + 1) - half;
    let vy0 = floor_sqrt((half * half - vx * vx) as nat) as int;
    let vy = if (w3 as int) % 2 == 1 {
        -vy0
    } else {
        vy0
    };
    Agent {
        position: Vec2 { x: px as i64, y: py as i64 },
        velocity: Vec2 { x: vx as i64, y: vy as i64 },
    }
}

/// A seeded agent starts inside the world rectangle, at a speed of at
/// most `max_speed / 2`.
pub proof fn lemma_seeded_agent_bounds(seed: u64, k: int, p: Params)
    requires
        p.wf(),
    ensures
        0 <= seeded_agent(seed, k, p).position.x < p.width,
        0 <= seeded_agent(seed, k, p).position.y < p.height,
        ({
            let v = seeded_agent(seed, k, p).velocity;
            let half = (p.max_speed as int) / 2;
            v.x * v.x + v.y * v.y <= half * half
        }),
{
    let w0 = chacha_word(seed, (4 * k) as nat);
    let w1 = chacha_word(seed, (4 * k + 1) as nat);
    let w2 = chacha_word(seed, (4 * k + 2) as nat);
    let half = (p.max_speed as int) / 2;
    vstd::arithmetic::div_mod::lemma_mod_bound(w0 as int, p.width as int);
    vstd::arithmetic::div_mod::lemma_mod_bound(w1 as int, p.height as int);
    vstd::arithmetic::div_mod::lemma_mod_bound(w2 as int, 2 * half + 1);
    let vx = (w2 as int) % (2 * half + 1) - half;
    assert(0 <= vx * vx <= half * half) by (nonlinear_arith)
        requires
            -half <= vx <= half,
            half >= 0,
    ;
    lemma_floor_sqrt((half * half - vx * vx) as nat);
    let vy0 = floor_sqrt((half * half - vx * vx) as nat) as int;
    assert(vy0 * vy0 <= half * half - vx * vx);
    lemma_sq_le(vy0, half);
    assert((-vy0) * (-vy0) == vy0 * vy0) by (nonlinear_arith);
    let v = seeded_agent(seed, k, p).velocity;
    assert(v.x == vx && (v.y == vy0 || v.y == -vy0));
}

/// Agents `start .. start + n` of the population grown from `seed`.
pub open spec fn seeded_gen(seed: u64, start: int, n: int, p: Params) -> Seq<Agent> {
    Seq::new(n as nat, |j: int| seeded_agent(seed, start + j, p))
}

/// Materialise agents `start .. start + n` of the population grown from
/// `seed`. Every agent lies inside the world rectangle with speed about
/// `max_speed / 2`.
pub fn random_agents(seed: u64, start: usize, n: usize, p: &Params) -> (r: Vec<Agent>)
    requires
        p.wf(),
        4 * (start + n) <= usize::MAX,
    ensures
        r@ == seeded_gen(seed, start as int, n as int, *p),
        r@.len() == n,
        all_wf(r@),
{
    let total: usize = 4 * (start + n);
    let ws = chacha_word_stream(seed, total);
    let half: i64 = ((p.max_speed as u64) / 2) as i64;
    let m: u64 = (2 * half + 1) as u64;
    let mut out: Vec<Agent> = Vec::new();
    let mut j: usize = 0;
    while j < n
        invariant
            p.wf(),
            j <= n,
            4 * (start + n) <= usize::MAX,
            half == (p.max_speed as int) / 2,
            0 <= half <= COORD_LIMIT,
            m == 2 * half + 1,
            ws@.len() == 4 * (start + n),
            forall|k: int| 0 <= k < ws@.len() ==> ws@[k] == chacha_word(seed, k as nat),
            out@.len() == j,
            forall|q: int|
                0 <= q < j ==> #[trigger] out@[q] == seeded_agent(seed, start + q, *p) && agent_wf(
                    out@[q],
                ),
        decreases n - j,
    {
        let base: usize = 4 * (start + j);
        let w0: u64 = ws[base];
        let w1: u64 = ws[base + 1];
        let w2: u64 = ws[base + 2];
        let w3: u64 = ws[base + 3];
        let px: i64 = (w0 % (p.width as u64)) as i64;
        let py: i64 = (w1 % (p.height as u64)) as i64;
        let vx: i64 = (w2 % m) as i64 - half;
        proof {
            assert(0 <= vx * vx <= half * half && half * half <= 0x4000_0000_0000_0000)
                by (nonlinear_arith)
                requires
                    -half <= vx <= half,
                    0 <= half <= COORD_LIMIT,
            ;
            lemma_floor_sqrt((half * half - vx * vx) as nat);
            lemma_sq_le(
                floor_sqrt((half * half - vx * vx) as nat) as int,
                half as int,
            );
        }
        let vy2: i64 = half * half - vx * vx;
        let vy0: i64 = isqrt_floor(vy2 as u128) as i64;
        let vy: i64 = if w3 % 2 == 1 {
            -vy0
        } else {
            vy0
        };
        let a = Agent { position: Vec2 { x: px, y: py }, velocity: Vec2 { x: vx, y: vy } };
        proof {
            assert(a == seeded_agent(seed, start + j as int, *p));
        }
        out.push(a);
        j = j + 1;
    }
    proof {
        assert(out@ =~= seeded_gen(seed, start as int, n as int, *p));
    }
    out
}

} // verus!

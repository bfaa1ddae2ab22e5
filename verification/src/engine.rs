//! The double-buffered engine and its execution strategies.
//!
//! Two generation buffers alternate roles each tick: the current one is
//! only read, the next one is only written, and the borrow checker —
//! simultaneous shared and exclusive borrows of two distinct fields —
//! enforces the disjointness by construction. `swap` is an O(1) role
//! flip, never a copy.
//!
//! A tick can be driven sequentially (`tick`) or chunk by chunk
//! (`tick_chunked`, built on `compute_chunk`, which an outside driver may
//! also run on disjoint index ranges in parallel). Both strategies meet
//! the same contract: the next generation is exactly
//! `next_gen(current)`, so their results are interchangeable —
//! `lemma_chunk_decomposition` states that law, and
//! `lemma_trajectory_deterministic` states that a whole run is pinned
//! down by its start state and its per-tick inputs.

use vstd::prelude::*;

use crate::agent::Agent;
use crate::agent::Params;
use crate::agent::all_wf;
use crate::integrate::TickError;
use crate::integrate::next_agent;
use crate::integrate::step_agent;
use crate::integrate::vel_ok;
use crate::rng::random_agents;
use crate::rng::seeded_gen;
use crate::vec2::COORD_LIMIT;
use crate::vec2::Vec2;

verus! {

/// A tick succeeds exactly when every agent's new velocity stays in
/// range.
pub open spec fn tick_ok(s: Seq<Agent>, p: Params, attract: Option<Vec2>, dt: int) -> bool {
    forall|i: int| 0 <= i < s.len() ==> vel_ok(s, i, p, attract, dt)
}

/// The whole next generation, agent by agent, as a function of the
/// current one.
pub open spec fn next_gen(s: Seq<Agent>, p: Params, attract: Option<Vec2>, dt: int) -> Seq<Agent> {
    Seq::new(s.len(), |i: int| next_agent(s, i, p, attract, dt))
}

/// The slice of the next generation a chunk `[start, start + len)` is
/// responsible for.
pub open spec fn chunk_gen(
    s: Seq<Agent>,
    start: int,
    len: int,
    p: Params,
    attract: Option<Vec2>,
    dt: int,
) -> Seq<Agent> {
    Seq::new(len as nat, |k: int| next_agent(s, start + k, p, attract, dt))
}

/// Strategy equivalence: however the index range is partitioned, each
/// chunk computes exactly its slice of the sequential next generation,
/// so any concatenation of disjoint chunks rebuilds `next_gen` — the
/// chunked, the parallel and the lanewise drivers all produce the same
/// buffer as the sequential reference.
pub proof fn lemma_chunk_decomposition(
    s: Seq<Agent>,
    start: int,
    len: int,
    p: Params,
    attract: Option<Vec2>,
    dt: int,
)
    requires
        0 <= start,
        0 <= len,
        start + len <= s.len(),
    ensures
        chunk_gen(s, start, len, p, attract, dt) == next_gen(s, p, attract, dt).subrange(
            start,
            start + len,
        ),
{
    assert(chunk_gen(s, start, len, p, attract, dt) =~= next_gen(s, p, attract, dt).subrange(
        start,
        start + len,
    ));
}

/// One successful tick relates two generations.
pub open spec fn is_step(
    s1: Seq<Agent>,
    s2: Seq<Agent>,
    p: Params,
    attract: Option<Vec2>,
    dt: int,
) -> bool {
    &&& tick_ok(s1, p, attract, dt)
    &&& s2 == next_gen(s1, p, attract, dt)
}

/// A trajectory: generation `i + 1` follows from generation `i` under
/// the `i`-th per-tick inputs.
pub open spec fn is_trajectory(
    states: Seq<Seq<Agent>>,
    s0: Seq<Agent>,
    p: Params,
    attracts: Seq<Option<Vec2>>,
    dts: Seq<int>,
) -> bool {
    &&& attracts.len() == dts.len()
    &&& states.len() == dts.len() + 1
    &&& states[0] == s0
    &&& forall|i: int|
        0 <= i < dts.len() ==> is_step(#[trigger] states[i], states[i + 1], p, attracts[i], dts[i])
}

proof fn lemma_trajectory_prefix(
    t1: Seq<Seq<Agent>>,
    t2: Seq<Seq<Agent>>,
    s0: Seq<Agent>,
    p: Params,
    attracts: Seq<Option<Vec2>>,
    dts: Seq<int>,
    i: int,
)
    requires
        is_trajectory(t1, s0, p, attracts, dts),
        is_trajectory(t2, s0, p, attracts, dts),
        0 <= i < t1.len(),
    ensures
        t1[i] == t2[i],
    decreases i,
{
    if i > 0 {
        lemma_trajectory_prefix(t1, t2, s0, p, attracts, dts, i - 1);
    }
}

/// Determinism: two runs from the same initial population under the
/// same per-tick inputs pass through identical generations.
pub proof fn lemma_trajectory_deterministic(
    t1: Seq<Seq<Agent>>,
    t2: Seq<Seq<Agent>>,
    s0: Seq<Agent>,
    p: Params,
    attracts: Seq<Option<Vec2>>,
    dts: Seq<int>,
)
    requires
        is_trajectory(t1, s0, p, attracts, dts),
        is_trajectory(t2, s0, p, attracts, dts),
    ensures
        t1 == t2,
{
    assert forall|i: int| 0 <= i < t1.len() implies t1[i] == t2[i] by {
        lemma_trajectory_prefix(t1, t2, s0, p, attracts, dts, i);
    }
    assert(t1 =~= t2);
}

/// Two generation buffers and a role flag; the flagged one is the
/// authoritative, read-only generation of this tick.
pub struct DoubleBuffer {
    a: Vec<Agent>,
    b: Vec<Agent>,
    current_is_a: bool,
}

impl DoubleBuffer {
    pub closed spec fn current_view(self) -> Seq<Agent> {
        if self.current_is_a {
            self.a@
        } else {
            self.b@
        }
    }

    pub closed spec fn next_view(self) -> Seq<Agent> {
        if self.current_is_a {
            self.b@
        } else {
            self.a@
        }
    }

    pub fn new(init: Vec<Agent>) -> (r: DoubleBuffer)
        ensures
            r.current_view() == init@,
            r.next_view().len() == init@.len(),
    {
        let len: usize = init.len();
        let mut scratch: Vec<Agent> = Vec::new();
        let mut i: usize = 0;
        while i < len
            invariant
                i <= len,
                scratch@.len() == i,
            decreases len - i,
        {
            scratch.push(Agent { position: Vec2 { x: 0, y: 0 }, velocity: Vec2 { x: 0, y: 0 } });
            i = i + 1;
        }
        DoubleBuffer { a: init, b: scratch, current_is_a: true }
    }

    pub fn current(&self) -> (r: &Vec<Agent>)
        ensures
            r@ == self.current_view(),
    {
        if self.current_is_a {
            &self.a
        } else {
            &self.b
        }
    }

    /// Flip the roles: what was written becomes the generation to read.
    pub fn swap(&mut self)
        ensures
            final(self).current_view() == old(self).next_view(),
            final(self).next_view() == old(self).current_view(),
    {
        self.current_is_a = !self.current_is_a;
    }
}

/// Compute the next state of every agent in `[start, start + len)` from
/// the current generation. Succeeds exactly when every agent in the
/// chunk keeps a representable velocity. Chunks touch disjoint output
/// ranges, so independent tasks may each compute one and the results be
/// stitched in index order.
pub fn compute_chunk(
    cur: &Vec<Agent>,
    start: usize,
    len: usize,
    p: &Params,
    attract: Option<Vec2>,
    dt: i64,
) -> (r: Result<Vec<Agent>, TickError>)
    requires
        p.wf(),
        all_wf(cur@),
        start + len <= cur@.len(),
        0 <= dt <= COORD_LIMIT,
        attract matches Some(t) ==> -COORD_LIMIT <= t.x <= COORD_LIMIT && -COORD_LIMIT <= t.y
            <= COORD_LIMIT,
    ensures
        r is Ok <==> (forall|i: int|
            start <= i < start + len ==> vel_ok(cur@, i, *p, attract, dt as int)),
        r matches Ok(v) ==> v@ == chunk_gen(cur@, start as int, len as int, *p, attract, dt as int),
        r matches Err(e) ==> e == TickError::Defect,
{
    let n: usize = cur.len();
    let mut out: Vec<Agent> = Vec::new();
    let mut k: usize = 0;
    while k < len
        invariant
            p.wf(),
            all_wf(cur@),
            start + len <= n,
            n == cur@.len(),
            0 <= dt <= COORD_LIMIT,
            attract matches Some(t) ==> -COORD_LIMIT <= t.x <= COORD_LIMIT && -COORD_LIMIT <= t.y
                <= COORD_LIMIT,
            k <= len,
            out@.len() == k,
            forall|i: int| start <= i < start + k ==> vel_ok(cur@, i, *p, attract, dt as int),
            forall|q: int|
                0 <= q < k ==> #[trigger] out@[q] == next_agent(
                    cur@,
                    start + q,
                    *p,
                    attract,
                    dt as int,
                ),
        decreases len - k,
    {
        match step_agent(cur, start + k, p, attract, dt) {
            Ok(a) => {
                out.push(a);
            },
            Err(e) => {
                return Err(e);
            },
        }
        k = k + 1;
    }
    proof {
        assert(out@ =~= chunk_gen(cur@, start as int, len as int, *p, attract, dt as int));
    }
    Ok(out)
}

/// Sequential reference strategy: fill `nxt` with the whole next
/// generation, reading only `cur`.
fn tick_into(cur: &Vec<Agent>, nxt: &mut Vec<Agent>, p: &Params, attract: Option<Vec2>, dt: i64) -> (r:
    Result<(), TickError>)
    requires
        p.wf(),
        all_wf(cur@),
        0 <= dt <= COORD_LIMIT,
        attract matches Some(t) ==> -COORD_LIMIT <= t.x <= COORD_LIMIT && -COORD_LIMIT <= t.y
            <= COORD_LIMIT,
    ensures
        r is Ok <==> tick_ok(cur@, *p, attract, dt as int),
        r is Ok ==> final(nxt)@ == next_gen(cur@, *p, attract, dt as int),
        r matches Err(e) ==> e == TickError::Defect,
{
    nxt.clear();
    let n: usize = cur.len();
    let mut i: usize = 0;
    while i < n
        invariant
            p.wf(),
            all_wf(cur@),
            n == cur@.len(),
            0 <= dt <= COORD_LIMIT,
            attract matches Some(t) ==> -COORD_LIMIT <= t.x <= COORD_LIMIT && -COORD_LIMIT <= t.y
                <= COORD_LIMIT,
            i <= n,
            nxt@.len() == i,
            forall|q: int| 0 <= q < i ==> vel_ok(cur@, q, *p, attract, dt as int),
            forall|q: int|
                0 <= q < i ==> #[trigger] nxt@[q] == next_agent(cur@, q, *p, attract, dt as int),
        decreases n - i,
    {
        match step_agent(cur, i, p, attract, dt) {
            Ok(a) => {
                nxt.push(a);
            },
            Err(e) => {
                return Err(e);
            },
        }
        i = i + 1;
    }
    proof {
        assert(nxt@ =~= next_gen(cur@, *p, attract, dt as int));
    }
    Ok(())
}

/// Chunked strategy: partition `[0, n)` into `chunk_size` pieces,
/// compute each chunk against `cur` alone, and stitch the slices in
/// order. Produces exactly the sequential result.
fn tick_into_chunked(
    cur: &Vec<Agent>,
    nxt: &mut Vec<Agent>,
    p: &Params,
    attract: Option<Vec2>,
    dt: i64,
    chunk_size: usize,
) -> (r: Result<(), TickError>)
    requires
        p.wf(),
        all_wf(cur@),
        0 <= dt <= COORD_LIMIT,
        chunk_size >= 1,
        attract matches Some(t) ==> -COORD_LIMIT <= t.x <= COORD_LIMIT && -COORD_LIMIT <= t.y
            <= COORD_LIMIT,
    ensures
        r is Ok <==> tick_ok(cur@, *p, attract, dt as int),
        r is Ok ==> final(nxt)@ == next_gen(cur@, *p, attract, dt as int),
        r matches Err(e) ==> e == TickError::Defect,
{
    nxt.clear();
    let n: usize = cur.len();
    let mut done: usize = 0;
    while done < n
        invariant
            p.wf(),
            all_wf(cur@),
            n == cur@.len(),
            0 <= dt <= COORD_LIMIT,
            chunk_size >= 1,
            attract matches Some(t) ==> -COORD_LIMIT <= t.x <= COORD_LIMIT && -COORD_LIMIT <= t.y
                <= COORD_LIMIT,
            done <= n,
            nxt@.len() == done,
            forall|q: int| 0 <= q < done ==> vel_ok(cur@, q, *p, attract, dt as int),
            forall|q: int|
                0 <= q < done ==> #[trigger] nxt@[q] == next_agent(cur@, q, *p, attract, dt as int),
        decreases n - done,
    {
        let len: usize = if n - done < chunk_size {
            n - done
        } else {
            chunk_size
        };
        match compute_chunk(cur, done, len, p, attract, dt) {
            Ok(mut piece) => {
                nxt.append(&mut piece);
            },
            Err(e) => {
                return Err(e);
            },
        }
        done = done + len;
    }
    proof {
        assert(nxt@ =~= next_gen(cur@, *p, attract, dt as int));
    }
    Ok(())
}

/// Append copies of `src`'s agents to `dst` (agents are plain values).
fn append_agents(dst: &mut Vec<Agent>, src: &Vec<Agent>)
    ensures
        final(dst)@ == old(dst)@ + src@,
{
    let mut i: usize = 0;
    while i < src.len()
        invariant
            i <= src@.len(),
            dst@ == old(dst)@ + src@.take(i as int),
        decreases src@.len() - i,
    {
        let a: Agent = src[i];
        dst.push(a);
        proof {
            assert(old(dst)@ + src@.take(i as int) + seq![src@[i as int]] =~= old(dst)@
                + src@.take(i as int + 1));
        }
        i = i + 1;
    }
    proof {
        assert(old(dst)@ + src@.take(src@.len() as int) =~= old(dst)@ + src@);
    }
}

/// The simulation engine: a double buffer, the tunable parameters, and
/// the seed the population was grown from.
pub struct Engine {
    buffer: DoubleBuffer,
    params: Params,
    seed: u64,
    drawn: usize,
}

impl Engine {
    /// The authoritative generation.
    pub closed spec fn agents(self) -> Seq<Agent> {
        self.buffer.current_view()
    }

    pub closed spec fn config(self) -> Params {
        self.params
    }

    pub closed spec fn seed_of(self) -> u64 {
        self.seed
    }

    /// How many agents have been drawn from the seed stream so far;
    /// growth continues the stream where creation left off.
    pub closed spec fn drawn_of(self) -> int {
        self.drawn as int
    }

    pub closed spec fn wf(self) -> bool {
        &&& self.params.wf()
        &&& all_wf(self.agents())
    }

    /// Adopt an existing generation as the current one; growth will
    /// draw from `seed`'s stream from its start.
    pub fn from_agents(agents: Vec<Agent>, params: Params, seed: u64) -> (r: Engine)
        requires
            params.wf(),
            all_wf(agents@),
        ensures
            r.wf(),
            r.agents() == agents@,
            r.config() == params,
            r.seed_of() == seed,
            r.drawn_of() == 0,
    {
        Engine { buffer: DoubleBuffer::new(agents), params, seed, drawn: 0 }
    }

    /// Create an engine with `count` seeded agents.
    pub fn new(count: usize, params: Params, seed: u64) -> (r: Engine)
        requires
            params.wf(),
            4 * count <= usize::MAX,
        ensures
            r.wf(),
            r.agents() == seeded_gen(seed, 0, count as int, params),
            r.agents().len() == count,
            r.config() == params,
            r.seed_of() == seed,
            r.drawn_of() == count,
    {
        let init = random_agents(seed, 0, count, &params);
        Engine { buffer: DoubleBuffer::new(init), params, seed, drawn: count }
    }

    /// Read-only view of the current generation; never call while a
    /// tick is in progress — the borrow checker enforces exactly that.
    pub fn snapshot(&self) -> (r: &Vec<Agent>)
        ensures
            r@ == self.agents(),
    {
        self.buffer.current()
    }

    pub fn population(&self) -> (n: usize)
        ensures
            n == self.agents().len(),
    {
        self.buffer.current().len()
    }

    /// Replace the tunable parameters between ticks.
    pub fn set_params(&mut self, params: Params)
        requires
            old(self).wf(),
            params.wf(),
        ensures
            final(self).wf(),
            final(self).agents() == old(self).agents(),
            final(self).config() == params,
            final(self).seed_of() == old(self).seed_of(),
            final(self).drawn_of() == old(self).drawn_of(),
    {
        self.params = params;
    }

    /// Advance one tick with the sequential reference strategy: compute
    /// the next generation from the current one, then swap. On a defect
    /// the tick aborts, nothing is swapped, and the current generation
    /// is unchanged.
    pub fn tick(&mut self, dt: i64, attract: Option<Vec2>) -> (r: Result<(), TickError>)
        requires
            old(self).wf(),
            0 <= dt <= COORD_LIMIT,
            attract matches Some(t) ==> -COORD_LIMIT <= t.x <= COORD_LIMIT && -COORD_LIMIT <= t.y
                <= COORD_LIMIT,
        ensures
            final(self).wf(),
            final(self).config() == old(self).config(),
            final(self).seed_of() == old(self).seed_of(),
            final(self).drawn_of() == old(self).drawn_of(),
            r is Ok <==> tick_ok(old(self).agents(), old(self).config(), attract, dt as int),
            r is Ok ==> final(self).agents() == next_gen(
                old(self).agents(),
                old(self).config(),
                attract,
                dt as int,
            ),
            r is Err ==> final(self).agents() == old(self).agents(),
            r matches Err(e) ==> e == TickError::Defect,
    {
        let p: Params = self.params;
        let r: Result<(), TickError> = if self.buffer.current_is_a {
            tick_into(&self.buffer.a, &mut self.buffer.b, &p, attract, dt)
        } else {
            tick_into(&self.buffer.b, &mut self.buffer.a, &p, attract, dt)
        };
        match r {
            Ok(()) => {
                self.buffer.swap();
                proof {
                    lemma_next_gen_wf(old(self).agents(), p, attract, dt as int);
                }
                Ok(())
            },
            Err(e) => Err(e),
        }
    }

    /// Advance one tick with the chunked strategy; same contract as
    /// `tick`, and therefore the same resulting generation.
    pub fn tick_chunked(&mut self, dt: i64, attract: Option<Vec2>, chunk_size: usize) -> (r: Result<
        (),
        TickError,
    >)
        requires
            old(self).wf(),
            0 <= dt <= COORD_LIMIT,
            chunk_size >= 1,
            attract matches Some(t) ==> -COORD_LIMIT <= t.x <= COORD_LIMIT && -COORD_LIMIT <= t.y
                <= COORD_LIMIT,
        ensures
            final(self).wf(),
            final(self).config() == old(self).config(),
            final(self).seed_of() == old(self).seed_of(),
            final(self).drawn_of() == old(self).drawn_of(),
            r is Ok <==> tick_ok(old(self).agents(), old(self).config(), attract, dt as int),
            r is Ok ==> final(self).agents() == next_gen(
                old(self).agents(),
                old(self).config(),
                attract,
                dt as int,
            ),
            r is Err ==> final(self).agents() == old(self).agents(),
            r matches Err(e) ==> e == TickError::Defect,
    {
        let p: Params = self.params;
        let r: Result<(), TickError> = if self.buffer.current_is_a {
            tick_into_chunked(&self.buffer.a, &mut self.buffer.b, &p, attract, dt, chunk_size)
        } else {
            tick_into_chunked(&self.buffer.b, &mut self.buffer.a, &p, attract, dt, chunk_size)
        };
        match r {
            Ok(()) => {
                self.buffer.swap();
                proof {
                    lemma_next_gen_wf(old(self).agents(), p, attract, dt as int);
                }
                Ok(())
            },
            Err(e) => Err(e),
        }
    }

    /// Append `n` freshly seeded agents, continuing the seed stream;
    /// valid only between ticks.
    pub fn grow(&mut self, n: usize)
        requires
            old(self).wf(),
            4 * (old(self).drawn_of() + n) <= usize::MAX,
        ensures
            final(self).wf(),
            final(self).config() == old(self).config(),
            final(self).seed_of() == old(self).seed_of(),
            final(self).drawn_of() == old(self).drawn_of() + n,
            final(self).agents() == old(self).agents() + seeded_gen(
                old(self).seed_of(),
                old(self).drawn_of(),
                n as int,
                old(self).config(),
            ),
    {
        let p: Params = self.params;
        let extra = random_agents(self.seed, self.drawn, n, &p);
        append_agents(&mut self.buffer.a, &extra);
        append_agents(&mut self.buffer.b, &extra);
        self.drawn = self.drawn + n;
    }

    /// Remove `n` agents from the tail; removing more than the
    /// population clamps to empty, and the number actually removed is
    /// reported back. Valid only between ticks.
    pub fn shrink(&mut self, n: usize) -> (removed: usize)
        requires
            old(self).wf(),
        ensures
            final(self).wf(),
            final(self).config() == old(self).config(),
            final(self).seed_of() == old(self).seed_of(),
            final(self).drawn_of() == old(self).drawn_of(),
            removed == if n <= old(self).agents().len() {
                n as int
            } else {
                old(self).agents().len() as int
            },
            final(self).agents() == old(self).agents().take(
                old(self).agents().len() - removed,
            ),
    {
        let len: usize = self.buffer.current().len();
        let removed: usize = if n <= len {
            n
        } else {
            len
        };
        let keep: usize = len - removed;
        if self.buffer.current_is_a {
            self.buffer.a.truncate(keep);
            if keep < self.buffer.b.len() {
                self.buffer.b.truncate(keep);
            }
        } else {
            self.buffer.b.truncate(keep);
            if keep < self.buffer.a.len() {
                self.buffer.a.truncate(keep);
            }
        }
        proof {
            assert(self.buffer.current_view() =~= old(self).agents().take(
                old(self).agents().len() - removed,
            ));
        }
        removed
    }
}

/// One agent of a computed next generation is well formed: its velocity
/// was checked against the range, and a wrapped position is back inside
/// the world rectangle.
proof fn lemma_next_agent_wf(s: Seq<Agent>, i: int, p: Params, attract: Option<Vec2>, dt: int)
    requires
        p.wf(),
        0 <= i < s.len(),
        vel_ok(s, i, p, attract, dt),
    ensures
        crate::agent::agent_wf(next_agent(s, i, p, attract, dt)),
        0 <= next_agent(s, i, p, attract, dt).position.x <= p.width,
        0 <= next_agent(s, i, p, attract, dt).position.y <= p.height,
{
    let a = crate::steering::acceleration(s, i, p, attract);
    crate::integrate::lemma_integrated_agent_wf(s[i], a.0, a.1, p, dt);
}

/// Every agent of a computed next generation is well formed.
pub proof fn lemma_next_gen_wf(s: Seq<Agent>, p: Params, attract: Option<Vec2>, dt: int)
    requires
        p.wf(),
        tick_ok(s, p, attract, dt),
    ensures
        all_wf(next_gen(s, p, attract, dt)),
{
    assert forall|i: int|
        0 <= i < next_gen(s, p, attract, dt).len() implies crate::agent::agent_wf(
        #[trigger] next_gen(s, p, attract, dt)[i],
    ) by {
        lemma_next_agent_wf(s, i, p, attract, dt);
    }
}

} // verus!

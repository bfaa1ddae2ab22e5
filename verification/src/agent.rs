//! Agents and the tunable simulation parameters.
//!
//! An agent is a position and a velocity; it has no identity beyond its
//! slot index within one generation. Coordinates are fixed-point `i64`
//! values bounded by `COORD_LIMIT`; that bound is the well-formedness
//! invariant every stored generation keeps, and it is what makes all of
//! the steering arithmetic provably free of overflow.

use vstd::prelude::*;

use crate::vec2::COORD_LIMIT;
use crate::vec2::Vec2;

verus! {

#[derive(Clone, Copy, PartialEq, Eq, Structural, Debug)]
pub struct Agent {
    pub position: Vec2,
    pub velocity: Vec2,
}

impl Agent {
    pub fn new(position: Vec2, velocity: Vec2) -> (r: Agent)
        ensures
            r.position == position && r.velocity == velocity,
    {
        Agent { position, velocity }
    }
}

/// Both coordinates of both vectors stay within the engine's range.
pub open spec fn agent_wf(a: Agent) -> bool {
    &&& -COORD_LIMIT <= a.position.x <= COORD_LIMIT
    &&& -COORD_LIMIT <= a.position.y <= COORD_LIMIT
    &&& -COORD_LIMIT <= a.velocity.x <= COORD_LIMIT
    &&& -COORD_LIMIT <= a.velocity.y <= COORD_LIMIT
}

pub open spec fn all_wf(s: Seq<Agent>) -> bool {
    forall|k: int| 0 <= k < s.len() ==> agent_wf(#[trigger] s[k])
}

/// Process-wide configuration, constant within a tick and mutable only
/// between ticks.
#[derive(Clone, Copy, PartialEq, Eq, Structural, Debug)]
pub struct Params {
    /// World width: agents live in `[0, width] x [0, height]`.
    pub width: i64,
    /// World height.
    pub height: i64,
    /// Target speed the steering rules stretch their directions to.
    pub max_speed: i64,
    /// Per-rule clamp on the magnitude of a steering contribution.
    pub max_force: i64,
    /// Radius of the alignment / cohesion neighbourhood.
    pub perception_radius: i64,
    /// Radius of the (typically tighter) separation neighbourhood.
    pub separation_radius: i64,
}

impl Params {
    pub open spec fn wf(self) -> bool {
        &&& 0 < self.width <= COORD_LIMIT
        &&& 0 < self.height <= COORD_LIMIT
        &&& 0 <= self.max_speed <= COORD_LIMIT
        &&& 0 <= self.max_force <= COORD_LIMIT
        &&& 0 <= self.perception_radius <= COORD_LIMIT
        &&& 0 <= self.separation_radius <= COORD_LIMIT
    }

    /// Runtime check of `wf`, for callers outside verified code.
    pub fn valid(&self) -> (b: bool)
        ensures
            b == self.wf(),
    {
        0 < self.width && self.width <= COORD_LIMIT && 0 < self.height && self.height <= COORD_LIMIT
            && 0 <= self.max_speed && self.max_speed <= COORD_LIMIT && 0 <= self.max_force
            && self.max_force <= COORD_LIMIT && 0 <= self.perception_radius
            && self.perception_radius <= COORD_LIMIT && 0 <= self.separation_radius
            && self.separation_radius <= COORD_LIMIT
    }
}

} // verus!

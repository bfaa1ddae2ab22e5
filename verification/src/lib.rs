//! A flocking simulation engine over exact fixed-point arithmetic.
//!
//! A population of agents evolves tick by tick under the three classic
//! steering rules (alignment, cohesion, separation) plus an optional
//! point-attraction term. State lives in a double buffer: each tick reads
//! only the current generation, writes only the next one, and ends with an
//! O(1) role swap. Two execution strategies — per-index chunks and
//! struct-of-arrays lanes — are proved to produce the very same generation
//! as the sequential reference.
//!
//! All quantities are fixed-point integers, so every tick is an exact
//! function of its inputs; the laws proved here (empty-neighbour-set
//! defaults, force clamping, edge wrapping, determinism, strategy
//! equivalence) hold bit for bit.

pub mod agent;
pub mod engine;
pub mod fixed;
pub mod integrate;
pub mod lanes;
pub mod rng;
pub mod stats;
pub mod steering;
pub mod vec2;

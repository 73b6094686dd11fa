//! A verified core for a Go-playing engine: a fixed-capacity history ring,
//! a fixed-point policy pipeline (legality masking, symmetric-move merging,
//! renormalization), a Monte Carlo search tree with probe/insert and exact
//! visit-count accounting, a batching search coordinator, and a self-play
//! driver that emits an SGF-style game record.
//!
//! Probabilities and value estimates are held in fixed point: one unit is
//! one millionth, so `SCALE` stands for 1.0 and values lie in
//! `[-SCALE, SCALE]`.

pub mod ring;
pub mod board;
pub mod symmetry;
pub mod rng;
pub mod eval;
pub mod forward;
pub mod tree;
pub mod predict;
pub mod selfplay;

use vstd::prelude::*;

verus! {

/// Fixed-point unit: this many units stand for a probability (or value) of 1.0.
pub const SCALE: i64 = 1_000_000;

/// Sentinel for a policy entry that has been masked out, standing in for
/// negative infinity; any negative entry counts as masked.
pub const MASKED: i64 = -1;

/// Renormalization is skipped when the surviving mass is at or below this
/// floor (a ten-thousandth), to avoid dividing by almost zero.
pub const MASS_FLOOR: i64 = 100;

/// A policy entry still in play: non-negative mass.
pub open spec fn live(v: i64) -> bool {
    v >= 0
}

} // verus!

//! A two-player ball-and-paddle game as a deterministic fixed-point simulation.
//!
//! Lengths are whole thousandths of a court unit, velocities are thousandths
//! of a unit per second, time steps are whole microseconds and directions are
//! whole thousandths of a degree. Every state change is a total function of
//! the state before it and of the inputs handed in, so two peers that feed
//! the same inputs see the same match.

use vstd::prelude::*;

pub mod ball;
pub mod fixed;
pub mod flexcontrol;
pub mod game;
pub mod netpong;
pub mod player;
pub mod scene;
pub mod trig;
pub mod wacky_tube_man;

verus! {

/// Thousandths per court unit.
pub const SCALE: i64 = 1_000;

/// Width of the court: the left edge is at `x == 0`, the right edge here.
pub const SCREEN_WIDTH: i64 = 800_000;

/// Height of the court: the top wall is at `y == 0`, the bottom wall here.
pub const SCREEN_HEIGHT: i64 = 600_000;

/// The score that ends a match.
pub const WINNING_SCORE: i32 = 15;

/// Largest magnitude of a coordinate or of a length that the simulation
/// accepts.
pub const COORD_MAX: i64 = 1_000_000_000;

/// A point of the court.
#[derive(Clone, Copy, Debug, PartialEq, Eq, Structural)]
pub struct Position {
    pub x: i64,
    pub y: i64,
}

/// A displacement per second.
#[derive(Clone, Copy, Debug, PartialEq, Eq, Structural)]
pub struct Velocity {
    pub x: i64,
    pub y: i64,
}

impl Position {
    /// Both coordinates lie within `COORD_MAX` of the origin.
    pub open spec fn in_range(self) -> bool {
        &&& -COORD_MAX <= self.x <= COORD_MAX
        &&& -COORD_MAX <= self.y <= COORD_MAX
    }
}

} // verus!

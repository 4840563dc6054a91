//! A wandering dot that can be caught: the per-frame logic of a small
//! tap-the-runner game, with positions in whole pixels and time in
//! microseconds.
mod game;
mod geometry;
mod random;
mod runner;

pub use geometry::{
    distance_between, distance_squared, isqrt, lerp_coord, lerp_point, Point, COORD_LIMIT,
};
pub use game::{score_label, Game, SCORE_WIDTH};
pub use random::DRAW_LIMIT;
pub use runner::{
    Ring, Runner, RunnerState, MAX_PACE, MAX_SEGMENT, MAX_WAIT, MIN_PACE, RADIUS, RING_COUNT,
    RING_STEP,
};

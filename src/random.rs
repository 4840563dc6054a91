//! Random draws, from macroquad's process-wide generator.
use vstd::prelude::*;

verus! {

/// Bounds of a draw must stay below this for the draw to land in range.
pub const DRAW_LIMIT: u64 = 1048576;

/// Relies on macroquad::rand::gen_range (quad-rand's `gen_range` for `u64`):
/// it scales a 32-bit draw in [0, 1) onto `[low, high)` in `f64` and
/// truncates. With both bounds at most 2^20 that arithmetic is exact, so the
/// result is at least `low` and below `high`. The value depends on the
/// generator's state, so nothing more is said of it.
#[verifier::external_body]
pub(crate) fn draw_below(low: u64, high: u64) -> (r: u64)
    requires
        low < high <= DRAW_LIMIT,
    ensures
        low <= r < high,
{
    macroquad::rand::gen_range(low, high)
}

} // verus!

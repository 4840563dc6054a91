//! One frame of play: the runner moves, a touch respawns it and scores, and
//! the score is shown right-aligned.
use vstd::prelude::*;
use crate::geometry::{in_bounds, Point};
use crate::random::DRAW_LIMIT;
use crate::runner::{spawned, valid_draws, Runner};

verus! {

/// The score is shown right-aligned in a field this many characters wide.
pub const SCORE_WIDTH: usize = 5;

/// The game: the runner and how many times it has been caught.
#[derive(Clone, Copy, Debug, PartialEq, Eq, Structural)]
pub struct Game {
    pub runner: Runner,
    pub score: u32,
}

/// The decimal digit `d` as a character.
pub open spec fn digit_char(d: int) -> char {
    ((48 + d) as u8) as char
}

/// The decimal digits of `n`, most significant first, without leading zeros.
pub open spec fn decimal(n: nat) -> Seq<char>
    decreases n,
{
    if n < 10 {
        seq![digit_char(n as int)]
    } else {
        decimal(n / 10).push(digit_char((n % 10) as int))
    }
}

/// `n` in decimal, padded on the left with spaces to `SCORE_WIDTH` characters.
pub open spec fn score_text(n: nat) -> Seq<char> {
    let digits = decimal(n);
    if digits.len() >= SCORE_WIDTH {
        digits
    } else {
        Seq::new((SCORE_WIDTH - digits.len()) as nat, |i: int| ' ') + digits
    }
}

/// A `u32` has at most ten decimal digits.
proof fn lemma_decimal_len(n: nat)
    ensures
        1 <= decimal(n).len(),
        n < 4294967296 ==> decimal(n).len() <= 10,
    decreases n,
{
    if n >= 10 {
        lemma_decimal_len(n / 10);
        if n < 4294967296 {
            let k: nat = n / 10;
            assert(decimal(k).len() <= 10);
            lemma_len_bounds(k);
        }
    }
}

/// A number whose decimal form has `k` digits is at least 10^(k-1).
proof fn lemma_len_bounds(n: nat)
    ensures
        decimal(n).len() >= 2 ==> n >= 10,
        decimal(n).len() >= 3 ==> n >= 100,
        decimal(n).len() >= 4 ==> n >= 1000,
        decimal(n).len() >= 5 ==> n >= 10000,
        decimal(n).len() >= 6 ==> n >= 100000,
        decimal(n).len() >= 7 ==> n >= 1000000,
        decimal(n).len() >= 8 ==> n >= 10000000,
        decimal(n).len() >= 9 ==> n >= 100000000,
        decimal(n).len() >= 10 ==> n >= 1000000000,
    decreases n,
{
    if n >= 10 {
        lemma_len_bounds(n / 10);
    }
}

/// Appends the decimal digits of `n` to `out`.
fn push_decimal(n: u32, out: &mut Vec<char>)
    ensures
        final(out)@ == old(out)@ + decimal(n as nat),
    decreases n,
{
    if n >= 10 {
        push_decimal(n / 10, out);
    }
    let d = (n % 10) as u8;
    out.push((48 + d) as char);
    proof {
        if n < 10 {
            assert(decimal(n as nat) == seq![digit_char(n as int)]);
        }
    }
}

/// The score as shown: its decimal digits, right-aligned in a field of
/// `SCORE_WIDTH` characters.
pub fn score_label(score: u32) -> (r: Vec<char>)
    ensures
        r@ == score_text(score as nat),
{
    let mut digits: Vec<char> = Vec::new();
    push_decimal(score, &mut digits);
    assert(digits@ =~= decimal(score as nat));
    proof {
        lemma_decimal_len(score as nat);
    }
    let mut r: Vec<char> = Vec::new();
    let n = digits.len();
    while r.len() + n < SCORE_WIDTH
        invariant
            n == digits@.len(),
            n <= 10,
            r@.len() + n <= SCORE_WIDTH || r@.len() == 0,
            forall|j: int| 0 <= j < r@.len() ==> r@[j] == ' ',
        decreases SCORE_WIDTH - r@.len(),
    {
        r.push(' ');
    }
    let pad = r.len();
    let mut i: usize = 0;
    while i < n
        invariant
            n == digits@.len(),
            r@.len() == pad + i,
            i <= n,
            forall|j: int| 0 <= j < pad ==> r@[j] == ' ',
            forall|j: int| 0 <= j < i ==> r@[pad + j] == digits@[j],
        decreases n - i,
    {
        r.push(digits[i]);
        i = i + 1;
    }
    proof {
        if n >= SCORE_WIDTH {
            assert(pad == 0);
            assert(r@ =~= score_text(score as nat));
        } else {
            assert(pad + n == SCORE_WIDTH);
            assert(r@ =~= score_text(score as nat));
        }
    }
    r
}

impl Game {
    /// The game is consistent when its runner is.
    pub open spec fn wf(self) -> bool {
        self.runner.wf()
    }

    /// A new game, with no score and the runner spawned at `spawn`.
    pub fn new(spawn: Point) -> (g: Game)
        requires
            in_bounds(spawn),
        ensures
            g.runner == spawned(spawn),
            g.score == 0,
            g.wf(),
    {
        Game { runner: Runner::spawned_at(spawn), score: 0 }
    }

    /// Plays one frame: `frame_time` passes for the runner on a `width` by
    /// `height` screen, then, if one of `points` touches it, it respawns at
    /// `spawn` and the score goes up by one. Returns whether it was caught.
    pub fn frame(
        &mut self,
        frame_time: u64,
        width: u32,
        height: u32,
        points: &Vec<Point>,
        spawn: Point,
    ) -> (hit: bool)
        requires
            old(self).wf(),
            old(self).score < u32::MAX,
            1 <= width <= DRAW_LIMIT,
            1 <= height <= DRAW_LIMIT,
            in_bounds(spawn),
        ensures
            exists|wait: u64, destination: Point, pace: u64|
                {
                    let moved = #[trigger] old(self).runner.step(frame_time, wait, destination, pace);
                    &&& valid_draws(wait, destination, pace, width, height)
                    &&& hit == moved.touched_by(points@)
                    &&& hit ==> final(self).runner == spawned(spawn) && final(self).score
                        == old(self).score + 1
                    &&& !hit ==> final(self).runner == moved && final(self).score == old(
                        self,
                    ).score
                },
            final(self).wf(),
    {
        self.runner.update(frame_time, width, height);
        let hit = self.runner.respawn_on_touch(points, spawn);
        if hit {
            self.score = self.score + 1;
        }
        hit
    }
}

} // verus!

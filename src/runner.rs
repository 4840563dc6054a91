//! The runner: a dot that alternately waits and glides in a straight line to
//! a random point of the screen.
use vstd::prelude::*;
use crate::geometry::{
    distance, distance_between, dist_sq, in_bounds, lemma_distance_bound, lemma_lerp_int_between,
    lerp, lerp_point, Point,
};
use crate::random::{draw_below, DRAW_LIMIT};

verus! {

/// The radius, in pixels, of a freshly spawned runner.
pub const RADIUS: u32 = 50;

/// Waits last less than this many microseconds.
pub const MAX_WAIT: u64 = 500000;

/// The fewest microseconds a glide spends on one pixel.
pub const MIN_PACE: u64 = 100;

/// A glide spends fewer than this many microseconds on one pixel.
pub const MAX_PACE: u64 = 1000;

/// No segment lasts longer than this many microseconds.
pub const MAX_SEGMENT: u64 = 0x1_0000_0000_0000;

/// How many rings make up the drawn dot.
pub const RING_COUNT: u32 = 15;

/// How much narrower each ring is than the one before, in pixels.
pub const RING_STEP: i64 = 3;

/// What the runner is doing in its current segment.
#[derive(Clone, Copy, Debug, PartialEq, Eq, Structural)]
pub enum RunnerState {
    /// Gliding from `source_position` to `destination_position`.
    LinearRun,
    /// Resting at `destination_position`.
    Wait,
}

/// The runner. Times are in microseconds, positions in pixels.
#[derive(Clone, Copy, Debug, PartialEq, Eq, Structural)]
pub struct Runner {
    pub position: Point,
    pub source_position: Point,
    pub destination_position: Point,
    /// Time spent in the current segment.
    pub current_time: u64,
    /// Length of the current segment.
    pub destination_time: u64,
    pub radius: u32,
    pub state: RunnerState,
}

/// One circle of the drawn dot: its radius and how bright it is, in
/// fifteenths of full red.
#[derive(Clone, Copy, Debug, PartialEq, Eq, Structural)]
pub struct Ring {
    pub radius: i64,
    pub level: u32,
}

/// The `i`-th ring, counting from zero, of a dot of radius `radius`.
pub open spec fn ring_at(radius: u32, i: int) -> Ring {
    Ring { radius: (radius - RING_STEP * (i + 1)) as i64, level: (i + 1) as u32 }
}

/// The random values one frame may draw are in their ranges: a wait, a
/// destination on a `width` by `height` screen, and a pace.
pub open spec fn valid_draws(wait: u64, destination: Point, pace: u64, width: u32, height: u32) -> bool {
    &&& wait < MAX_WAIT
    &&& 0 <= destination.x < width
    &&& 0 <= destination.y < height
    &&& MIN_PACE <= pace < MAX_PACE
}

/// The runner freshly spawned at `p`: waiting there, with nothing pending.
pub open spec fn spawned(p: Point) -> Runner {
    Runner {
        position: p,
        source_position: p,
        destination_position: p,
        current_time: 0,
        destination_time: 0,
        radius: RADIUS,
        state: RunnerState::Wait,
    }
}

impl Runner {
    /// The runner is consistent: points in bounds, the segment not overrun,
    /// and the position where the state puts it.
    pub open spec fn wf(self) -> bool {
        &&& in_bounds(self.position)
        &&& in_bounds(self.source_position)
        &&& in_bounds(self.destination_position)
        &&& self.current_time <= self.destination_time <= MAX_SEGMENT
        &&& match self.state {
            RunnerState::Wait => self.position == self.destination_position,
            RunnerState::LinearRun => self.position == lerp(
                self.source_position,
                self.destination_position,
                self.current_time as int,
                self.destination_time as int,
            ),
        }
    }

    /// The current segment is over once `frame_time` more has passed.
    pub open spec fn segment_done(self, frame_time: u64) -> bool {
        self.current_time + frame_time > self.destination_time
    }

    /// The runner after `frame_time` more has passed, given the wait, the
    /// destination and the pace that a new segment would take.
    pub open spec fn step(self, frame_time: u64, wait: u64, destination: Point, pace: u64) -> Runner {
        if self.segment_done(frame_time) {
            match self.state {
                RunnerState::LinearRun => Runner {
                    position: self.destination_position,
                    current_time: 0,
                    destination_time: wait,
                    state: RunnerState::Wait,
                    ..self
                },
                RunnerState::Wait => Runner {
                    position: self.destination_position,
                    source_position: self.destination_position,
                    destination_position: destination,
                    current_time: 0,
                    destination_time: (distance(self.destination_position, destination) * pace) as u64,
                    state: RunnerState::LinearRun,
                    ..self
                },
            }
        } else {
            let t = self.current_time + frame_time;
            match self.state {
                RunnerState::LinearRun => Runner {
                    position: lerp(
                        self.source_position,
                        self.destination_position,
                        t,
                        self.destination_time as int,
                    ),
                    current_time: t as u64,
                    ..self
                },
                RunnerState::Wait => Runner { current_time: t as u64, ..self },
            }
        }
    }

    /// `p` lies on or inside the runner's circle.
    pub open spec fn collides_with(self, p: Point) -> bool {
        dist_sq(self.position, p) <= self.radius * self.radius
    }

    /// One of `points` lies on or inside the runner's circle.
    pub open spec fn touched_by(self, points: Seq<Point>) -> bool {
        exists|i: int| 0 <= i < points.len() && #[trigger] self.collides_with(points[i])
    }

    /// The runner spawned at `p`, waiting there with nothing pending.
    pub fn spawned_at(p: Point) -> (r: Runner)
        requires
            in_bounds(p),
        ensures
            r == spawned(p),
            r.wf(),
    {
        Runner {
            position: p,
            source_position: p,
            destination_position: p,
            current_time: 0,
            destination_time: 0,
            radius: RADIUS,
            state: RunnerState::Wait,
        }
    }

    /// Whether `p` lies on or inside the runner's circle.
    pub fn collide(&self, p: Point) -> (r: bool)
        requires
            in_bounds(self.position),
        ensures
            r == self.collides_with(p),
    {
        let dx = p.x as i128 - self.position.x as i128;
        let dy = p.y as i128 - self.position.y as i128;
        let ax: u128 = if dx < 0 { (-dx) as u128 } else { dx as u128 };
        let ay: u128 = if dy < 0 { (-dy) as u128 } else { dy as u128 };
        let rad = self.radius as u128;
        proof {
            assert(ax * ax == dx * dx && ay * ay == dy * dy) by (nonlinear_arith)
                requires
                    ax == dx || ax == -dx,
                    ay == dy || ay == -dy,
            ;
            assert(dist_sq(self.position, p) == dx * dx + dy * dy) by (nonlinear_arith)
                requires
                    dx == p.x - self.position.x,
                    dy == p.y - self.position.y,
            ;
        }
        if ax > rad || ay > rad {
            assert(ax * ax + ay * ay > rad * rad) by (nonlinear_arith)
                requires
                    ax > rad || ay > rad,
                    rad >= 0,
            ;
            false
        } else {
            assert(ax * ax <= rad * rad && ay * ay <= rad * rad && rad * rad < 0x1_0000_0000_0000_0000)
                by (nonlinear_arith)
                requires
                    ax <= rad,
                    ay <= rad,
                    rad < 0x1_0000_0000,
            ;
            ax * ax + ay * ay <= rad * rad
        }
    }

    /// Whether any of `points` lies on or inside the runner's circle.
    pub fn is_touched(&self, points: &Vec<Point>) -> (r: bool)
        requires
            in_bounds(self.position),
        ensures
            r == self.touched_by(points@),
    {
        let mut i: usize = 0;
        while i < points.len()
            invariant
                in_bounds(self.position),
                i <= points@.len(),
                forall|j: int| 0 <= j < i ==> !#[trigger] self.collides_with(points@[j]),
            decreases points@.len() - i,
        {
            if self.collide(points[i]) {
                return true;
            }
            i = i + 1;
        }
        false
    }

    /// When one of `points` touches the runner, replaces it by the runner
    /// spawned at `spawn` and returns true; otherwise leaves it as it is.
    pub fn respawn_on_touch(&mut self, points: &Vec<Point>, spawn: Point) -> (hit: bool)
        requires
            in_bounds(old(self).position),
            in_bounds(spawn),
        ensures
            hit == old(self).touched_by(points@),
            hit ==> *final(self) == spawned(spawn),
            !hit ==> *final(self) == *old(self),
    {
        if self.is_touched(points) {
            *self = Runner::spawned_at(spawn);
            true
        } else {
            false
        }
    }

    /// The circles that draw the runner, from the widest, dimmest one inward:
    /// ring `i` (from zero) is `3 * (i + 1)` pixels narrower than the runner
    /// and `i + 1` fifteenths red.
    pub fn glow_rings(&self) -> (r: Vec<Ring>)
        ensures
            r@.len() == RING_COUNT,
            forall|i: int| 0 <= i < RING_COUNT ==> #[trigger] r@[i] == ring_at(self.radius, i),
    {
        let mut rings: Vec<Ring> = Vec::new();
        let mut i: u32 = 0;
        while i < RING_COUNT
            invariant
                i <= RING_COUNT,
                rings@.len() == i,
                forall|j: int| 0 <= j < i ==> #[trigger] rings@[j] == ring_at(self.radius, j),
            decreases RING_COUNT - i,
        {
            rings.push(Ring { radius: self.radius as i64 - RING_STEP * (i as i64 + 1), level: i + 1 });
            i = i + 1;
        }
        rings
    }

    /// Lets `frame_time` pass, drawing at random what a new segment needs:
    /// a wait below half a second, or a destination on the `width` by
    /// `height` screen and a pace of at least `MIN_PACE` and below
    /// `MAX_PACE` microseconds per pixel.
    pub fn update(&mut self, frame_time: u64, width: u32, height: u32)
        requires
            old(self).wf(),
            1 <= width <= DRAW_LIMIT,
            1 <= height <= DRAW_LIMIT,
        ensures
            exists|wait: u64, destination: Point, pace: u64|
                valid_draws(wait, destination, pace, width, height) && *final(self) == old(
                    self,
                ).step(frame_time, wait, destination, pace),
            final(self).wf(),
    {
        let t = self.current_time.saturating_add(frame_time);
        let mut wait: u64 = 0;
        let mut destination = Point { x: 0, y: 0 };
        let mut pace: u64 = MIN_PACE;
        if t > self.destination_time {
            match self.state {
                RunnerState::LinearRun => {
                    wait = draw_below(0, MAX_WAIT);
                },
                RunnerState::Wait => {
                    let x = draw_below(0, width as u64);
                    let y = draw_below(0, height as u64);
                    destination = Point { x: x as i64, y: y as i64 };
                    pace = draw_below(MIN_PACE, MAX_PACE);
                },
            }
        }
        self.advance(frame_time, wait, destination, pace);
        assert(valid_draws(wait, destination, pace, width, height));
    }

    /// Lets `frame_time` pass, starting a new segment when the current one is
    /// over: a wait of `wait` after a glide, and after a wait a glide to
    /// `destination` that takes `pace` for each pixel of its length.
    pub fn advance(&mut self, frame_time: u64, wait: u64, destination: Point, pace: u64)
        requires
            old(self).wf(),
            in_bounds(destination),
            wait < MAX_WAIT,
            pace < MAX_PACE,
        ensures
            *final(self) == old(self).step(frame_time, wait, destination, pace),
            final(self).wf(),
    {
        proof {
            lemma_step_wf(*self, frame_time, wait, destination, pace);
        }
        let t = self.current_time.saturating_add(frame_time);
        if t > self.destination_time {
            self.position = self.destination_position;
            self.current_time = 0;
            match self.state {
                RunnerState::LinearRun => {
                    self.destination_time = wait;
                    self.state = RunnerState::Wait;
                },
                RunnerState::Wait => {
                    self.source_position = self.position;
                    self.destination_position = destination;
                    let d = distance_between(self.source_position, destination);
                    assert(d * pace <= MAX_SEGMENT) by (nonlinear_arith)
                        requires
                            d <= 0x4_0000_0000,
                            pace < MAX_PACE,
                    ;
                    self.destination_time = d * pace;
                    self.state = RunnerState::LinearRun;
                },
            }
        } else {
            self.current_time = t;
            match self.state {
                RunnerState::LinearRun => {
                    self.position = lerp_point(
                        self.source_position,
                        self.destination_position,
                        t,
                        self.destination_time,
                    );
                },
                RunnerState::Wait => {},
            }
        }
    }
}

/// Time passing keeps a consistent runner consistent, whatever the draws,
/// and its clocks never go below zero.
pub proof fn lemma_step_wf(r: Runner, frame_time: u64, wait: u64, destination: Point, pace: u64)
    requires
        r.wf(),
        in_bounds(destination),
        wait < MAX_WAIT,
        pace < MAX_PACE,
    ensures
        r.step(frame_time, wait, destination, pace).wf(),
        r.step(frame_time, wait, destination, pace).current_time >= 0,
        r.step(frame_time, wait, destination, pace).destination_time >= 0,
        r.step(frame_time, wait, destination, pace).current_time <= r.step(
            frame_time,
            wait,
            destination,
            pace,
        ).destination_time,
{
    let next = r.step(frame_time, wait, destination, pace);
    if r.segment_done(frame_time) {
        if r.state == RunnerState::Wait {
            lemma_distance_bound(r.destination_position, destination);
            let d = distance(r.destination_position, destination);
            assert(0 <= d * pace <= MAX_SEGMENT) by (nonlinear_arith)
                requires
                    0 <= d <= 0x4_0000_0000,
                    0 <= pace < MAX_PACE,
            ;
            assert(next.position == lerp(
                next.source_position,
                next.destination_position,
                0,
                next.destination_time as int,
            ));
        }
    } else if r.state == RunnerState::LinearRun {
        let t = r.current_time + frame_time;
        let (a, b) = (r.source_position, r.destination_position);
        lemma_lerp_int_between(a.x as int, b.x as int, t, r.destination_time as int);
        lemma_lerp_int_between(a.y as int, b.y as int, t, r.destination_time as int);
    }
}

/// States alternate strictly: the state changes exactly when a segment ends,
/// a glide always gives way to a wait and a wait to a glide.
pub proof fn lemma_states_alternate(r: Runner, frame_time: u64, wait: u64, destination: Point, pace: u64)
    ensures
        r.step(frame_time, wait, destination, pace).state != r.state <==> r.segment_done(frame_time),
        r.state == RunnerState::LinearRun && r.segment_done(frame_time) ==> r.step(
            frame_time,
            wait,
            destination,
            pace,
        ).state == RunnerState::Wait,
        r.state == RunnerState::Wait && r.segment_done(frame_time) ==> r.step(
            frame_time,
            wait,
            destination,
            pace,
        ).state == RunnerState::LinearRun,
{
}

/// While a glide goes on, the position is the interpolation between its two
/// ends at the share of its time that has passed.
pub proof fn lemma_glide_interpolates(r: Runner, frame_time: u64, wait: u64, destination: Point, pace: u64)
    requires
        r.state == RunnerState::LinearRun,
        !r.segment_done(frame_time),
    ensures
        ({
            let next = r.step(frame_time, wait, destination, pace);
            &&& next.state == RunnerState::LinearRun
            &&& next.current_time == r.current_time + frame_time
            &&& next.current_time <= next.destination_time
            &&& next.position == lerp(
                next.source_position,
                next.destination_position,
                next.current_time as int,
                next.destination_time as int,
            )
        }),
{
}

/// When a segment ends, the runner stands exactly at the old destination and
/// its clock is back at zero.
pub proof fn lemma_segment_end_snaps(r: Runner, frame_time: u64, wait: u64, destination: Point, pace: u64)
    requires
        r.segment_done(frame_time),
    ensures
        r.step(frame_time, wait, destination, pace).position == r.destination_position,
        r.step(frame_time, wait, destination, pace).current_time == 0,
{
}

/// A point exactly at the runner's position always touches it.
pub proof fn lemma_own_position_collides(r: Runner)
    ensures
        r.collides_with(r.position),
{
    assert(0 <= r.radius * r.radius) by (nonlinear_arith);
}

/// A point farther than the radius from the runner never touches it; on the
/// integer plane that is a squared distance of at least `(radius + 1)^2`.
pub proof fn lemma_far_point_misses(r: Runner, p: Point)
    requires
        dist_sq(r.position, p) >= (r.radius + 1) * (r.radius + 1),
    ensures
        !r.collides_with(p),
{
    assert((r.radius + 1) * (r.radius + 1) > r.radius * r.radius) by (nonlinear_arith);
}

/// A respawned runner is at rest: waiting where it stands, with the start and
/// end of its segment both there and no time pending.
pub proof fn lemma_respawn_at_rest(p: Point)
    requires
        in_bounds(p),
    ensures
        spawned(p).wf(),
        spawned(p).state == RunnerState::Wait,
        spawned(p).source_position == spawned(p).position,
        spawned(p).destination_position == spawned(p).position,
        spawned(p).position == p,
        spawned(p).current_time == 0,
        spawned(p).destination_time == 0,
{
}

} // verus!

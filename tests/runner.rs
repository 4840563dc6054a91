use forcats::{
    distance_between, distance_squared, isqrt, lerp_coord, lerp_point, Point, Ring, Runner,
    RunnerState, MAX_PACE, MAX_WAIT, MIN_PACE, RADIUS, RING_COUNT,
};

fn pt(x: i64, y: i64) -> Point {
    Point { x, y }
}

fn gliding(source: Point, destination: Point, current_time: u64, destination_time: u64) -> Runner {
    Runner {
        position: lerp_point(source, destination, current_time, destination_time),
        source_position: source,
        destination_position: destination,
        current_time,
        destination_time,
        radius: RADIUS,
        state: RunnerState::LinearRun,
    }
}

#[test]
fn glide_midpoint() {
    let mut r = gliding(pt(0, 0), pt(100, 0), 0, 1_000_000);
    r.advance(500_000, 0, pt(0, 0), MIN_PACE);
    assert_eq!(r.position, pt(50, 0));
    assert_eq!(r.current_time, 500_000);
    assert_eq!(r.state, RunnerState::LinearRun);
}

#[test]
fn glide_position_is_interpolated() {
    let mut r = gliding(pt(10, 200), pt(-20, 50), 0, 3_000);
    r.advance(1_000, 0, pt(0, 0), MIN_PACE);
    assert_eq!(r.position, pt(0, 150));
    r.advance(1_000, 0, pt(0, 0), MIN_PACE);
    assert_eq!(r.position, pt(-10, 100));
    r.advance(1_000, 0, pt(0, 0), MIN_PACE);
    assert_eq!(r.position, pt(-20, 50));
    assert_eq!(r.state, RunnerState::LinearRun);
}

#[test]
fn glide_end_snaps_and_waits() {
    let mut r = gliding(pt(0, 0), pt(100, 40), 900, 1_000);
    r.advance(101, 1234, pt(7, 7), MIN_PACE);
    assert_eq!(r.position, pt(100, 40));
    assert_eq!(r.current_time, 0);
    assert_eq!(r.destination_time, 1234);
    assert_eq!(r.state, RunnerState::Wait);
}

#[test]
fn segment_end_at_exact_time_does_not_switch() {
    let mut r = gliding(pt(0, 0), pt(100, 0), 900, 1_000);
    r.advance(100, 1234, pt(7, 7), MIN_PACE);
    assert_eq!(r.state, RunnerState::LinearRun);
    assert_eq!(r.position, pt(100, 0));
    assert_eq!(r.current_time, 1_000);
}

#[test]
fn wait_end_starts_glide() {
    let mut r = Runner::spawned_at(pt(0, 0));
    r.advance(1, 0, pt(30, 40), 200);
    assert_eq!(r.state, RunnerState::LinearRun);
    assert_eq!(r.source_position, pt(0, 0));
    assert_eq!(r.destination_position, pt(30, 40));
    assert_eq!(r.position, pt(0, 0));
    assert_eq!(r.current_time, 0);
    assert_eq!(r.destination_time, 10_000);
}

#[test]
fn waiting_stays_put() {
    let mut r = Runner::spawned_at(pt(5, 6));
    r.advance(1, 100, pt(30, 40), 200);
    r.advance(10_000, 100_000, pt(1, 1), 200);
    let before = r;
    let mut w = r;
    w.state = RunnerState::Wait;
    w.position = w.destination_position;
    w.current_time = 0;
    w.destination_time = 100;
    w.advance(60, 0, pt(1, 1), 200);
    assert_eq!(w.position, before.destination_position);
    assert_eq!(w.current_time, 60);
    assert_eq!(w.state, RunnerState::Wait);
}

#[test]
fn huge_frame_time_ends_segment() {
    let mut r = gliding(pt(0, 0), pt(100, 0), 10, 1_000);
    r.advance(u64::MAX, 5, pt(0, 0), MIN_PACE);
    assert_eq!(r.state, RunnerState::Wait);
    assert_eq!(r.position, pt(100, 0));
    assert_eq!(r.current_time, 0);
}

#[test]
fn zero_length_glide_stays_at_source() {
    let mut r = Runner::spawned_at(pt(3, 3));
    r.advance(1, 0, pt(3, 3), 500);
    assert_eq!(r.destination_time, 0);
    r.advance(0, 0, pt(0, 0), MIN_PACE);
    assert_eq!(r.position, pt(3, 3));
    assert_eq!(r.state, RunnerState::LinearRun);
}

#[test]
fn updates_keep_clocks_consistent_and_alternate() {
    let mut r = Runner::spawned_at(pt(-1500, 700));
    let deltas: [u64; 6] = [0, 1, 16_667, 33_333, 250_000, 1_000_000];
    let mut switches = 0;
    for k in 0..3000usize {
        let before = r;
        let dt = deltas[k % deltas.len()];
        r.update(dt, 800, 600);
        assert!(r.current_time <= r.destination_time);
        if r.state != before.state {
            switches += 1;
            assert_eq!(r.current_time, 0);
            assert_eq!(r.position, before.destination_position);
            assert!(before.current_time + dt > before.destination_time);
            match r.state {
                RunnerState::Wait => assert!(r.destination_time < MAX_WAIT),
                RunnerState::LinearRun => {
                    let d = r.destination_position;
                    assert!(0 <= d.x && d.x < 800 && 0 <= d.y && d.y < 600);
                    let dist = distance_between(r.source_position, d);
                    assert!(r.destination_time >= dist * MIN_PACE);
                    assert!(r.destination_time <= dist * (MAX_PACE - 1));
                }
            }
        } else {
            assert!(before.current_time + dt <= before.destination_time);
        }
    }
    assert!(switches > 10);
}

#[test]
fn own_position_collides() {
    let r = Runner::spawned_at(pt(400, 300));
    assert!(r.collide(pt(400, 300)));
}

#[test]
fn collision_edge() {
    let r = Runner::spawned_at(pt(0, 0));
    assert!(r.collide(pt(50, 0)));
    assert!(r.collide(pt(30, 40)));
    assert!(!r.collide(pt(51, 0)));
    assert!(!r.collide(pt(36, 36)));
    assert!(!r.collide(pt(i64::MAX, i64::MIN)));
}

#[test]
fn touched_by_any_point() {
    let r = Runner::spawned_at(pt(100, 100));
    assert!(!r.is_touched(&vec![]));
    assert!(!r.is_touched(&vec![pt(0, 0), pt(200, 200)]));
    assert!(r.is_touched(&vec![pt(0, 0), pt(120, 90)]));
}

#[test]
fn respawn_on_touch_resets() {
    let mut r = gliding(pt(0, 0), pt(100, 0), 500, 1_000);
    let hit = r.respawn_on_touch(&vec![pt(60, 10)], pt(-900, 20));
    assert!(hit);
    assert_eq!(r, Runner::spawned_at(pt(-900, 20)));
    assert_eq!(r.state, RunnerState::Wait);
    assert_eq!(r.position, r.source_position);
    assert_eq!(r.position, r.destination_position);
    assert_eq!(r.radius, RADIUS);
}

#[test]
fn respawn_without_touch_keeps_runner() {
    let mut r = gliding(pt(0, 0), pt(100, 0), 500, 1_000);
    let before = r;
    assert!(!r.respawn_on_touch(&vec![pt(500, 500)], pt(-900, 20)));
    assert_eq!(r, before);
}

#[test]
fn glow_rings_shrink_and_brighten() {
    let r = Runner::spawned_at(pt(0, 0));
    let rings = r.glow_rings();
    assert_eq!(rings.len(), RING_COUNT as usize);
    assert_eq!(rings[0], Ring { radius: 47, level: 1 });
    assert_eq!(rings[14], Ring { radius: 5, level: 15 });
    for (i, ring) in rings.iter().enumerate() {
        assert_eq!(ring.radius, 50 - 3 * (i as i64 + 1));
        assert_eq!(ring.level, i as u32 + 1);
    }
}

#[test]
fn integer_square_roots() {
    assert_eq!(isqrt(0), 0);
    assert_eq!(isqrt(1), 1);
    assert_eq!(isqrt(15), 3);
    assert_eq!(isqrt(16), 4);
    assert_eq!(isqrt(1_000_000), 1000);
    assert_eq!(isqrt(0x8_0000_0000_0000_0000), 0x2_D413_CCCF);
}

#[test]
fn distances() {
    assert_eq!(distance_squared(pt(0, 0), pt(3, 4)), 25);
    assert_eq!(distance_between(pt(0, 0), pt(3, 4)), 5);
    assert_eq!(distance_between(pt(1, 1), pt(2, 2)), 1);
    assert_eq!(distance_between(pt(-10, 0), pt(10, 0)), 20);
}

#[test]
fn interpolation_rounds_toward_start() {
    assert_eq!(lerp_coord(0, 100, 1, 3), 33);
    assert_eq!(lerp_coord(100, 0, 1, 3), 67);
    assert_eq!(lerp_coord(-5, 5, 1, 2), 0);
    assert_eq!(lerp_coord(7, 9, 0, 0), 7);
    assert_eq!(lerp_point(pt(0, 0), pt(10, -10), 3, 4), pt(7, -7));
}

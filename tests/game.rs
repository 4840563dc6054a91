use forcats::{score_label, Game, Point, Runner, RunnerState};

fn text(score: u32) -> String {
    score_label(score).into_iter().collect()
}

#[test]
fn tap_on_runner_scores() {
    let mut g = Game::new(Point { x: 400, y: 300 });
    assert_eq!(g.score, 0);
    let spawn = Point { x: 1400, y: -300 };
    let hit = g.frame(0, 800, 600, &vec![Point { x: 400, y: 300 }], spawn);
    assert!(hit);
    assert_eq!(g.score, 1);
    assert_eq!(g.runner, Runner::spawned_at(spawn));
    assert_eq!(g.runner.state, RunnerState::Wait);
}

#[test]
fn miss_keeps_score() {
    let mut g = Game::new(Point { x: 400, y: 300 });
    let hit = g.frame(0, 800, 600, &vec![Point { x: 10, y: 10 }], Point { x: 0, y: 0 });
    assert!(!hit);
    assert_eq!(g.score, 0);
    assert_eq!(g.runner.position, Point { x: 400, y: 300 });
}

#[test]
fn no_input_no_hit() {
    let mut g = Game::new(Point { x: 400, y: 300 });
    for _ in 0..100 {
        assert!(!g.frame(16_667, 800, 600, &vec![], Point { x: 0, y: 0 }));
    }
    assert_eq!(g.score, 0);
}

#[test]
fn score_is_right_aligned() {
    assert_eq!(text(0), "    0");
    assert_eq!(text(7), "    7");
    assert_eq!(text(42), "   42");
    assert_eq!(text(12345), "12345");
    assert_eq!(text(123456), "123456");
    assert_eq!(text(u32::MAX), "4294967295");
    assert_eq!(text(0), format!("{:>5}", 0));
    assert_eq!(text(987), format!("{:>5}", 987));
}

use point_cloud::phase::{reveal_complete, Phase, HOLD_FRAMES, SETTLE_FRAMES};

fn ease(x: f64) -> f64 {
    1.0 / (1.0 + 500.0 * (-0.5 * x).exp())
}

fn saturated(x: f64) -> bool {
    ease(x) > 1.0 - 1e-8
}

#[test]
fn settle_frames_match_easing_curve() {
    for x in -200i32..400 {
        assert_eq!(saturated(x as f64), x >= SETTLE_FRAMES as i32, "x = {}", x);
    }
}

#[test]
fn appearing_ten_points_turns_to_holding_at_first_saturated_frame() {
    let n: usize = 10;
    // first integer timer whose easing value saturates, searched by bisection
    let (mut lo, mut hi) = (0i64, 1000i64);
    while hi - lo > 1 {
        let mid = (lo + hi) / 2;
        if saturated(mid as f64 - 30.0) {
            hi = mid;
        } else {
            lo = mid;
        }
    }
    assert_eq!(hi, 80);
    let mut p = Phase::start();
    let mut frames: i64 = 0;
    loop {
        let before = p;
        let new_shape = p.advance(n);
        frames += 1;
        assert!(!new_shape);
        match p {
            Phase::Holding { timer } => {
                assert_eq!(timer, 0);
                assert_eq!(before, Phase::Appearing { timer: 79 });
                break;
            }
            Phase::Appearing { timer } => assert_eq!(timer as i64, frames),
            Phase::Disappearing { .. } => panic!("skipped the held phase"),
        }
    }
    assert_eq!(frames, hi);
}

#[test]
fn holding_turns_to_disappearing_at_exactly_three_hundred() {
    let mut p = Phase::Holding { timer: 0 };
    for t in 1..HOLD_FRAMES {
        assert!(!p.advance(136));
        assert_eq!(p, Phase::Holding { timer: t });
    }
    assert_eq!(p, Phase::Holding { timer: 299 });
    assert!(!p.advance(136));
    assert_eq!(p, Phase::Disappearing { timer: 0 });
}

#[test]
fn disappearing_asks_for_new_shape_once_cascade_ends() {
    let n: usize = 125;
    let mut p = Phase::Disappearing { timer: 0 };
    for t in 1..425u32 {
        assert!(!p.advance(n));
        assert_eq!(p, Phase::Disappearing { timer: t });
    }
    assert!(p.advance(n));
    assert_eq!(p, Phase::Appearing { timer: 0 });
}

#[test]
fn timer_reads_each_phase() {
    assert_eq!(Phase::Appearing { timer: 4 }.timer(), 4);
    assert_eq!(Phase::Holding { timer: 9 }.timer(), 9);
    assert_eq!(Phase::Disappearing { timer: 2 }.timer(), 2);
}

#[test]
fn reveal_complete_boundaries() {
    assert!(!reveal_complete(79, 10));
    assert!(reveal_complete(80, 10));
    assert!(reveal_complete(50, 0));
    assert!(!reveal_complete(49, 0));
    assert!(!reveal_complete(u32::MAX, usize::MAX));
}

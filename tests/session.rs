use point_cloud::phase::Phase;
use point_cloud::selector::ShapeSelector;
use point_cloud::session::Session;

#[test]
fn new_session_starts_appearing() {
    let s = Session::new(ShapeSelector::new());
    assert_eq!(s.time(), 0);
    assert_eq!(s.phase(), Phase::Appearing { timer: 0 });
    assert!(s.points().len() <= 136);
}

#[test]
fn full_cycle_changes_shape() {
    let mut s = Session::new(ShapeSelector::new());
    let n = s.points().len() as u32;
    let kind = s.points().kind();
    let cycle = (3 * n + 50) + 300 + (3 * n + 50);
    for f in 1..cycle {
        assert!(!s.tick());
        assert_eq!(s.time(), f);
        assert_eq!(s.points().kind(), kind);
    }
    assert!(s.tick());
    assert_eq!(s.phase(), Phase::Appearing { timer: 0 });
    assert_ne!(s.points().kind(), kind);
}

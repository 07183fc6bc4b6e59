use point_cloud::selector::{generate, pick_shape, PointSet, ShapeSelector, SHAPE_COUNT};

#[test]
fn pick_never_repeats_previous() {
    for prev in 0..SHAPE_COUNT {
        let mut seen = [false; 4];
        for draw in 0..50u64 {
            let r = pick_shape(Some(prev), draw);
            assert!(r < SHAPE_COUNT);
            assert_ne!(r, prev);
            seen[r] = true;
        }
        for k in 0..SHAPE_COUNT {
            assert_eq!(seen[k], k != prev);
        }
    }
}

#[test]
fn first_pick_reaches_every_shape() {
    let picks: Vec<usize> = (0..4u64).map(|d| pick_shape(None, d)).collect();
    assert_eq!(picks, vec![0, 1, 2, 3]);
    assert_eq!(pick_shape(Some(0), 0), 1);
    assert_eq!(pick_shape(Some(3), 2), 2);
    assert_eq!(pick_shape(Some(2), 1), 0);
}

#[test]
fn selector_changes_shape_every_cycle() {
    let mut s = ShapeSelector::new();
    assert_eq!(s.last(), None);
    let mut seen = [false; 4];
    let mut prev: Option<usize> = None;
    for _ in 0..200 {
        let p = s.next();
        let k = p.kind();
        assert_ne!(Some(k), prev);
        assert_eq!(s.last(), Some(k));
        seen[k] = true;
        prev = Some(k);
    }
    assert!(seen.iter().all(|&b| b));
}

#[test]
fn generated_lengths() {
    for coin in [false, true] {
        assert_eq!(generate(0, coin).len(), 125);
        assert_eq!(generate(1, coin).len(), 136);
        assert_eq!(generate(2, coin).len(), 128);
        assert_eq!(generate(3, coin).len(), 81);
    }
    assert!(matches!(generate(0, false), PointSet::Cube(_)));
    assert!(matches!(generate(3, true), PointSet::Gasket(_)));
    assert_eq!(generate(2, true).kind(), 2);
}

#[test]
fn pick_records_choice() {
    let mut s = ShapeSelector::new();
    assert_eq!(s.pick(6), 2);
    assert_eq!(s.last(), Some(2));
    assert_eq!(s.pick(0), 3);
    assert_eq!(s.last(), Some(3));
}

use point_cloud::shapes::{cube, cube_before, cube_cells, polygon_tower, sierpinski_gasket, torus};

#[test]
fn cube_lattice_order_and_length() {
    let v = cube(false);
    assert_eq!(v.len(), 125);
    assert_eq!(v[0], (-2, -2, -2));
    assert_eq!(v[1], (-2, -2, -1));
    assert_eq!(v[5], (-2, -1, -2));
    assert_eq!(v[25], (-1, -2, -2));
    assert_eq!(v[62], (0, 0, 0));
    assert_eq!(v[124], (2, 2, 2));
    assert_eq!(v, cube_cells());
}

#[test]
fn cube_build_order_matches_float_sort() {
    let mut expected = cube_cells();
    let norm = |c: &(i32, i32, i32)| (c.0.abs() + c.1.abs() + c.2.abs()) as f64;
    expected.sort_by(|a, b| {
        norm(a)
            .partial_cmp(&norm(b))
            .unwrap()
            .then((a.2 as f64).partial_cmp(&(b.2 as f64)).unwrap())
            .then(
                (a.1 as f64)
                    .atan2(a.0 as f64)
                    .partial_cmp(&(b.1 as f64).atan2(b.0 as f64))
                    .unwrap(),
            )
    });
    let v = cube(true);
    assert_eq!(v.len(), 125);
    assert_eq!(v[0], (0, 0, 0));
    assert_eq!(v, expected);
}

#[test]
fn cube_before_orders_by_norm_then_z_then_azimuth() {
    assert!(cube_before((0, 0, 0), (1, 0, 0)));
    assert!(cube_before((0, 0, -1), (1, 0, 0)));
    assert!(cube_before((0, -1, 0), (1, 0, 0)));
    assert!(cube_before((1, 0, 0), (0, 1, 0)));
    assert!(cube_before((0, 1, 0), (-1, 0, 0)));
    assert!(!cube_before((-1, 0, 0), (0, -1, 0)));
    assert!(!cube_before((1, 1, 0), (1, 1, 0)));
}

#[test]
fn tower_rings_in_order() {
    let v = polygon_tower();
    assert_eq!(v.len(), 136);
    assert_eq!(v[0], (1, 0));
    assert_eq!(v[1], (2, 0));
    assert_eq!(v[2], (2, 1));
    assert_eq!(v[135], (16, 15));
    let mut expected = Vec::new();
    for h in 1..=16u32 {
        for n in 0..h {
            expected.push((h, n));
        }
    }
    assert_eq!(v, expected);
}

#[test]
fn torus_nesting_changes_order_only() {
    let a = torus(true);
    let b = torus(false);
    assert_eq!(a.len(), 128);
    assert_eq!(b.len(), 128);
    assert_eq!(a[1], (0, 1));
    assert_eq!(b[1], (1, 0));
    let mut sa = a.clone();
    let mut sb = b.clone();
    sa.sort();
    sb.sort();
    assert_eq!(sa, sb);
    assert_eq!(torus(true), a);
    assert_eq!(torus(false), b);
}

#[test]
fn gasket_follows_bit_subset_rule() {
    let v = sierpinski_gasket();
    let mut expected = Vec::new();
    for n in 0..16u32 {
        for k in 0..=n {
            let subset = (0..32).all(|bit| (k >> bit) & 1 == 0 || (n >> bit) & 1 == 1);
            assert_eq!(v.contains(&(n, k)), subset, "n = {}, k = {}", n, k);
            if subset {
                expected.push((n, k));
            }
        }
    }
    assert_eq!(v, expected);
    assert_eq!(v.len(), 81);
    assert!(v.len() <= 136);
}

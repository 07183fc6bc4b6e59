use point_cloud::depth::depth_order;

#[test]
fn orders_back_to_front() {
    let keys = vec![30u64, 10, 20];
    assert_eq!(depth_order(&keys), vec![1, 2, 0]);
}

#[test]
fn equal_depths_keep_shape_order() {
    let keys = vec![5u64, 1, 5, 1, 5];
    assert_eq!(depth_order(&keys), vec![1, 3, 0, 2, 4]);
}

#[test]
fn empty_and_single() {
    assert_eq!(depth_order(&Vec::new()), Vec::<usize>::new());
    assert_eq!(depth_order(&vec![u64::MAX]), vec![0]);
}

#[test]
fn same_depths_give_same_order_twice() {
    let keys: Vec<u64> = (0..136u64).map(|i| (i * 7919) % 13).collect();
    let a = depth_order(&keys);
    let b = depth_order(&keys);
    assert_eq!(a, b);
    for w in a.windows(2) {
        assert!(keys[w[0]] < keys[w[1]] || (keys[w[0]] == keys[w[1]] && w[0] < w[1]));
    }
    let mut sorted = a.clone();
    sorted.sort();
    assert_eq!(sorted, (0..136).collect::<Vec<usize>>());
}

use point_cloud::shimmer::{cycle_slot, point_offset};

#[test]
fn cycle_slot_wraps_every_256_frames() {
    assert_eq!(cycle_slot(0), 0);
    assert_eq!(cycle_slot(255), 255);
    assert_eq!(cycle_slot(256), 0);
    assert_eq!(cycle_slot(257), 1);
    assert_eq!(cycle_slot(u32::MAX), 255);
}

#[test]
fn point_offsets() {
    assert_eq!(point_offset(0), 0);
    assert_eq!(point_offset(1), 1);
    assert_eq!(point_offset(3), 123454321 % 10);
    assert_eq!(point_offset(62), 123454321 % 3845);
    assert_eq!(point_offset(0xFFFF_FFFF), 123454321);
}

use powgate::util::{quick_be_u64, round_time};

#[test]
fn be_u64_reads_big_endian() {
    assert_eq!(quick_be_u64(&[0, 0, 0, 0, 0, 0, 1, 2]), Some(258));
    assert_eq!(quick_be_u64(&[0xff; 8]), Some(u64::MAX));
    assert_eq!(
        quick_be_u64(&0x0102030405060708u64.to_be_bytes()),
        Some(0x0102030405060708)
    );
}

#[test]
fn be_u64_needs_eight_bytes() {
    assert_eq!(quick_be_u64(&[1, 2, 3]), None);
    assert_eq!(quick_be_u64(&[0; 9]), None);
    assert_eq!(quick_be_u64(&[]), None);
}

#[test]
fn round_time_to_window() {
    assert_eq!(round_time(0), 0);
    assert_eq!(round_time(29), 0);
    assert_eq!(round_time(30), 30);
    assert_eq!(round_time(65), 60);
    assert_eq!(round_time(u64::MAX), u64::MAX - u64::MAX % 30);
}

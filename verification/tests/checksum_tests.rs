use apfs_core::checksum::fletcher64;

#[test]
fn checksum_known_value() {
    // One word 1: both accumulators end at 1, so the folded halves are
    // 0xfffffffd and 1.
    assert_eq!(fletcher64(&[1, 0, 0, 0]), 0x1_FFFF_FFFD);
}

#[test]
fn checksum_empty_input() {
    // No words: both sums stay 0, both complements are 0xffffffff.
    assert_eq!(fletcher64(&[]), 0xFFFF_FFFF_FFFF_FFFF);
}

#[test]
fn checksum_is_deterministic() {
    let data: Vec<u8> = (0u16..256).map(|i| (i % 251) as u8).collect();
    assert_eq!(fletcher64(&data), fletcher64(&data));
}

#[test]
fn checksum_changes_when_any_byte_flips() {
    let data: Vec<u8> = (0u16..64).map(|i| (i * 7 % 256) as u8).collect();
    let baseline = fletcher64(&data);
    for i in 0..data.len() {
        let mut corrupted = data.clone();
        corrupted[i] ^= 0x5a;
        assert_ne!(fletcher64(&corrupted), baseline, "flip at {} undetected", i);
    }
}

#[test]
fn checksum_is_order_sensitive() {
    let a = vec![1, 2, 3, 4, 5, 6, 7, 8];
    let b = vec![5, 6, 7, 8, 1, 2, 3, 4];
    assert_ne!(fletcher64(&a), fletcher64(&b));
}

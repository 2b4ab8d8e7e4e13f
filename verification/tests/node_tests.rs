use apfs_core::block::Block;
use apfs_core::builder::build_fixed_leaf;
use apfs_core::error::ApfsError;
use apfs_core::node::BTreeNodeBlock;

fn sample_entries(n: u8) -> Vec<(Vec<u8>, Vec<u8>)> {
    (0..n).map(|i| (vec![i, 0, 0, 0, 0, 0, 0, i], vec![i, i, i, i])).collect()
}

#[test]
fn fixed_leaf_round_trip() {
    let entries = sample_entries(5);
    let bytes = build_fixed_leaf(4096, 8, 4, &entries).expect("build should succeed");
    assert_eq!(bytes.len(), 4096);

    let node = BTreeNodeBlock::from_block(Block::new(0, bytes), None).expect("parse");
    assert!(node.is_root());
    assert!(node.is_leaf());
    assert!(node.fixed_kv_size());
    assert_eq!(node.level(), 0);
    assert_eq!(node.key_count(), 5);

    let info = node.tree_info().expect("root carries footer");
    assert_eq!(info.key_size, 8);
    assert_eq!(info.val_size, 4);
    assert_eq!(info.key_count, 5);
    assert_eq!(info.node_count, 1);

    for i in 0..5 {
        let (k, v) = node.entry(i);
        assert_eq!(k, entries[i].0, "key {} differs", i);
        assert_eq!(v, entries[i].1, "value {} differs", i);
    }
}

#[test]
fn round_trip_keeps_entry_order() {
    // Deliberately unsorted keys: serialization and parsing preserve the
    // table-of-contents order as given.
    let entries = vec![
        (vec![9u8, 0, 0, 0, 0, 0, 0, 0], vec![1, 0]),
        (vec![3u8, 0, 0, 0, 0, 0, 0, 0], vec![2, 0]),
        (vec![7u8, 0, 0, 0, 0, 0, 0, 0], vec![3, 0]),
    ];
    let bytes = build_fixed_leaf(512, 8, 2, &entries).expect("build");
    let node = BTreeNodeBlock::from_block(Block::new(0, bytes), None).expect("parse");
    assert_eq!(node.key_count(), 3);
    for i in 0..3 {
        let (k, v) = node.entry(i);
        assert_eq!((k, v), entries[i]);
    }
}

#[test]
fn build_rejects_oversized_contents() {
    // 100 entries of 8+4 bytes cannot fit a 512-byte block.
    let entries: Vec<(Vec<u8>, Vec<u8>)> =
        (0..100u8).map(|i| (vec![i; 8], vec![i; 4])).collect();
    assert_eq!(build_fixed_leaf(512, 8, 4, &entries), Err(ApfsError::Malformed));
}

#[test]
fn build_rejects_mismatched_entry_sizes() {
    let entries = vec![(vec![1u8; 8], vec![2u8; 3])];
    assert_eq!(build_fixed_leaf(4096, 8, 4, &entries), Err(ApfsError::Malformed));
}

#[test]
fn parse_rejects_value_offset_beyond_block() {
    let entries = sample_entries(3);
    let mut bytes = build_fixed_leaf(4096, 8, 4, &entries).expect("build");
    // First table-of-contents entry: value offset at bytes [42, 44).
    // Claim a value offset pointing far before the key area.
    bytes[42] = 0xff;
    bytes[43] = 0xff;
    let r = BTreeNodeBlock::from_block(Block::new(0, bytes), None);
    assert!(matches!(r, Err(ApfsError::Malformed)));
}

#[test]
fn parse_rejects_key_offset_beyond_block() {
    let entries = sample_entries(3);
    let mut bytes = build_fixed_leaf(4096, 8, 4, &entries).expect("build");
    // First table-of-contents entry: key offset at bytes [40, 42).
    bytes[40] = 0xff;
    bytes[41] = 0xff;
    let r = BTreeNodeBlock::from_block(Block::new(0, bytes), None);
    assert!(matches!(r, Err(ApfsError::Malformed)));
}

#[test]
fn parse_rejects_leaf_flag_level_mismatch() {
    let entries = sample_entries(2);
    let mut bytes = build_fixed_leaf(4096, 8, 4, &entries).expect("build");
    // Claim level 1 while keeping the leaf flag.
    bytes[34] = 1;
    let r = BTreeNodeBlock::from_block(Block::new(0, bytes), None);
    assert!(matches!(r, Err(ApfsError::Malformed)));
}

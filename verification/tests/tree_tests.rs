use apfs_core::block::MemoryBlockReader;
use apfs_core::builder::build_fixed_leaf;
use apfs_core::checksum::fletcher64;
use apfs_core::error::ApfsError;
use apfs_core::node::BTreeNodeBlock;
use apfs_core::block::Block;
use apfs_core::order::KeyComparator;
use apfs_core::tree::{find, find_floor, walk};
use apfs_core::visitors::{walk_collect, LimitVisitor};

const BLOCK_SIZE: usize = 4096;

fn leaf_entries(first: u8, count: u8) -> Vec<(Vec<u8>, Vec<u8>)> {
    (0..count)
        .map(|i| {
            let b = first + i;
            (vec![b, 0, 0, 0, 0, 0, 0, 0], vec![b, 0xee, 0, 0])
        })
        .collect()
}

/// A root-only tree: one leaf block.
fn single_leaf_medium(entries: &Vec<(Vec<u8>, Vec<u8>)>) -> MemoryBlockReader {
    let image = build_fixed_leaf(BLOCK_SIZE, 8, 4, entries).expect("leaf");
    MemoryBlockReader::new(BLOCK_SIZE, &image).expect("reader")
}

/// Serialize a variable-size internal root whose entries point at child
/// block numbers.
fn build_internal_root(entries: &[(Vec<u8>, u64)], total_keys: u64, node_count: u64) -> Vec<u8> {
    let n = entries.len();
    let mut buf = vec![0u8; BLOCK_SIZE];
    buf[32..34].copy_from_slice(&1u16.to_le_bytes()); // root flag only
    buf[34..36].copy_from_slice(&1u16.to_le_bytes()); // level 1
    buf[36..40].copy_from_slice(&(n as u32).to_le_bytes());
    let data_end = BLOCK_SIZE - 24;
    let key_start = 40 + 8 * n;
    let mut koff = 0usize;
    for (i, (k, child)) in entries.iter().enumerate() {
        let base = 40 + 8 * i;
        buf[base..base + 2].copy_from_slice(&(koff as u16).to_le_bytes());
        buf[base + 2..base + 4].copy_from_slice(&(k.len() as u16).to_le_bytes());
        let voff = 8 * (i + 1);
        buf[base + 4..base + 6].copy_from_slice(&(voff as u16).to_le_bytes());
        buf[base + 6..base + 8].copy_from_slice(&8u16.to_le_bytes());
        buf[key_start + koff..key_start + koff + k.len()].copy_from_slice(k);
        buf[data_end - voff..data_end - voff + 8].copy_from_slice(&child.to_le_bytes());
        koff += k.len();
    }
    buf[BLOCK_SIZE - 24..BLOCK_SIZE - 20].copy_from_slice(&8u32.to_le_bytes());
    buf[BLOCK_SIZE - 20..BLOCK_SIZE - 16].copy_from_slice(&8u32.to_le_bytes());
    buf[BLOCK_SIZE - 16..BLOCK_SIZE - 8].copy_from_slice(&total_keys.to_le_bytes());
    buf[BLOCK_SIZE - 8..BLOCK_SIZE].copy_from_slice(&node_count.to_le_bytes());
    let sum = fletcher64(&buf[8..]);
    buf[0..8].copy_from_slice(&sum.to_le_bytes());
    buf
}

/// A two-level tree: an internal root at block 0 over two leaves.
fn two_level_medium() -> (MemoryBlockReader, Vec<(Vec<u8>, Vec<u8>)>) {
    let left = leaf_entries(1, 5);
    let right = leaf_entries(6, 5);
    let left_block = build_fixed_leaf(BLOCK_SIZE, 8, 4, &left).expect("left leaf");
    let right_block = build_fixed_leaf(BLOCK_SIZE, 8, 4, &right).expect("right leaf");
    let root = build_internal_root(
        &[(left[0].0.clone(), 1), (right[0].0.clone(), 2)],
        10,
        3,
    );
    let mut image = root;
    image.extend_from_slice(&left_block);
    image.extend_from_slice(&right_block);
    let reader = MemoryBlockReader::new(BLOCK_SIZE, &image).expect("reader");
    let mut all = left;
    all.extend(right);
    (reader, all)
}

#[test]
fn walk_single_leaf_in_order() {
    let entries = leaf_entries(1, 10);
    let reader = single_leaf_medium(&entries);
    let collected = walk_collect(&reader, KeyComparator::Bytes, 0).expect("walk");
    assert_eq!(collected, entries);
}

#[test]
fn walk_two_level_tree_in_order() {
    let (reader, all) = two_level_medium();
    let collected = walk_collect(&reader, KeyComparator::Bytes, 0).expect("walk");
    assert_eq!(collected, all);
}

#[test]
fn walk_count_matches_footer() {
    let (reader, _) = two_level_medium();
    let collected = walk_collect(&reader, KeyComparator::Bytes, 0).expect("walk");
    let root = apfs_core::block::get_block_validated(&reader, 0).expect("root block");
    let node = BTreeNodeBlock::from_block(root, None).expect("root node");
    let info = node.tree_info().expect("footer");
    assert_eq!(collected.len() as u64, info.key_count);
}

#[test]
fn find_present_keys() {
    let (reader, all) = two_level_medium();
    for (k, v) in &all {
        let hit = find(&reader, KeyComparator::Bytes, 0, k).expect("find");
        assert_eq!(hit, Some((k.clone(), v.clone())));
    }
}

#[test]
fn find_absent_key_is_none() {
    let (reader, _) = two_level_medium();
    let absent = vec![0x63u8, 1, 0, 0, 0, 0, 0, 0];
    assert_eq!(find(&reader, KeyComparator::Bytes, 0, &absent), Ok(None));
}

#[test]
fn find_agrees_with_walk_on_every_key() {
    let (reader, all) = two_level_medium();
    let collected = walk_collect(&reader, KeyComparator::Bytes, 0).expect("walk");
    for (k, v) in &collected {
        let hit = find(&reader, KeyComparator::Bytes, 0, k).expect("find");
        assert_eq!(hit, Some((k.clone(), v.clone())));
    }
    assert_eq!(collected, all);
}

#[test]
fn find_floor_picks_greatest_not_exceeding() {
    let entries = vec![
        (vec![2u8, 0, 0, 0, 0, 0, 0, 0], vec![1, 0, 0, 0]),
        (vec![5u8, 0, 0, 0, 0, 0, 0, 0], vec![2, 0, 0, 0]),
        (vec![9u8, 0, 0, 0, 0, 0, 0, 0], vec![3, 0, 0, 0]),
    ];
    let reader = single_leaf_medium(&entries);
    let probe = vec![7u8, 0, 0, 0, 0, 0, 0, 0];
    let floor = find_floor(&reader, KeyComparator::Bytes, 0, &probe).expect("floor");
    assert_eq!(floor, Some((entries[1].0.clone(), entries[1].1.clone())));

    let below = vec![1u8, 0, 0, 0, 0, 0, 0, 0];
    assert_eq!(find_floor(&reader, KeyComparator::Bytes, 0, &below), Ok(None));
}

#[test]
fn walk_aborts_on_third_of_ten() {
    let entries = leaf_entries(1, 10);
    let reader = single_leaf_medium(&entries);
    let mut visitor = LimitVisitor::new(3);
    let outcome = walk(&reader, KeyComparator::Bytes, 0, &mut visitor);
    assert_eq!(outcome, Err(ApfsError::Aborted));
    assert_eq!(visitor.seen(), 3);
}

#[test]
fn walk_without_abort_sees_everything() {
    let entries = leaf_entries(1, 10);
    let reader = single_leaf_medium(&entries);
    let mut visitor = LimitVisitor::new(100);
    let outcome = walk(&reader, KeyComparator::Bytes, 0, &mut visitor);
    assert_eq!(outcome, Ok(()));
    assert_eq!(visitor.seen(), 10);
}

#[test]
fn walk_refuses_checksum_corruption_mid_tree() {
    let left = leaf_entries(1, 5);
    let right = leaf_entries(6, 5);
    let left_block = build_fixed_leaf(BLOCK_SIZE, 8, 4, &left).expect("left leaf");
    let mut right_block = build_fixed_leaf(BLOCK_SIZE, 8, 4, &right).expect("right leaf");
    right_block[100] ^= 0xff;
    let root = build_internal_root(
        &[(left[0].0.clone(), 1), (right[0].0.clone(), 2)],
        10,
        3,
    );
    let mut image = root;
    image.extend_from_slice(&left_block);
    image.extend_from_slice(&right_block);
    let reader = MemoryBlockReader::new(BLOCK_SIZE, &image).expect("reader");
    assert_eq!(
        walk_collect(&reader, KeyComparator::Bytes, 0),
        Err(ApfsError::InvalidChecksum)
    );
}

#[test]
fn descent_through_wrong_level_is_corrupt() {
    // The root claims level 1 but points at itself: the child then
    // carries level 1 instead of 0.
    let key = vec![1u8, 0, 0, 0, 0, 0, 0, 0];
    let root = build_internal_root(&[(key.clone(), 0)], 1, 1);
    let reader = MemoryBlockReader::new(BLOCK_SIZE, &root).expect("reader");
    assert_eq!(
        walk_collect(&reader, KeyComparator::Bytes, 0),
        Err(ApfsError::CorruptTree)
    );
}

#[test]
fn parse_internal_root_shape() {
    let key = vec![1u8, 0, 0, 0, 0, 0, 0, 0];
    let root = build_internal_root(&[(key.clone(), 1)], 5, 2);
    let node = BTreeNodeBlock::from_block(Block::new(0, root), None).expect("parse");
    assert!(node.is_root());
    assert!(!node.is_leaf());
    assert_eq!(node.level(), 1);
    assert_eq!(node.key_count(), 1);
    let (k, v) = node.entry(0);
    assert_eq!(k, key);
    assert_eq!(v, 1u64.to_le_bytes().to_vec());
}

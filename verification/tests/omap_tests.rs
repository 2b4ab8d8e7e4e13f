use apfs_core::block::MemoryBlockReader;
use apfs_core::builder::build_fixed_leaf;
use apfs_core::omap::{make_omap_key, resolve, ObjectMapValue};

const BLOCK_SIZE: usize = 4096;

fn omap_entry(oid: u64, xid: u64, address: u64) -> (Vec<u8>, Vec<u8>) {
    let key = make_omap_key(oid, xid);
    let mut value = Vec::new();
    value.extend_from_slice(&0u32.to_le_bytes()); // flags
    value.extend_from_slice(&(BLOCK_SIZE as u32).to_le_bytes()); // size
    value.extend_from_slice(&address.to_le_bytes());
    (key, value)
}

/// An object map with three versions of object 0x42 and one of 0x50.
fn versioned_map() -> MemoryBlockReader {
    let entries = vec![
        omap_entry(0x42, 10, 1010),
        omap_entry(0x42, 20, 1020),
        omap_entry(0x42, 30, 1030),
        omap_entry(0x50, 15, 2015),
    ];
    let image = build_fixed_leaf(BLOCK_SIZE, 16, 16, &entries).expect("omap leaf");
    MemoryBlockReader::new(BLOCK_SIZE, &image).expect("reader")
}

fn address_of(r: Result<Option<ObjectMapValue>, apfs_core::error::ApfsError>) -> Option<u64> {
    r.expect("resolve").map(|v| v.address)
}

#[test]
fn resolve_between_versions_takes_older() {
    let reader = versioned_map();
    assert_eq!(address_of(resolve(&reader, 0, 0x42, 25)), Some(1020));
}

#[test]
fn resolve_before_first_version_is_none() {
    let reader = versioned_map();
    assert_eq!(address_of(resolve(&reader, 0, 0x42, 5)), None);
}

#[test]
fn resolve_at_exact_version() {
    let reader = versioned_map();
    assert_eq!(address_of(resolve(&reader, 0, 0x42, 30)), Some(1030));
    assert_eq!(address_of(resolve(&reader, 0, 0x42, 10)), Some(1010));
}

#[test]
fn resolve_after_last_version_takes_newest() {
    let reader = versioned_map();
    assert_eq!(address_of(resolve(&reader, 0, 0x42, 1000)), Some(1030));
}

#[test]
fn resolve_unknown_object_is_none() {
    let reader = versioned_map();
    assert_eq!(address_of(resolve(&reader, 0, 0x07, 100)), None);
}

#[test]
fn resolve_does_not_leak_neighbouring_object() {
    let reader = versioned_map();
    assert_eq!(address_of(resolve(&reader, 0, 0x50, 14)), None);
    assert_eq!(address_of(resolve(&reader, 0, 0x50, 99)), Some(2015));
}

#[test]
fn omap_key_layout() {
    let key = make_omap_key(0x0102_0304_0506_0708, 0x1122_3344_5566_7788);
    assert_eq!(key.len(), 16);
    assert_eq!(&key[0..8], &0x0102_0304_0506_0708u64.to_le_bytes());
    assert_eq!(&key[8..16], &0x1122_3344_5566_7788u64.to_le_bytes());
}

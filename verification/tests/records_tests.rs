use apfs_core::error::ApfsError;
use apfs_core::records::{fs_key_id, fs_key_type, FileSystemRecord};

fn fs_key(tag: u64, id: u64) -> Vec<u8> {
    let header = (tag << 60) | (id & 0x0fff_ffff_ffff_ffff);
    header.to_le_bytes().to_vec()
}

#[test]
fn key_header_splits_type_and_id() {
    let key = fs_key(3, 0x1234);
    assert_eq!(fs_key_type(&key), Ok(3));
    assert_eq!(fs_key_id(&key), Ok(0x1234));
}

#[test]
fn key_header_too_small() {
    assert_eq!(fs_key_type(&[1, 2, 3]), Err(ApfsError::InputTooSmall));
    assert_eq!(fs_key_id(&[]), Err(ApfsError::InputTooSmall));
}

#[test]
fn record_dispatch_by_tag() {
    let value = vec![0xaa, 0xbb];
    let rec = FileSystemRecord::new(fs_key(3, 7), value.clone()).expect("inode");
    assert!(matches!(rec, FileSystemRecord::Inode(_, _)));
    if let FileSystemRecord::Inode(k, v) = rec {
        assert_eq!(k, fs_key(3, 7));
        assert_eq!(v, value);
    }

    assert!(matches!(
        FileSystemRecord::new(fs_key(1, 1), vec![]).expect("snap meta"),
        FileSystemRecord::SnapshotMetadata(_, _)
    ));
    assert!(matches!(
        FileSystemRecord::new(fs_key(8, 1), vec![]).expect("file extent"),
        FileSystemRecord::FileExtent(_, _)
    ));
    assert!(matches!(
        FileSystemRecord::new(fs_key(9, 1), vec![]).expect("dir rec"),
        FileSystemRecord::DirectoryEntryHashed(_, _)
    ));
    assert!(matches!(
        FileSystemRecord::new(fs_key(13, 1), vec![]).expect("file info"),
        FileSystemRecord::FileInfo(_, _)
    ));
}

#[test]
fn record_rejects_reserved_tags() {
    assert_eq!(
        FileSystemRecord::new(fs_key(0, 1), vec![]).err(),
        Some(ApfsError::InvalidFileSystemObjectType)
    );
    assert_eq!(
        FileSystemRecord::new(fs_key(14, 1), vec![]).err(),
        Some(ApfsError::InvalidFileSystemObjectType)
    );
    assert_eq!(
        FileSystemRecord::new(fs_key(15, 1), vec![]).err(),
        Some(ApfsError::InvalidFileSystemObjectType)
    );
}

#[test]
fn record_rejects_short_key() {
    assert_eq!(
        FileSystemRecord::new(vec![1, 2], vec![]).err(),
        Some(ApfsError::InputTooSmall)
    );
}

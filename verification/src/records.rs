//! Filesystem records: dispatch of a leaf entry on the record-type tag
//! embedded in its key.
//!
//! Every filesystem-tree key begins with a common 64-bit header whose top
//! four bits carry the record type and whose low sixty bits carry the
//! object id. The traversal engine never interprets record semantics; this
//! module only sorts raw key and value bytes into typed variants, leaving
//! payload decoding to per-type collaborators.

use vstd::prelude::*;

verus! {

use vstd::bytes::u64_from_le_bytes;
use vstd::slice::slice_subrange;
use crate::error::ApfsError;
use crate::node::spec_u64_at;

/// The record type stored in the top four bits of a filesystem key's
/// leading 64-bit header.
pub open spec fn spec_fs_key_type(k: Seq<u8>) -> u64
    recommends
        k.len() >= 8,
{
    spec_u64_at(k, 0) >> 60
}

/// The object id stored in the low sixty bits of a filesystem key's
/// leading 64-bit header.
pub open spec fn spec_fs_key_id(k: Seq<u8>) -> u64
    recommends
        k.len() >= 8,
{
    spec_u64_at(k, 0) & 0x0fff_ffff_ffff_ffff
}

/// Read the record type tag of a filesystem key.
pub fn fs_key_type(key: &[u8]) -> (r: Result<u64, ApfsError>)
    ensures
        match r {
            Ok(t) => key@.len() >= 8 && t == spec_fs_key_type(key@),
            Err(e) => e is InputTooSmall && key@.len() < 8,
        },
{
    if key.len() < 8 {
        return Err(ApfsError::InputTooSmall);
    }
    let header = u64_from_le_bytes(slice_subrange(key, 0, 8));
    Ok(header >> 60)
}

/// Read the object id of a filesystem key.
pub fn fs_key_id(key: &[u8]) -> (r: Result<u64, ApfsError>)
    ensures
        match r {
            Ok(id) => key@.len() >= 8 && id == spec_fs_key_id(key@),
            Err(e) => e is InputTooSmall && key@.len() < 8,
        },
{
    if key.len() < 8 {
        return Err(ApfsError::InputTooSmall);
    }
    let header = u64_from_le_bytes(slice_subrange(key, 0, 8));
    Ok(header & 0x0fff_ffff_ffff_ffff)
}

/// Represents the distinct types of filesystem record key-value pairs.
///
/// Each variant carries the raw key and value bytes of one leaf entry;
/// their payload layouts belong to the per-type decoders.
#[derive(Clone, Debug)]
pub enum FileSystemRecord {
    /// Metadata about a snapshot.
    SnapshotMetadata(Vec<u8>, Vec<u8>),
    /// A physical extent record.
    PhysicalExtent(Vec<u8>, Vec<u8>),
    /// An inode record.
    Inode(Vec<u8>, Vec<u8>),
    /// An extended attribute record.
    ExtendedAttribute(Vec<u8>, Vec<u8>),
    /// A sibling-link record.
    SiblingLink(Vec<u8>, Vec<u8>),
    /// A data-stream id record.
    DataStreamId(Vec<u8>, Vec<u8>),
    /// An encryption-state record.
    EncryptionState(Vec<u8>, Vec<u8>),
    /// A file extent record.
    FileExtent(Vec<u8>, Vec<u8>),
    /// A directory entry record.
    DirectoryEntry(Vec<u8>, Vec<u8>),
    /// A directory entry record with a hashed name key.
    DirectoryEntryHashed(Vec<u8>, Vec<u8>),
    /// A directory statistics record.
    DirectoryStats(Vec<u8>, Vec<u8>),
    /// A snapshot name record.
    SnapshotName(Vec<u8>, Vec<u8>),
    /// A sibling-map record.
    SiblingMap(Vec<u8>, Vec<u8>),
    /// A file information record.
    FileInfo(Vec<u8>, Vec<u8>),
}

impl FileSystemRecord {
    /// Dispatch a leaf entry on its key's record-type tag.
    ///
    /// Fails with `InputTooSmall` when the key cannot hold the common
    /// header, and with `InvalidFileSystemObjectType` exactly on the tags
    /// that name no concrete record type.
    pub fn new(key: Vec<u8>, value: Vec<u8>) -> (r: Result<Self, ApfsError>)
        ensures
            match r {
                Ok(rec) => {
                    &&& key@.len() >= 8
                    &&& 1 <= spec_fs_key_type(key@) <= 13
                    &&& (spec_fs_key_type(key@) == 1 <==> (rec matches FileSystemRecord::SnapshotMetadata(k, v) && k@ == key@ && v@ == value@))
                    &&& (spec_fs_key_type(key@) == 2 <==> (rec matches FileSystemRecord::PhysicalExtent(k, v) && k@ == key@ && v@ == value@))
                    &&& (spec_fs_key_type(key@) == 3 <==> (rec matches FileSystemRecord::Inode(k, v) && k@ == key@ && v@ == value@))
                    &&& (spec_fs_key_type(key@) == 4 <==> (rec matches FileSystemRecord::ExtendedAttribute(k, v) && k@ == key@ && v@ == value@))
                    &&& (spec_fs_key_type(key@) == 5 <==> (rec matches FileSystemRecord::SiblingLink(k, v) && k@ == key@ && v@ == value@))
                    &&& (spec_fs_key_type(key@) == 6 <==> (rec matches FileSystemRecord::DataStreamId(k, v) && k@ == key@ && v@ == value@))
                    &&& (spec_fs_key_type(key@) == 7 <==> (rec matches FileSystemRecord::EncryptionState(k, v) && k@ == key@ && v@ == value@))
                    &&& (spec_fs_key_type(key@) == 8 <==> (rec matches FileSystemRecord::FileExtent(k, v) && k@ == key@ && v@ == value@))
                    &&& (spec_fs_key_type(key@) == 9 <==> (rec matches FileSystemRecord::DirectoryEntryHashed(k, v) && k@ == key@ && v@ == value@))
                    &&& (spec_fs_key_type(key@) == 10 <==> (rec matches FileSystemRecord::DirectoryStats(k, v) && k@ == key@ && v@ == value@))
                    &&& (spec_fs_key_type(key@) == 11 <==> (rec matches FileSystemRecord::SnapshotName(k, v) && k@ == key@ && v@ == value@))
                    &&& (spec_fs_key_type(key@) == 12 <==> (rec matches FileSystemRecord::SiblingMap(k, v) && k@ == key@ && v@ == value@))
                    &&& (spec_fs_key_type(key@) == 13 <==> (rec matches FileSystemRecord::FileInfo(k, v) && k@ == key@ && v@ == value@))
                },
                Err(e) => {
                    ||| (e is InputTooSmall && key@.len() < 8)
                    ||| (e is InvalidFileSystemObjectType && key@.len() >= 8 && (spec_fs_key_type(
                        key@,
                    ) == 0 || spec_fs_key_type(key@) >= 14))
                },
            },
    {
        let tag = fs_key_type(key.as_slice())?;
        match tag {
            1u64 => Ok(FileSystemRecord::SnapshotMetadata(key, value)),
            2u64 => Ok(FileSystemRecord::PhysicalExtent(key, value)),
            3u64 => Ok(FileSystemRecord::Inode(key, value)),
            4u64 => Ok(FileSystemRecord::ExtendedAttribute(key, value)),
            5u64 => Ok(FileSystemRecord::SiblingLink(key, value)),
            6u64 => Ok(FileSystemRecord::DataStreamId(key, value)),
            7u64 => Ok(FileSystemRecord::EncryptionState(key, value)),
            8u64 => Ok(FileSystemRecord::FileExtent(key, value)),
            9u64 => Ok(FileSystemRecord::DirectoryEntryHashed(key, value)),
            10u64 => Ok(FileSystemRecord::DirectoryStats(key, value)),
            11u64 => Ok(FileSystemRecord::SnapshotName(key, value)),
            12u64 => Ok(FileSystemRecord::SiblingMap(key, value)),
            13u64 => Ok(FileSystemRecord::FileInfo(key, value)),
            _ => Err(ApfsError::InvalidFileSystemObjectType),
        }
    }
}

} // verus!

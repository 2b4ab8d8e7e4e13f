//! Error types for block reading, byte parsing, and tree traversal.

use vstd::prelude::*;

verus! {

/// Error for a block reading operation.
#[derive(Clone, Copy, Debug, PartialEq, Eq)]
pub enum BlockReadError {
    /// The requested block number lies beyond the medium's block count.
    BlockBounds(u64),
    /// The medium failed to produce a full block.
    Io,
    /// Another block reading failure, described by the carried text.
    Other(&'static str),
}

/// An error when reading or parsing on-disk data structures.
#[derive(Clone, Copy, Debug, PartialEq, Eq, Structural)]
pub enum ParseError {
    /// Data structure cannot be parsed because not enough input data was provided.
    InputTooSmall,
    /// Data structure cannot be casted because the memory address is not aligned.
    NonAligned,
    /// Supposedly NULL terminated string data is not NULL terminated.
    StringNotNullTerminated,
    /// Supposedly UTF-8 string data is not valid UTF-8.
    StringNotUtf8,
}

/// Top-level error for operations on the filesystem structures.
#[derive(Clone, Copy, Debug, PartialEq, Eq, Structural)]
pub enum ApfsError {
    /// A medium read failure.
    Io,
    /// A block number beyond the medium's extent.
    BlockBounds(u64),
    /// A block whose stored checksum does not match its contents.
    InvalidChecksum,
    /// Not enough input bytes for the value to be decoded.
    InputTooSmall,
    /// A node layout that is internally inconsistent.
    Malformed,
    /// A traversal invariant was violated while descending a tree.
    CorruptTree,
    /// A filesystem record key carries no decodable object type.
    InvalidFileSystemObjectType,
    /// A full scan was stopped early at the visitor's request.
    Aborted,
}

impl ApfsError {
    /// A short human-readable description of the error.
    pub fn describe(&self) -> &'static str {
        match self {
            ApfsError::Io => "I/O error reading block data",
            ApfsError::BlockBounds(_) => "block number is out of bounds",
            ApfsError::InvalidChecksum => "block checksum mismatch",
            ApfsError::InputTooSmall => "input too small",
            ApfsError::Malformed => "malformed node layout",
            ApfsError::CorruptTree => "tree traversal invariant violated",
            ApfsError::InvalidFileSystemObjectType => "invalid filesystem object type",
            ApfsError::Aborted => "scan aborted by visitor",
        }
    }
}

} // verus!

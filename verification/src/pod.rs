//! Plain old data: little-endian field decoding from byte slices.

use vstd::prelude::*;

verus! {

use vstd::bytes::{
    spec_u16_from_le_bytes, spec_u32_from_le_bytes, spec_u64_from_le_bytes, u16_from_le_bytes,
    u32_from_le_bytes, u64_from_le_bytes,
};
use vstd::slice::slice_subrange;
use crate::error::{ApfsError, ParseError};

/// Parse a little-endian `u16` at `*offset`, advancing the offset past it.
pub fn parse_le_u16(offset: &mut usize, data: &[u8]) -> (r: Result<u16, ApfsError>)
    ensures
        match r {
            Ok(v) => {
                &&& *old(offset) + 2 <= data@.len()
                &&& *final(offset) == *old(offset) + 2
                &&& v == spec_u16_from_le_bytes(
                    data@.subrange(*old(offset) as int, *old(offset) + 2),
                )
            },
            Err(e) => {
                &&& e is InputTooSmall
                &&& *final(offset) == *old(offset)
                &&& *old(offset) + 2 > data@.len()
            },
        },
{
    if data.len() >= 2 && *offset <= data.len() - 2 {
        {
            let end = *offset + 2;
            let bytes = slice_subrange(data, *offset, end);
            let v = u16_from_le_bytes(bytes);
            *offset = end;
            Ok(v)
        }
    } else {
        Err(ApfsError::InputTooSmall)
    }
}

/// Parse a little-endian `u32` at `*offset`, advancing the offset past it.
pub fn parse_le_u32(offset: &mut usize, data: &[u8]) -> (r: Result<u32, ApfsError>)
    ensures
        match r {
            Ok(v) => {
                &&& *old(offset) + 4 <= data@.len()
                &&& *final(offset) == *old(offset) + 4
                &&& v == spec_u32_from_le_bytes(
                    data@.subrange(*old(offset) as int, *old(offset) + 4),
                )
            },
            Err(e) => {
                &&& e is InputTooSmall
                &&& *final(offset) == *old(offset)
                &&& *old(offset) + 4 > data@.len()
            },
        },
{
    if data.len() >= 4 && *offset <= data.len() - 4 {
        {
            let end = *offset + 4;
            let bytes = slice_subrange(data, *offset, end);
            let v = u32_from_le_bytes(bytes);
            *offset = end;
            Ok(v)
        }
    } else {
        Err(ApfsError::InputTooSmall)
    }
}

/// Parse a little-endian `i64` at `*offset`, advancing the offset past it.
pub fn parse_le_i64(offset: &mut usize, data: &[u8]) -> (r: Result<i64, ApfsError>)
    ensures
        match r {
            Ok(v) => {
                &&& *old(offset) + 8 <= data@.len()
                &&& *final(offset) == *old(offset) + 8
                &&& v == spec_u64_from_le_bytes(
                    data@.subrange(*old(offset) as int, *old(offset) + 8),
                ) as i64
            },
            Err(e) => {
                &&& e is InputTooSmall
                &&& *final(offset) == *old(offset)
                &&& *old(offset) + 8 > data@.len()
            },
        },
{
    if data.len() >= 8 && *offset <= data.len() - 8 {
        {
            let end = *offset + 8;
            let bytes = slice_subrange(data, *offset, end);
            let v = u64_from_le_bytes(bytes);
            *offset = end;
            Ok(#[verifier::truncate] (v as i64))
        }
    } else {
        Err(ApfsError::InputTooSmall)
    }
}

/// Parse a little-endian `u64` at `*offset`, advancing the offset past it.
pub fn parse_le_u64(offset: &mut usize, data: &[u8]) -> (r: Result<u64, ApfsError>)
    ensures
        match r {
            Ok(v) => {
                &&& *old(offset) + 8 <= data@.len()
                &&& *final(offset) == *old(offset) + 8
                &&& v == spec_u64_from_le_bytes(
                    data@.subrange(*old(offset) as int, *old(offset) + 8),
                )
            },
            Err(e) => {
                &&& e is InputTooSmall
                &&& *final(offset) == *old(offset)
                &&& *old(offset) + 8 > data@.len()
            },
        },
{
    if data.len() >= 8 && *offset <= data.len() - 8 {
        {
            let end = *offset + 8;
            let bytes = slice_subrange(data, *offset, end);
            let v = u64_from_le_bytes(bytes);
            *offset = end;
            Ok(v)
        }
    } else {
        Err(ApfsError::InputTooSmall)
    }
}

/// Describes a data structure persisted to disk.
///
/// Implementations decode an owned value from the leading bytes of a slice,
/// rejecting slices too small for the type.
pub trait DiskStruct where Self: Sized {
    /// Parse a slice of bytes into an owned version of a type.
    fn parse_bytes(data: &[u8]) -> Result<Self, ParseError>;
}

impl DiskStruct for u8 {
    fn parse_bytes(data: &[u8]) -> (r: Result<Self, ParseError>)
        ensures
            match r {
                Ok(v) => data@.len() >= 1 && v == data@[0],
                Err(e) => e is InputTooSmall && data@.len() < 1,
            },
    {
        if data.len() >= 1 {
            Ok(data[0])
        } else {
            Err(ParseError::InputTooSmall)
        }
    }
}

impl DiskStruct for u16 {
    fn parse_bytes(data: &[u8]) -> (r: Result<Self, ParseError>)
        ensures
            match r {
                Ok(v) => data@.len() >= 2 && v == spec_u16_from_le_bytes(data@.subrange(0, 2)),
                Err(e) => e is InputTooSmall && data@.len() < 2,
            },
    {
        if data.len() >= 2 {
            Ok(u16_from_le_bytes(slice_subrange(data, 0, 2)))
        } else {
            Err(ParseError::InputTooSmall)
        }
    }
}

impl DiskStruct for i32 {
    fn parse_bytes(data: &[u8]) -> (r: Result<Self, ParseError>)
        ensures
            match r {
                Ok(v) => data@.len() >= 4 && v == spec_u32_from_le_bytes(
                    data@.subrange(0, 4),
                ) as i32,
                Err(e) => e is InputTooSmall && data@.len() < 4,
            },
    {
        if data.len() >= 4 {
            Ok(u32_from_le_bytes(slice_subrange(data, 0, 4)) as i32)
        } else {
            Err(ParseError::InputTooSmall)
        }
    }
}

impl DiskStruct for u32 {
    fn parse_bytes(data: &[u8]) -> (r: Result<Self, ParseError>)
        ensures
            match r {
                Ok(v) => data@.len() >= 4 && v == spec_u32_from_le_bytes(data@.subrange(0, 4)),
                Err(e) => e is InputTooSmall && data@.len() < 4,
            },
    {
        if data.len() >= 4 {
            Ok(u32_from_le_bytes(slice_subrange(data, 0, 4)))
        } else {
            Err(ParseError::InputTooSmall)
        }
    }
}

impl DiskStruct for i64 {
    fn parse_bytes(data: &[u8]) -> (r: Result<Self, ParseError>)
        ensures
            match r {
                Ok(v) => data@.len() >= 8 && v == spec_u64_from_le_bytes(
                    data@.subrange(0, 8),
                ) as i64,
                Err(e) => e is InputTooSmall && data@.len() < 8,
            },
    {
        if data.len() >= 8 {
            Ok(u64_from_le_bytes(slice_subrange(data, 0, 8)) as i64)
        } else {
            Err(ParseError::InputTooSmall)
        }
    }
}

impl DiskStruct for u64 {
    fn parse_bytes(data: &[u8]) -> (r: Result<Self, ParseError>)
        ensures
            match r {
                Ok(v) => data@.len() >= 8 && v == spec_u64_from_le_bytes(data@.subrange(0, 8)),
                Err(e) => e is InputTooSmall && data@.len() < 8,
            },
    {
        if data.len() >= 8 {
            Ok(u64_from_le_bytes(slice_subrange(data, 0, 8)))
        } else {
            Err(ParseError::InputTooSmall)
        }
    }
}

/// Marker trait indicating a struct is static sized.
pub trait StaticSized: Sized + Clone {

}

/// Marker trait for the key part of a filesystem record.
pub trait FileSystemRecordKey: Clone {

}

/// Marker trait for the value part of a filesystem record.
pub trait FileSystemRecordValue: Clone {

}

} // verus!

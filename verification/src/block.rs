//! Block-level primitives: fixed-size blocks, the common object header, and
//! checksum-gated block access.

use vstd::prelude::*;

verus! {

use vstd::bytes::{spec_u32_from_le_bytes, spec_u64_from_le_bytes};
use vstd::slice::{slice_subrange, slice_to_vec};
use crate::checksum::{fletcher64, spec_fletcher64};
use crate::error::{ApfsError, BlockReadError};
use crate::pod::{parse_le_u32, parse_le_u64};

/// Number of bytes occupied by the common object header at the start of a
/// checksummed block.
pub const OBJECT_HEADER_SIZE: usize = 32;

/// The smallest block size the library accepts: a block must at least hold
/// the common object header.
pub const BLOCK_SIZE_MIN: usize = 32;

/// The largest block size the library accepts, bounded by the checksum's
/// input limit.
pub const BLOCK_SIZE_MAX: usize = 65536;

/// The common header embedded at offset 0 of most blocks: an 8-byte
/// checksum, a 64-bit object id, a 64-bit transaction id, a 32-bit
/// type-and-flags field, and a 32-bit subtype.
#[derive(Clone, Copy, Debug, PartialEq, Eq, Structural)]
pub struct ObjectHeader {
    /// Checksum of the block's bytes past the checksum field itself.
    pub checksum: u64,
    /// The object's identifier.
    pub object_identifier: u64,
    /// The transaction that last wrote the object.
    pub transaction_identifier: u64,
    /// The object's type together with its flag bits.
    pub typ: u32,
    /// The object's subtype.
    pub subtype: u32,
}

/// The object header denoted by the first 32 bytes of `s`.
pub open spec fn spec_object_header(s: Seq<u8>) -> ObjectHeader
    recommends
        s.len() >= OBJECT_HEADER_SIZE,
{
    ObjectHeader {
        checksum: spec_u64_from_le_bytes(s.subrange(0, 8)),
        object_identifier: spec_u64_from_le_bytes(s.subrange(8, 16)),
        transaction_identifier: spec_u64_from_le_bytes(s.subrange(16, 24)),
        typ: spec_u32_from_le_bytes(s.subrange(24, 28)),
        subtype: spec_u32_from_le_bytes(s.subrange(28, 32)),
    }
}

/// Whether a block-sized byte sequence is acceptable to the block layer:
/// large enough for the object header, word-aligned for the checksum, and
/// within the checksum's input limit.
pub open spec fn spec_block_len_ok(len: nat) -> bool {
    &&& BLOCK_SIZE_MIN <= len <= BLOCK_SIZE_MAX
    &&& len % 4 == 0
}

/// Whether the stored checksum of a block's bytes matches the checksum
/// computed over everything past the checksum field.
pub open spec fn spec_checksum_ok(s: Seq<u8>) -> bool
    recommends
        spec_block_len_ok(s.len()),
{
    spec_object_header(s).checksum == spec_fletcher64(s.skip(8))
}

/// A container block and its underlying data.
pub struct Block {
    number: u64,
    buf: Vec<u8>,
}

impl Block {
    /// The bytes backing this block.
    pub closed spec fn spec_bytes(&self) -> Seq<u8> {
        self.buf@
    }

    /// The number this block was read from.
    pub closed spec fn spec_number(&self) -> u64 {
        self.number
    }

    /// Construct an instance from its block number and read data.
    pub fn new(number: u64, buf: Vec<u8>) -> (r: Self)
        ensures
            r.spec_number() == number,
            r.spec_bytes() == buf@,
    {
        Self { number, buf }
    }

    /// The block number.
    ///
    /// 0 is the first block.
    pub fn number(&self) -> (r: u64)
        ensures
            r == self.spec_number(),
    {
        self.number
    }

    /// Obtain the raw bytes backing this block.
    pub fn bytes(&self) -> (r: &Vec<u8>)
        ensures
            r@ == self.spec_bytes(),
    {
        &self.buf
    }

    /// Compute the checksum for this block as a physical object.
    ///
    /// This checksums the full block minus the first 8 bytes, which store
    /// the checksum itself.
    pub fn checksum_object(&self) -> (r: u64)
        requires
            spec_block_len_ok(self.spec_bytes().len()),
        ensures
            r == spec_fletcher64(self.spec_bytes().skip(8)),
    {
        let payload = slice_subrange(self.buf.as_slice(), 8, self.buf.len());
        proof {
            assert(payload@ =~= self.spec_bytes().skip(8));
        }
        fletcher64(payload)
    }

    /// Resolve the parsed common object header from this block.
    ///
    /// Not all blocks contain an object header; calling this on headerless
    /// blocks returns garbage values in the header. It is up to callers to
    /// validate the block's validity.
    pub fn object_header(&self) -> (r: Result<ObjectHeader, ApfsError>)
        ensures
            match r {
                Ok(h) => self.spec_bytes().len() >= OBJECT_HEADER_SIZE && h == spec_object_header(
                    self.spec_bytes(),
                ),
                Err(e) => e is InputTooSmall && self.spec_bytes().len() < OBJECT_HEADER_SIZE,
            },
    {
        let data = self.buf.as_slice();
        let mut offset: usize = 0;
        let checksum = parse_le_u64(&mut offset, data)?;
        let object_identifier = parse_le_u64(&mut offset, data)?;
        let transaction_identifier = parse_le_u64(&mut offset, data)?;
        let typ = parse_le_u32(&mut offset, data)?;
        let subtype = parse_le_u32(&mut offset, data)?;
        Ok(ObjectHeader { checksum, object_identifier, transaction_identifier, typ, subtype })
    }

    /// Ensure the checksum is valid, returning an error if not.
    pub fn validate_checksum(&self) -> (r: Result<(), ApfsError>)
        requires
            spec_block_len_ok(self.spec_bytes().len()),
        ensures
            r is Ok <==> spec_checksum_ok(self.spec_bytes()),
            r matches Err(e) ==> e is InvalidChecksum,
    {
        let header = match self.object_header() {
            Ok(h) => h,
            Err(_) => {
                return Err(ApfsError::InvalidChecksum);
            },
        };
        if header.checksum == self.checksum_object() {
            Ok(())
        } else {
            Err(ApfsError::InvalidChecksum)
        }
    }
}

/// The mathematical model of a block medium: a block size and the contents
/// of each block, indexed by block number.
pub struct MediumView {
    /// The container-wide block size in bytes.
    pub block_size: nat,
    /// The contents of each block.
    pub blocks: Seq<Seq<u8>>,
}

impl MediumView {
    /// A well-formed medium has an acceptable block size, and every block
    /// holds exactly `block_size` bytes.
    pub open spec fn wf(self) -> bool {
        &&& spec_block_len_ok(self.block_size)
        &&& forall|i: int|
            0 <= i < self.blocks.len() ==> (#[trigger] self.blocks[i]).len() == self.block_size
    }
}

/// Interface for reading blocks.
///
/// An implementation exposes a medium as a sequence of fixed-size blocks.
/// A reliable reader (an in-memory image) never fails to produce a block
/// that exists; an unreliable one (a device) may fail any read.
pub trait BlockReader: Sized {
    /// The mathematical content of the medium.
    spec fn medium(&self) -> MediumView;

    /// Whether reads of in-bounds blocks are guaranteed to succeed.
    spec fn reliable(&self) -> bool;

    /// Obtain the size of blocks in bytes.
    fn block_size(&self) -> (r: usize)
        ensures
            r == self.medium().block_size,
    ;

    /// Obtain the number of blocks in the medium.
    fn block_count(&self) -> (r: u64)
        ensures
            r == self.medium().blocks.len(),
    ;

    /// Resolve a [`Block`] instance for a specified block number.
    ///
    /// On success the returned block carries exactly the medium's bytes for
    /// that number. Out-of-bounds numbers fail with `BlockBounds`; on a
    /// reliable reader no other failure can occur.
    fn get_block(&self, number: u64) -> (r: Result<Block, BlockReadError>)
        ensures
            r matches Ok(b) ==> {
                &&& number < self.medium().blocks.len()
                &&& b.spec_number() == number
                &&& b.spec_bytes() == self.medium().blocks[number as int]
            },
            r matches Err(e) ==> {
                &&& (e matches BlockReadError::BlockBounds(m) ==> m == number && number
                    >= self.medium().blocks.len())
                &&& (!(e is BlockBounds) ==> !self.reliable())
            },
            self.reliable() && number < self.medium().blocks.len() ==> r is Ok,
    ;
}

/// Get a block and validate its checksum.
///
/// Call this instead of [`BlockReader::get_block`] when the block being read
/// is known to carry a physical object header: every tree descent through an
/// untrusted block number must go through this gate, and a block that fails
/// it is never handed to the node codec.
pub fn get_block_validated<R: BlockReader>(reader: &R, number: u64) -> (r: Result<
    Block,
    ApfsError,
>)
    requires
        reader.medium().wf(),
    ensures
        r matches Ok(b) ==> {
            &&& number < reader.medium().blocks.len()
            &&& b.spec_number() == number
            &&& b.spec_bytes() == reader.medium().blocks[number as int]
            &&& spec_checksum_ok(b.spec_bytes())
        },
        reader.reliable() ==> match r {
            Ok(b) => true,
            Err(e) => {
                ||| (e == ApfsError::BlockBounds(number) && number >= reader.medium().blocks.len())
                ||| (e == ApfsError::InvalidChecksum && number < reader.medium().blocks.len()
                    && !spec_checksum_ok(reader.medium().blocks[number as int]))
            },
        },
{
    let block = match reader.get_block(number) {
        Ok(b) => b,
        Err(BlockReadError::BlockBounds(m)) => {
            return Err(ApfsError::BlockBounds(m));
        },
        Err(_) => {
            return Err(ApfsError::Io);
        },
    };
    block.validate_checksum()?;
    Ok(block)
}

/// A reliable, in-memory block medium: a flat image chopped into
/// fixed-size blocks.
pub struct MemoryBlockReader {
    block_size: usize,
    blocks: Vec<Vec<u8>>,
}

impl MemoryBlockReader {
    /// Construct a reader over a flat image.
    ///
    /// Fails with `Malformed` if the block size is unacceptable or the
    /// image's length is not a whole number of blocks.
    pub fn new(block_size: usize, image: &[u8]) -> (r: Result<Self, ApfsError>)
        ensures
            match r {
                Ok(reader) => {
                    &&& spec_block_len_ok(block_size as nat)
                    &&& image@.len() % (block_size as nat) == 0
                    &&& reader.medium().wf()
                    &&& reader.medium().block_size == block_size
                    &&& reader.medium().blocks.len() == image@.len() / (block_size as nat)
                    &&& forall|i: int|
                        0 <= i < reader.medium().blocks.len()
                            ==> #[trigger] reader.medium().blocks[i] == image@.subrange(
                            i * block_size,
                            i * block_size + block_size,
                        )
                    &&& reader.reliable()
                },
                Err(e) => {
                    &&& e is Malformed
                    &&& !(spec_block_len_ok(block_size as nat) && image@.len() % (
                    block_size as nat) == 0)
                },
            },
    {
        if !(block_size >= BLOCK_SIZE_MIN && block_size <= BLOCK_SIZE_MAX && block_size % 4 == 0
            && image.len() % block_size == 0) {
            return Err(ApfsError::Malformed);
        }
        let total: usize = image.len();
        let count: usize = total / block_size;
        let mut blocks: Vec<Vec<u8>> = Vec::new();
        let mut i: usize = 0;
        proof {
            vstd::arithmetic::div_mod::lemma_fundamental_div_mod(
                total as int,
                block_size as int,
            );
            assert(block_size as int * (total as int / block_size as int) == (total as int
                / block_size as int) * block_size as int) by (nonlinear_arith);
            assert(count * block_size == total);
        }
        while i < count
            invariant
                0 <= i <= count,
                total == image@.len(),
                count == image@.len() / (block_size as nat),
                count * block_size == total,
                BLOCK_SIZE_MIN <= block_size <= BLOCK_SIZE_MAX,
                blocks@.len() == i,
                forall|j: int|
                    0 <= j < i ==> (#[trigger] blocks@[j])@ == image@.subrange(
                        j * block_size,
                        j * block_size + block_size,
                    ),
            decreases count - i,
        {
            proof {
                assert(0 <= i * block_size && i * block_size + block_size <= count * block_size)
                    by (nonlinear_arith)
                    requires
                        0 <= i < count,
                        block_size >= 1,
                ;
            }
            let start: usize = i * block_size;
            let chunk = slice_to_vec(slice_subrange(image, start, start + block_size));
            blocks.push(chunk);
            i = i + 1;
        }
        let reader = MemoryBlockReader { block_size, blocks };
        proof {
            assert forall|k: int| 0 <= k < reader.medium().blocks.len() implies {
                &&& #[trigger] reader.medium().blocks[k] == image@.subrange(
                    k * block_size,
                    k * block_size + block_size,
                )
                &&& reader.medium().blocks[k].len() == block_size
            } by {
                assert(0 <= k * block_size && k * block_size + block_size <= count * block_size)
                    by (nonlinear_arith)
                    requires
                        0 <= k < count,
                        block_size >= 1,
                ;
                assert(reader.medium().blocks[k] == reader.blocks@[k]@);
            }
            assert(reader.medium().wf());
        }
        Ok(reader)
    }
}

impl BlockReader for MemoryBlockReader {
    closed spec fn medium(&self) -> MediumView {
        MediumView {
            block_size: self.block_size as nat,
            blocks: self.blocks@.map_values(|b: Vec<u8>| b@),
        }
    }

    closed spec fn reliable(&self) -> bool {
        true
    }

    fn block_size(&self) -> (r: usize) {
        self.block_size
    }

    fn block_count(&self) -> (r: u64) {
        let n: usize = self.blocks.len();
        n as u64
    }

    fn get_block(&self, number: u64) -> (r: Result<Block, BlockReadError>) {
        let n: usize = self.blocks.len();
        if number < n as u64 {
            let buf = slice_to_vec(self.blocks[number as usize].as_slice());
            proof {
                assert(self.medium().blocks[number as int] == self.blocks@[number as int]@);
            }
            Ok(Block::new(number, buf))
        } else {
            Err(BlockReadError::BlockBounds(number))
        }
    }
}

} // verus!

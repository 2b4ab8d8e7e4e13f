use apfs_core::block::{get_block_validated, Block, BlockReader, MemoryBlockReader};
use apfs_core::builder::build_fixed_leaf;
use apfs_core::checksum::fletcher64;
use apfs_core::error::{ApfsError, BlockReadError};

fn valid_block(block_size: usize) -> Vec<u8> {
    let entries = vec![
        (vec![1u8, 0, 0, 0, 0, 0, 0, 0], vec![0xaa, 0xbb]),
        (vec![2u8, 0, 0, 0, 0, 0, 0, 0], vec![0xcc, 0xdd]),
    ];
    build_fixed_leaf(block_size, 8, 2, &entries).expect("build")
}

#[test]
fn memory_reader_serves_blocks_by_number() {
    let mut image = vec![0u8; 128];
    for (i, b) in image.iter_mut().enumerate() {
        *b = i as u8;
    }
    let reader = MemoryBlockReader::new(64, &image).expect("reader");
    assert_eq!(reader.block_size(), 64);
    assert_eq!(reader.block_count(), 2);
    let b1 = reader.get_block(1).expect("read");
    assert_eq!(b1.number(), 1);
    assert_eq!(b1.bytes().as_slice(), &image[64..128]);
}

#[test]
fn memory_reader_rejects_out_of_bounds() {
    let image = vec![0u8; 128];
    let reader = MemoryBlockReader::new(64, &image).expect("reader");
    assert_eq!(
        reader.get_block(2).err(),
        Some(BlockReadError::BlockBounds(2))
    );
}

#[test]
fn memory_reader_rejects_ragged_image() {
    let image = vec![0u8; 100];
    assert!(MemoryBlockReader::new(64, &image).is_err());
    assert!(MemoryBlockReader::new(0, &image).is_err());
}

#[test]
fn object_header_fields_decode() {
    let mut bytes = vec![0u8; 64];
    bytes[0..8].copy_from_slice(&0x1111_2222_3333_4444u64.to_le_bytes());
    bytes[8..16].copy_from_slice(&77u64.to_le_bytes());
    bytes[16..24].copy_from_slice(&88u64.to_le_bytes());
    bytes[24..28].copy_from_slice(&0xdead_beefu32.to_le_bytes());
    bytes[28..32].copy_from_slice(&0x0bad_cafeu32.to_le_bytes());
    let header = Block::new(0, bytes).object_header().expect("header");
    assert_eq!(header.checksum, 0x1111_2222_3333_4444);
    assert_eq!(header.object_identifier, 77);
    assert_eq!(header.transaction_identifier, 88);
    assert_eq!(header.typ, 0xdead_beef);
    assert_eq!(header.subtype, 0x0bad_cafe);
}

#[test]
fn validate_checksum_accepts_matching_block() {
    let bytes = valid_block(512);
    let block = Block::new(0, bytes.clone());
    assert_eq!(block.checksum_object(), fletcher64(&bytes[8..]));
    assert!(block.validate_checksum().is_ok());
}

#[test]
fn corrupted_byte_fails_read_and_verify() {
    let block_size = 512;
    let mut image = valid_block(block_size);
    // Flip a byte in the payload; the stored checksum no longer matches.
    image[200] ^= 0x01;
    let reader = MemoryBlockReader::new(block_size, &image).expect("reader");
    assert_eq!(
        get_block_validated(&reader, 0).err(),
        Some(ApfsError::InvalidChecksum)
    );
}

#[test]
fn unflipped_block_passes_read_and_verify() {
    let block_size = 512;
    let image = valid_block(block_size);
    let reader = MemoryBlockReader::new(block_size, &image).expect("reader");
    let block = get_block_validated(&reader, 0).expect("verified read");
    assert_eq!(block.number(), 0);
}

#[test]
fn read_and_verify_reports_bounds() {
    let image = valid_block(512);
    let reader = MemoryBlockReader::new(512, &image).expect("reader");
    assert_eq!(
        get_block_validated(&reader, 9).err(),
        Some(ApfsError::BlockBounds(9))
    );
}

use apfs_core::error::{ApfsError, ParseError};
use apfs_core::pod::{parse_le_i64, parse_le_u16, parse_le_u32, parse_le_u64, DiskStruct};

#[test]
fn parse_le_u16_reads_and_advances() {
    let data = [0x34, 0x12, 0x78, 0x56];
    let mut offset = 0usize;
    assert_eq!(parse_le_u16(&mut offset, &data), Ok(0x1234));
    assert_eq!(offset, 2);
    assert_eq!(parse_le_u16(&mut offset, &data), Ok(0x5678));
    assert_eq!(offset, 4);
    assert_eq!(parse_le_u16(&mut offset, &data), Err(ApfsError::InputTooSmall));
    assert_eq!(offset, 4);
}

#[test]
fn parse_le_u32_reads_and_advances() {
    let data = [0x78, 0x56, 0x34, 0x12, 0xff];
    let mut offset = 0usize;
    assert_eq!(parse_le_u32(&mut offset, &data), Ok(0x1234_5678));
    assert_eq!(offset, 4);
    assert_eq!(parse_le_u32(&mut offset, &data), Err(ApfsError::InputTooSmall));
}

#[test]
fn parse_le_u64_reads_and_advances() {
    let data = [1, 2, 3, 4, 5, 6, 7, 8];
    let mut offset = 0usize;
    assert_eq!(parse_le_u64(&mut offset, &data), Ok(0x0807_0605_0403_0201));
    assert_eq!(offset, 8);
}

#[test]
fn parse_le_i64_is_twos_complement() {
    let data = [0xff; 8];
    let mut offset = 0usize;
    assert_eq!(parse_le_i64(&mut offset, &data), Ok(-1));
}

#[test]
fn disk_struct_impls_decode_leading_bytes() {
    let data = [0x01, 0x02, 0x03, 0x04, 0x05, 0x06, 0x07, 0x88];
    assert_eq!(u8::parse_bytes(&data), Ok(0x01));
    assert_eq!(u16::parse_bytes(&data), Ok(0x0201));
    assert_eq!(u32::parse_bytes(&data), Ok(0x0403_0201));
    assert_eq!(i32::parse_bytes(&data), Ok(0x0403_0201));
    assert_eq!(u64::parse_bytes(&data), Ok(0x8807_0605_0403_0201));
    assert_eq!(i64::parse_bytes(&data), Ok(0x8807_0605_0403_0201u64 as i64));
    assert_eq!(u64::parse_bytes(&data[..7]), Err(ParseError::InputTooSmall));
    assert_eq!(u8::parse_bytes(&[]), Err(ParseError::InputTooSmall));
}

#![allow(non_snake_case)]
use audioadapter::rawbytes::{I16BE, I16LE, I24BE, I24LE, I32LE, I64BE, U16LE, U24BE, U24LE, U32BE, U64LE};
use audioadapter::sample::BytesSample;

#[test]
fn test_I24LE_3bytes() {
    let number = i32::MAX / 5 * 4;

    // make sure LSB is zero
    let number = number >> 8;
    let number = number << 8;

    let allbytes = number.to_le_bytes();
    // Little-endian stores the LSB at the smallest address.
    // Drop the LSB!
    let bytes = [allbytes[1], allbytes[2], allbytes[3]];

    let wrapped = <I24LE<[u8; 3]> as BytesSample>::from_slice(&bytes);
    assert_eq!(number, wrapped.to_number());
}

#[test]
fn test_I24BE_3bytes() {
    let number = i32::MAX / 5 * 4;

    // make sure LSB is zero
    let number = number >> 8;
    let number = number << 8;

    let allbytes = number.to_be_bytes();
    // Big-endian stores the LSB at the largest address.
    // Drop the LSB!
    let bytes = [allbytes[0], allbytes[1], allbytes[2]];

    let wrapped = <I24BE<[u8; 3]> as BytesSample>::from_slice(&bytes);
    assert_eq!(number, wrapped.to_number());
}

#[test]
fn test_I24LE_4bytes() {
    let number = i32::MAX / 5 * 4;

    // make sure LSB is zero
    let number = number >> 8;
    let number = number << 8;

    let allbytes = number.to_le_bytes();
    // Little-endian stores the LSB at the smallest address.
    // Drop the LSB and insert padding at MSB!
    let bytes = [allbytes[1], allbytes[2], allbytes[3], 0];

    let wrapped = <I24LE<[u8; 4]> as BytesSample>::from_slice(&bytes);
    assert_eq!(number, wrapped.to_number());
}

#[test]
fn test_I24BE_4bytes() {
    let number = i32::MAX / 5 * 4;

    // make sure LSB is zero
    let number = number >> 8;
    let number = number << 8;

    let allbytes = number.to_be_bytes();
    // Big-endian stores the LSB at the largest address.
    // Drop the LSB and insert padding at MSB!
    let bytes = [0, allbytes[0], allbytes[1], allbytes[2]];

    let wrapped = <I24BE<[u8; 4]> as BytesSample>::from_slice(&bytes);
    assert_eq!(number, wrapped.to_number());
}

#[test]
fn test_U24LE_3bytes() {
    let number = u32::MAX / 5 * 4;

    // make sure LSB is zero
    let number = number >> 8;
    let number = number << 8;

    let allbytes = number.to_le_bytes();
    // Little-endian stores the LSB at the smallest address.
    // Drop the LSB!
    let bytes = [allbytes[1], allbytes[2], allbytes[3]];

    let wrapped = <U24LE<[u8; 3]> as BytesSample>::from_slice(&bytes);
    assert_eq!(number, wrapped.to_number());
}

#[test]
fn test_U24BE_3bytes() {
    let number = u32::MAX / 5 * 4;

    // make sure LSB is zero
    let number = number >> 8;
    let number = number << 8;

    let allbytes = number.to_be_bytes();
    // Big-endian stores the LSB at the largest address.
    // Drop the LSB!
    let bytes = [allbytes[0], allbytes[1], allbytes[2]];

    let wrapped = <U24BE<[u8; 3]> as BytesSample>::from_slice(&bytes);
    assert_eq!(number, wrapped.to_number());
}

#[test]
fn test_U24LE_4bytes() {
    let number = u32::MAX / 5 * 4;

    // make sure LSB is zero
    let number = number >> 8;
    let number = number << 8;

    let allbytes = number.to_le_bytes();
    // Little-endian stores the LSB at the smallest address.
    // Drop the LSB and insert padding at MSB!
    let bytes = [allbytes[1], allbytes[2], allbytes[3], 0];

    let wrapped = <U24LE<[u8; 4]> as BytesSample>::from_slice(&bytes);
    assert_eq!(number, wrapped.to_number());
}

#[test]
fn test_U24BE_4bytes() {
    let number = u32::MAX / 5 * 4;

    // make sure LSB is zero
    let number = number >> 8;
    let number = number << 8;

    let allbytes = number.to_be_bytes();
    // Big-endian stores the LSB at the largest address.
    // Drop the LSB and insert padding at MSB!
    let bytes = [0, allbytes[0], allbytes[1], allbytes[2]];

    let wrapped = <U24BE<[u8; 4]> as BytesSample>::from_slice(&bytes);
    assert_eq!(number, wrapped.to_number());
}

#[test]
fn compact_names_read_as_their_layouts() {
    assert_eq!(I16LE::from_slice(&[0x34, 0x12]).to_number(), 0x1234);
    assert_eq!(I16BE::from_number(-2).as_slice(), [0xff, 0xfe]);
    assert_eq!(I32LE::from_number(0x0102_0304).as_slice(), [4, 3, 2, 1]);
    assert_eq!(U32BE::from_number(0x0102_0304).as_slice(), [1, 2, 3, 4]);
    assert_eq!(I64BE::from_number(i64::MIN).to_number(), i64::MIN);
    assert_eq!(U64LE::from_number(u64::MAX).to_number(), u64::MAX);
    assert_eq!(U16LE::zero().to_number(), 0);
    let padded = <I24LE<[u8; 4]> as BytesSample>::from_number(-256);
    assert_eq!(padded.as_slice(), [0xff, 0xff, 0xff, 0]);
    let packed = <U24BE<[u8; 3]> as BytesSample>::from_number(0x0102_03ff);
    assert_eq!(packed.as_slice(), [1, 2, 3]);
    assert_eq!(packed.to_number(), 0x0102_0300);
}

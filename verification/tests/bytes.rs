use audioadapter::bytes::{InterleavedBytes, SequentialBytes};
use audioadapter::sample::{I16_LE, I24_4LJ_LE, I24_LE, U16_BE};
use audioadapter::{Adapter, AdapterMut, SizeError};

#[test]
fn read_i16_bytes_interleaved_as_numbers() {
    let data: [u8; 12] = [0, 0, 0, 128, 0, 64, 0, 192, 0, 32, 0, 224];
    let buffer = InterleavedBytes::<I16_LE, _>::new(&data, 2, 3).unwrap();
    assert_eq!(buffer.read_sample(0, 0), Some(0));
    assert_eq!(buffer.read_sample(1, 0), Some(-32768));
    assert_eq!(buffer.read_sample(0, 1), Some(16384));
    assert_eq!(buffer.read_sample(1, 1), Some(-16384));
    assert_eq!(buffer.read_sample(0, 2), Some(8192));
    assert_eq!(buffer.read_sample(1, 2), Some(-8192));
    assert_eq!(buffer.read_sample(2, 0), None);
}

#[test]
fn write_i16_bytes_interleaved_as_numbers() {
    let expected: [u8; 12] = [0, 0, 0, 128, 0, 64, 0, 192, 0, 32, 0, 224];
    let mut data = [0; 12];
    let mut buffer = InterleavedBytes::<I16_LE, _>::new_mut(&mut data, 2, 3).unwrap();
    buffer.write_sample(0, 0, &0).unwrap();
    buffer.write_sample(1, 0, &-32768).unwrap();
    buffer.write_sample(0, 1, &16384).unwrap();
    buffer.write_sample(1, 1, &-16384).unwrap();
    buffer.write_sample(0, 2, &8192).unwrap();
    buffer.write_sample(1, 2, &-8192).unwrap();
    assert_eq!(data, expected);
}

#[test]
fn read_i24_bytes_sequential_as_numbers() {
    let data: [u8; 18] = [0, 0, 0, 0, 0, 128, 0, 0, 64, 0, 0, 192, 0, 0, 32, 0, 0, 224];
    let buffer = SequentialBytes::<I24_LE, _>::new(&data, 2, 3).unwrap();
    assert_eq!(buffer.read_sample(0, 0), Some(0));
    assert_eq!(buffer.read_sample(0, 1), Some(i32::MIN));
    assert_eq!(buffer.read_sample(0, 2), Some(0x4000_0000));
    assert_eq!(buffer.read_sample(1, 0), Some(-0x4000_0000));
    assert_eq!(buffer.read_sample(1, 1), Some(0x2000_0000));
    assert_eq!(buffer.read_sample(1, 2), Some(-0x2000_0000));
}

#[test]
fn byte_buffers_check_their_length() {
    let data = [0u8; 11];
    assert_eq!(
        InterleavedBytes::<I16_LE, _>::new(&data, 2, 3).err(),
        Some(SizeError::Total { actual: 11, required: 12 })
    );
    assert_eq!(
        SequentialBytes::<I24_4LJ_LE, _>::new(&data, 1, 3).err(),
        Some(SizeError::Total { actual: 11, required: 12 })
    );
    assert!(SequentialBytes::<U16_BE, _>::new(&data, 5, 1).is_ok());
}

#[test]
fn byte_buffers_keep_the_other_samples() {
    let mut data = [1u8, 2, 3, 4, 5, 6, 7, 8];
    let mut buffer = SequentialBytes::<U16_BE, _>::new_mut(&mut data, 2, 2).unwrap();
    assert_eq!(buffer.read_sample(1, 0), Some(0x0506));
    assert_eq!(buffer.write_sample(0, 1, &0xabcd), Some(false));
    assert_eq!(buffer.swap_samples(0, 0, 1, 1), true);
    assert_eq!(data, [7, 8, 0xab, 0xcd, 5, 6, 1, 2]);
}

use audioadapter::dummy::Dummy;
use audioadapter::owned::{InterleavedOwned, SequentialOwned};
use audioadapter::{Adapter, AdapterMut, SizeError};

fn insert_data(buffer: &mut dyn AdapterMut<i32>) {
    buffer.write_sample(0, 0, &1);
    buffer.write_sample(0, 1, &2);
    buffer.write_sample(0, 2, &3);
    buffer.write_sample(1, 0, &4);
    buffer.write_sample(1, 1, &5);
    buffer.write_sample(1, 2, &6);
}

fn check_get(buffer: &mut dyn AdapterMut<i32>) {
    insert_data(buffer);
    assert_eq!(buffer.read_sample(0, 0).unwrap(), 1);
    assert_eq!(buffer.read_sample(0, 1).unwrap(), 2);
    assert_eq!(buffer.read_sample(0, 2).unwrap(), 3);
    assert_eq!(buffer.read_sample(1, 0).unwrap(), 4);
    assert_eq!(buffer.read_sample(1, 1).unwrap(), 5);
    assert_eq!(buffer.read_sample(1, 2).unwrap(), 6);
}

fn check_slice_channel(buffer: &mut dyn AdapterMut<i32>) {
    insert_data(buffer);
    let mut other1 = [0; 2];
    let mut other2 = [0; 4];
    buffer.copy_from_channel_to_slice(0, 1, &mut other1);
    buffer.copy_from_channel_to_slice(1, 0, &mut other2);
    assert_eq!(other1, [2, 3]);
    assert_eq!(other2, [4, 5, 6, 0]);
}

fn check_mut_slice_frame(buffer: &mut dyn AdapterMut<i32>) {
    insert_data(buffer);
    let other1 = [8];
    let other2 = [10, 11, 12];
    buffer.copy_from_slice_to_frame(0, 0, &other1);
    buffer.copy_from_slice_to_frame(1, 0, &other2);
    assert_eq!(buffer.read_sample(0, 0).unwrap(), 8);
    assert_eq!(buffer.read_sample(1, 0).unwrap(), 4);
    assert_eq!(buffer.read_sample(0, 1).unwrap(), 10);
    assert_eq!(buffer.read_sample(1, 1).unwrap(), 11);
    assert_eq!(buffer.read_sample(0, 2).unwrap(), 3);
    assert_eq!(buffer.read_sample(1, 2).unwrap(), 6);
}

#[test]
fn owned_interleaved() {
    let data = vec![1_i32, 4, 2, 5, 3, 6];
    let mut buffer = InterleavedOwned::new_from(data, 2, 3).unwrap();
    check_get(&mut buffer);
    check_slice_channel(&mut buffer);
    check_mut_slice_frame(&mut buffer);
    assert_eq!(buffer.take_data(), vec![8, 4, 10, 11, 3, 6]);
}

#[test]
fn owned_sequential() {
    let data = vec![1_i32, 2, 3, 4, 5, 6];
    let mut buffer = SequentialOwned::new_from(data, 2, 3).unwrap();
    check_get(&mut buffer);
    check_slice_channel(&mut buffer);
    check_mut_slice_frame(&mut buffer);
    assert_eq!(buffer.take_data(), vec![8, 10, 3, 4, 11, 6]);
}

#[test]
fn owned_fill_buffer() {
    let mut buffer = InterleavedOwned::new(1, 2, 3);
    buffer.fill_with(&2);
    let expected: [i32; 6] = [2; 6];
    let data = buffer.take_data();
    assert_eq!(data, expected);
}

#[test]
fn owned_rejects_short_vectors() {
    assert_eq!(
        InterleavedOwned::new_from(vec![0_i32; 5], 2, 3).err(),
        Some(SizeError::Total { actual: 5, required: 6 })
    );
    assert_eq!(
        SequentialOwned::new_from(vec![0_i32; 5], 3, 2).err(),
        Some(SizeError::Total { actual: 5, required: 6 })
    );
}

#[test]
fn owned_copy_frames_within() {
    let mut buffer = SequentialOwned::new_from(vec![1_i32, 2, 3, 4, 5, 6, 7, 8], 2, 4).unwrap();
    assert_eq!(buffer.copy_frames_within(0, 1, 3), Some(3));
    assert_eq!(buffer.copy_frames_within(2, 0, 3), None);
    assert_eq!(buffer.take_data(), vec![1, 1, 2, 3, 5, 5, 6, 7]);
}

#[test]
fn dummy_reads_its_value_and_drops_writes() {
    let mut buffer = Dummy::new(7_i32, 2, 3);
    assert_eq!(buffer.read_sample(1, 2), Some(7));
    assert_eq!(buffer.read_sample(2, 0), None);
    assert_eq!(buffer.write_sample(0, 0, &5), Some(false));
    assert_eq!(buffer.read_sample(0, 0), Some(7));
    assert_eq!((buffer.channels(), buffer.frames()), (2, 3));
}

#[test]
fn test_dummy() {
    let mut dummy = Dummy::<usize>::new(1234, 2, 3);
    for channel in 0..2 {
        for frame in 0..3 {
            assert_eq!(dummy.read_sample(channel, frame), Some(1234));
        }
    }
    assert_eq!(dummy.read_sample(3, 0), None);
    assert_eq!(dummy.read_sample(0, 4), None);
    for channel in 0..2 {
        for frame in 0..3 {
            assert_eq!(dummy.write_sample(channel, frame, &123), Some(false));
        }
    }
    assert_eq!(dummy.write_sample(3, 0, &123), None);
    assert_eq!(dummy.write_sample(0, 4, &123), None);
}

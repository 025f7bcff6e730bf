use audioadapter::owned::InterleavedOwned;
use audioadapter::slicetools::copy_within_slice;
use audioadapter::{Adapter, AdapterIterators, AdapterMut};

/// A buffer of two channels and four frames, stored interleaved.
fn dummy_adapter() -> InterleavedOwned<i32> {
    let data = vec![1_i32, 1, 2, 3, 4, 5, 6, 7];
    InterleavedOwned::new_from(data, 2, 4).unwrap()
}

#[test]
fn read_sample() {
    let buffer = dummy_adapter();
    assert_eq!(buffer.read_sample(0, 0), Some(1));
    assert_eq!(buffer.read_sample(1, 3), Some(7));
    assert_eq!(buffer.read_sample(2, 0), None); // OOB channel
    assert_eq!(buffer.read_sample(0, 4), None); // OOB frame
}

#[test]
fn copy_from_channel_to_slice() {
    let buffer = dummy_adapter();
    let mut slice = [0; 3];
    // ch 0 is [1, 2, 4, 6]
    let copied = buffer.copy_from_channel_to_slice(0, 1, &mut slice);
    assert_eq!(copied, 3);
    assert_eq!(slice, [2, 4, 6]);

    // OOB channel
    let mut slice2 = [0; 2];
    let copied = buffer.copy_from_channel_to_slice(2, 0, &mut slice2);
    assert_eq!(copied, 0);
    assert_eq!(slice2, [0, 0]);

    // OOB skip
    let copied = buffer.copy_from_channel_to_slice(0, 4, &mut slice2);
    assert_eq!(copied, 0);

    // Slice larger than available frames
    let mut slice3 = [0; 5];
    let copied = buffer.copy_from_channel_to_slice(0, 0, &mut slice3);
    assert_eq!(copied, 4);
    assert_eq!(slice3, [1, 2, 4, 6, 0]);
}

#[test]
fn copy_from_frame_to_slice() {
    let buffer = dummy_adapter();
    let mut slice = [0; 1];
    // frame 1 is [2, 3]
    let copied = buffer.copy_from_frame_to_slice(1, 1, &mut slice);
    assert_eq!(copied, 1);
    assert_eq!(slice, [3]);

    // OOB frame
    let mut slice2 = [0; 2];
    let copied = buffer.copy_from_frame_to_slice(4, 0, &mut slice2);
    assert_eq!(copied, 0);
    assert_eq!(slice2, [0, 0]);

    // OOB skip
    let copied = buffer.copy_from_frame_to_slice(0, 2, &mut slice2);
    assert_eq!(copied, 0);

    // Slice larger than available channels
    let mut slice3 = [0; 3];
    let copied = buffer.copy_from_frame_to_slice(1, 0, &mut slice3);
    assert_eq!(copied, 2);
    assert_eq!(slice3, [2, 3, 0]);
}

#[test]
fn write_sample() {
    let mut buffer = dummy_adapter();
    assert_eq!(buffer.write_sample(0, 0, &100), Some(false));
    assert_eq!(buffer.read_sample(0, 0), Some(100));
    assert_eq!(buffer.write_sample(2, 0, &101), None); // OOB channel
    assert_eq!(buffer.write_sample(0, 4, &102), None); // OOB frame
}

#[test]
fn copy_from_slice_to_channel() {
    let mut buffer = dummy_adapter();
    let slice = [10, 11];
    let (copied, clipped) = buffer.copy_from_slice_to_channel(0, 1, &slice);
    assert_eq!(copied, 2);
    assert_eq!(clipped, 0);
    // ch 0 was [1, 2, 4, 6], now [1, 10, 11, 6]
    assert_eq!(buffer.read_sample(0, 0), Some(1));
    assert_eq!(buffer.read_sample(0, 1), Some(10));
    assert_eq!(buffer.read_sample(0, 2), Some(11));
    assert_eq!(buffer.read_sample(0, 3), Some(6));
}

#[test]
fn copy_from_slice_to_frame() {
    let mut buffer = dummy_adapter();
    let slice = [10];
    let (copied, clipped) = buffer.copy_from_slice_to_frame(1, 1, &slice);
    assert_eq!(copied, 1);
    assert_eq!(clipped, 0);
    // frame 1 was [2, 3], now [2, 10]
    assert_eq!(buffer.read_sample(0, 1), Some(2));
    assert_eq!(buffer.read_sample(1, 1), Some(10));
}

#[test]
fn copy_from_other_to_channel() {
    let mut buffer = dummy_adapter();
    let other = dummy_adapter();
    // copy ch1 from other to ch0 in buffer
    // other ch1: [1, 3, 5, 7]
    let clipped = buffer.copy_from_other_to_channel(&other, 1, 0, 0, 0, 4);
    assert_eq!(clipped, Some(0));
    assert_eq!(buffer.read_sample(0, 0), Some(1));
    assert_eq!(buffer.read_sample(0, 1), Some(3));
    assert_eq!(buffer.read_sample(0, 2), Some(5));
    assert_eq!(buffer.read_sample(0, 3), Some(7));
}

#[test]
fn fill_channel_with() {
    let mut buffer = dummy_adapter();
    buffer.fill_channel_with(0, &9).unwrap();
    assert_eq!(buffer.read_sample(0, 0), Some(9));
    assert_eq!(buffer.read_sample(0, 1), Some(9));
    assert_eq!(buffer.read_sample(0, 2), Some(9));
    assert_eq!(buffer.read_sample(0, 3), Some(9));
    assert_eq!(buffer.read_sample(1, 0), Some(1)); // other channel unaffected
}

#[test]
fn fill_frame_with() {
    let mut buffer = dummy_adapter();
    buffer.fill_frame_with(1, &9).unwrap();
    assert_eq!(buffer.read_sample(0, 1), Some(9));
    assert_eq!(buffer.read_sample(1, 1), Some(9));
    assert_eq!(buffer.read_sample(0, 0), Some(1)); // other frame unaffected
}

#[test]
fn fill_frames_with() {
    let mut buffer = dummy_adapter();
    buffer.fill_frames_with(1, 2, &9).unwrap();
    assert_eq!(buffer.read_sample(0, 0), Some(1));
    assert_eq!(buffer.read_sample(0, 1), Some(9));
    assert_eq!(buffer.read_sample(0, 2), Some(9));
    assert_eq!(buffer.read_sample(0, 3), Some(6));
}

#[test]
fn fill_with() {
    let mut buffer = dummy_adapter();
    buffer.fill_with(&9);
    for f in 0..buffer.frames() {
        for c in 0..buffer.channels() {
            assert_eq!(buffer.read_sample(c, f), Some(9));
        }
    }
}

#[test]
fn copy_frames_within_forward_overlap() {
    let mut buffer = dummy_adapter();
    // copy 2 frames from frame 0 to frame 1.
    // Before: F0:[1,1], F1:[2,3], F2:[4,5], F3:[6,7]
    // After:  F0:[1,1], F1:[1,1], F2:[2,3], F3:[6,7]
    let copied = buffer.copy_frames_within(0, 1, 2).unwrap();
    assert_eq!(copied, 2);
    assert_eq!(buffer.read_sample(0, 0), Some(1));
    assert_eq!(buffer.read_sample(1, 0), Some(1));
    assert_eq!(buffer.read_sample(0, 1), Some(1));
    assert_eq!(buffer.read_sample(1, 1), Some(1));
    assert_eq!(buffer.read_sample(0, 2), Some(2));
    assert_eq!(buffer.read_sample(1, 2), Some(3));
    assert_eq!(buffer.read_sample(0, 3), Some(6));
    assert_eq!(buffer.read_sample(1, 3), Some(7));
}

#[test]
fn copy_frames_within_backward_overlap() {
    let mut buffer = dummy_adapter();
    // copy 2 frames from frame 1 to frame 0.
    // Before: F0:[1,1], F1:[2,3], F2:[4,5], F3:[6,7]
    // After:  F0:[2,3], F1:[4,5], F2:[4,5], F3:[6,7]
    let copied = buffer.copy_frames_within(1, 0, 2).unwrap();
    assert_eq!(copied, 2);
    assert_eq!(buffer.read_sample(0, 0), Some(2));
    assert_eq!(buffer.read_sample(1, 0), Some(3));
    assert_eq!(buffer.read_sample(0, 1), Some(4));
    assert_eq!(buffer.read_sample(1, 1), Some(5));
    assert_eq!(buffer.read_sample(0, 2), Some(4));
    assert_eq!(buffer.read_sample(1, 2), Some(5));
    assert_eq!(buffer.read_sample(0, 3), Some(6));
    assert_eq!(buffer.read_sample(1, 3), Some(7));
}

#[test]
fn copy_sample_within() {
    let mut buffer = dummy_adapter();
    // Before: (0,0) is 1, (1,1) is 3
    let success = buffer.copy_sample_within(0, 0, 1, 1);
    // After: (0,0) is 1, (1,1) is 1
    assert!(success);
    assert_eq!(buffer.read_sample(0, 0), Some(1));
    assert_eq!(buffer.read_sample(1, 1), Some(1));

    // OOB source
    assert!(!buffer.copy_sample_within(2, 0, 0, 0));
    // OOB target
    assert!(!buffer.copy_sample_within(0, 0, 2, 0));
}

#[test]
fn swap_samples() {
    let mut buffer = dummy_adapter();
    // Before: (0,0) is 1, (1,1) is 3
    let success = buffer.swap_samples(0, 0, 1, 1);
    // After: (0,0) is 3, (1,1) is 1
    assert!(success);
    assert_eq!(buffer.read_sample(0, 0), Some(3));
    assert_eq!(buffer.read_sample(1, 1), Some(1));

    // OOB
    assert!(!buffer.swap_samples(0, 0, 2, 0));
}

#[test]
fn iterators_interleaved() {
    let data = vec![1_i32, 4, 2, 5, 3, 6];
    let buffer = InterleavedOwned::new_from(data, 2, 3).unwrap();
    let mut val: i32 = 1;
    let mut channels = buffer.iter_channels();
    while let Some(mut channel) = channels.next() {
        while let Some(sample) = channel.next() {
            assert_eq!(sample, val);
            val += 1;
        }
    }
}

#[test]
fn iterators_sequential() {
    let data = vec![1_i32, 2, 3, 4, 5, 6];
    let buffer = InterleavedOwned::new_from(data, 2, 3).unwrap();
    let mut val: i32 = 1;
    let mut frames = buffer.iter_frames();
    while let Some(mut frame) = frames.next() {
        while let Some(sample) = frame.next() {
            assert_eq!(sample, val);
            val += 1;
        }
    }
}

#[test]
fn swapping_twice_restores_the_buffer() {
    let mut buffer = dummy_adapter();
    assert!(buffer.swap_samples(0, 1, 1, 3));
    assert_eq!(buffer.read_sample(0, 1), Some(7));
    assert!(buffer.swap_samples(0, 1, 1, 3));
    assert_eq!(buffer.take_data(), vec![1, 1, 2, 3, 4, 5, 6, 7]);
}

#[test]
fn copy_forward_no_overlap() {
    let mut data: Vec<i32> = vec![1, 2, 3, 4, 5, 6, 7, 8, 9];
    copy_within_slice(&mut data, 1, 5, 3);
    let expected = vec![1, 2, 3, 4, 5, 2, 3, 4, 9];
    assert_eq!(data, expected);
}

#[test]
fn copy_backward_no_overlap() {
    let mut data: Vec<i32> = vec![1, 2, 3, 4, 5, 6, 7, 8, 9];
    copy_within_slice(&mut data, 5, 1, 3);
    let expected = vec![1, 6, 7, 8, 5, 6, 7, 8, 9];
    assert_eq!(data, expected);
}

#[test]
fn copy_backward_with_overlap() {
    let mut data: Vec<i32> = vec![1, 2, 3, 4, 5, 6, 7, 8, 9];
    copy_within_slice(&mut data, 3, 1, 5);
    let expected = vec![1, 4, 5, 6, 7, 8, 7, 8, 9];
    assert_eq!(data, expected);
}

#[test]
fn copy_forward_with_overlap() {
    let mut data: Vec<i32> = vec![1, 2, 3, 4, 5, 6, 7, 8, 9];
    copy_within_slice(&mut data, 1, 3, 5);
    let expected = vec![1, 2, 3, 2, 3, 4, 5, 6, 9];
    assert_eq!(data, expected);
}

#[test]
fn copy_with_small_overlap_uses_several_chunks() {
    let mut data: Vec<i32> = (0..10).collect();
    copy_within_slice(&mut data, 0, 1, 8);
    assert_eq!(data, vec![0, 0, 1, 2, 3, 4, 5, 6, 7, 9]);
    let mut data: Vec<i32> = (0..10).collect();
    copy_within_slice(&mut data, 2, 0, 8);
    assert_eq!(data, vec![2, 3, 4, 5, 6, 7, 8, 9, 8, 9]);
}

#[test]
fn copy_from_other_copies_all_channels() {
    let mut buffer = dummy_adapter();
    let other = InterleavedOwned::new_from(vec![10, 20, 11, 21, 12, 22], 2, 3).unwrap();
    assert_eq!(buffer.copy_from_other(&other, 1, 2, 2), Some(0));
    assert_eq!(buffer.take_data(), vec![1, 1, 2, 3, 11, 21, 12, 22]);
    let mut buffer = dummy_adapter();
    assert_eq!(buffer.copy_from_other(&other, 2, 0, 2), None);
    let mono = InterleavedOwned::new_from(vec![5, 6, 7, 8], 1, 4).unwrap();
    assert_eq!(buffer.copy_from_other(&mono, 0, 0, 1), None);
    assert_eq!(buffer.take_data(), vec![1, 1, 2, 3, 4, 5, 6, 7]);
}

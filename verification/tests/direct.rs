use audioadapter::direct::{
    InterleavedSlice, InterleavedSliceOfVecs, SequentialSlice, SequentialSliceOfSlices,
    SequentialSliceOfVecs, SparseSequentialSliceOfSlices, SparseSequentialSliceOfVecs,
};
use audioadapter::{Adapter, AdapterMut, SizeError};

fn to_sample(value: usize) -> usize {
    value
}

fn test_adapter_mut_methods(buffer: &mut dyn AdapterMut<usize>)
{
    // Ensure buffer is large enough for tests
    assert!(
        buffer.channels() >= 2,
        "Buffer must have at least 2 channels for this test"
    );
    assert!(
        buffer.frames() >= 4,
        "Buffer must have at least 4 frames for this test"
    );

    // --- Test `fill_with` and `read_sample` ---
    buffer.fill_with(&to_sample(42));
    assert_eq!(buffer.read_sample(0, 0), Some(to_sample(42)));
    assert_eq!(buffer.read_sample(1, 1), Some(to_sample(42)));
    // Test OOB read
    assert_eq!(buffer.read_sample(buffer.channels(), 0), None);
    assert_eq!(buffer.read_sample(0, buffer.frames()), None);

    // --- Test `write_sample` ---
    assert_eq!(buffer.write_sample(0, 0, &to_sample(100)), Some(false));
    assert_eq!(buffer.read_sample(0, 0), Some(to_sample(100)));
    // Test OOB write
    assert_eq!(
        buffer.write_sample(buffer.channels(), 0, &to_sample(101)),
        None
    );
    assert_eq!(buffer.write_sample(0, buffer.frames(), &to_sample(102)), None);

    // --- Test `fill_channel_with` ---
    buffer.fill_channel_with(1, &to_sample(99)).unwrap();
    assert_eq!(buffer.read_sample(1, 0), Some(to_sample(99)));
    assert_eq!(buffer.read_sample(1, 1), Some(to_sample(99)));
    assert_eq!(buffer.read_sample(0, 0), Some(to_sample(100))); // Other channel unaffected

    // --- Test `fill_frame_with` ---
    buffer.fill_frame_with(2, &to_sample(88)).unwrap();
    assert_eq!(buffer.read_sample(0, 2), Some(to_sample(88)));
    assert_eq!(buffer.read_sample(1, 2), Some(to_sample(88)));
    assert_eq!(buffer.read_sample(1, 1), Some(to_sample(99))); // Other frame unaffected

    // --- Test `fill_frames_with` ---
    buffer.fill_frames_with(0, 2, &to_sample(77)).unwrap();
    assert_eq!(buffer.read_sample(0, 0), Some(to_sample(77)));
    assert_eq!(buffer.read_sample(1, 1), Some(to_sample(77)));
    assert_eq!(buffer.read_sample(0, 2), Some(to_sample(88))); // Unaffected frame

    // Reset for next tests
    for c in 0..buffer.channels() {
        for f in 0..buffer.frames() {
            buffer.write_sample(c, f, &to_sample(c * 10 + f));
        }
    }
    // Expected: ch0: [0, 1, 2, 3, ...], ch1: [10, 11, 12, 13, ...]

    // --- Test `copy_from_channel_to_slice` ---
    let mut slice_ch = vec![usize::default(); 2];
    let copied = buffer.copy_from_channel_to_slice(1, 1, &mut slice_ch);
    assert_eq!(copied, 2);
    assert_eq!(slice_ch, vec![to_sample(11), to_sample(12)]);

    // --- Test `copy_from_frame_to_slice` ---
    let mut slice_fr = vec![usize::default(); 2];
    let copied = buffer.copy_from_frame_to_slice(2, 0, &mut slice_fr);
    assert_eq!(copied, 2);
    assert_eq!(slice_fr, vec![to_sample(2), to_sample(12)]);

    // --- Test `copy_from_slice_to_channel` ---
    let slice_to_ch = vec![to_sample(101), to_sample(102)];
    let (copied, clipped) = buffer.copy_from_slice_to_channel(0, 2, &slice_to_ch);
    assert_eq!(copied, 2);
    assert_eq!(clipped, 0);
    assert_eq!(buffer.read_sample(0, 2), Some(to_sample(101)));
    assert_eq!(buffer.read_sample(0, 3), Some(to_sample(102)));

    // --- Test `copy_from_slice_to_frame` ---
    let slice_to_fr = vec![to_sample(201)];
    let (copied, clipped) = buffer.copy_from_slice_to_frame(3, 1, &slice_to_fr);
    assert_eq!(copied, 1);
    assert_eq!(clipped, 0);
    assert_eq!(buffer.read_sample(1, 3), Some(to_sample(201)));

    // --- Test `copy_sample_within` ---
    // Before: (0,0) is 0, (1,1) is 11
    assert!(buffer.copy_sample_within(0, 0, 1, 1));
    // After: (0,0) is 0, (1,1) is 0
    assert_eq!(buffer.read_sample(1, 1), Some(to_sample(0)));

    // --- Test `swap_samples` ---
    // Before: (0,1) is 1, (1,0) is 10
    assert!(buffer.swap_samples(0, 1, 1, 0));
    // After: (0,1) is 10, (1,0) is 1
    assert_eq!(buffer.read_sample(0, 1), Some(to_sample(10)));
    assert_eq!(buffer.read_sample(1, 0), Some(to_sample(1)));

    // --- Test `copy_frames_within` ---
    // Before: F0:[0, 1], F1:[10, 0], F2:[101, 12]
    buffer.copy_frames_within(0, 1, 2).unwrap();
    // After: F0:[0, 1], F1:[0, 1], F2:[10, 0]
    assert_eq!(buffer.read_sample(0, 1), Some(to_sample(0)));
    assert_eq!(buffer.read_sample(1, 1), Some(to_sample(1)));
    assert_eq!(buffer.read_sample(0, 2), Some(to_sample(10)));
    assert_eq!(buffer.read_sample(1, 2), Some(to_sample(0)));
}

fn prepare_test_data(buffer: &mut dyn AdapterMut<u32>) {
    for channel in 0..buffer.channels() {
        for frame in 0..buffer.frames() {
            let value = (100 * channel + frame) as u32;
            buffer.write_sample(channel, frame, &value);
        }
    }
}

fn check_copy_within(buffer: &mut dyn AdapterMut<u32>) {
    assert!(buffer.channels() > 1, "Too few channels to run tests");
    assert!(buffer.frames() > 8, "Too few frames to run test");
    // copy forward, no overlap
    prepare_test_data(buffer);
    assert_eq!(buffer.copy_frames_within(1, 5, 3), Some(3));
    check_copy_result(buffer, 1, 5, 3);

    // copy backwards, no overlap
    prepare_test_data(buffer);
    assert_eq!(buffer.copy_frames_within(5, 1, 3), Some(3));
    check_copy_result(buffer, 5, 1, 3);

    // copy forward, with overlap
    prepare_test_data(buffer);
    assert_eq!(buffer.copy_frames_within(1, 3, 5), Some(5));
    check_copy_result(buffer, 1, 3, 5);

    // copy backwards, with overlap
    prepare_test_data(buffer);
    assert_eq!(buffer.copy_frames_within(3, 1, 5), Some(5));
    check_copy_result(buffer, 3, 1, 5);
}

fn check_copy_result(buffer: &dyn AdapterMut<u32>, src: usize, dest: usize, count: usize) {
    for channel in 0..buffer.channels() {
        for frame in 0..buffer.frames() {
            let copied_frame = if frame >= dest && frame < dest + count {
                frame + src - dest
            } else {
                frame
            };
            let expected_value = (100 * channel + copied_frame) as u32;
            assert_eq!(
                buffer.read_sample(channel, frame),
                Some(expected_value),
                "Wrong value at ch {}, frame {}",
                channel,
                frame
            );
        }
    }
}

fn insert_data(buffer: &mut dyn AdapterMut<i32>) {
    buffer.write_sample(0, 0, &1).unwrap();
    buffer.write_sample(0, 1, &2).unwrap();
    buffer.write_sample(0, 2, &3).unwrap();
    buffer.write_sample(1, 0, &4).unwrap();
    buffer.write_sample(1, 1, &5).unwrap();
    buffer.write_sample(1, 2, &6).unwrap();
}

fn test_get(buffer: &mut dyn AdapterMut<i32>) {
    insert_data(buffer);
    assert_eq!(buffer.read_sample(0, 0).unwrap(), 1);
    assert_eq!(buffer.read_sample(0, 1).unwrap(), 2);
    assert_eq!(buffer.read_sample(0, 2).unwrap(), 3);
    assert_eq!(buffer.read_sample(1, 0).unwrap(), 4);
    assert_eq!(buffer.read_sample(1, 1).unwrap(), 5);
    assert_eq!(buffer.read_sample(1, 2).unwrap(), 6);
}

fn test_slice_channel(buffer: &mut dyn AdapterMut<i32>) {
    insert_data(buffer);
    let mut other1 = [0; 2];
    let mut other2 = [0; 4];
    buffer.copy_from_channel_to_slice(0, 1, &mut other1);
    buffer.copy_from_channel_to_slice(1, 0, &mut other2);
    assert_eq!(other1[0], 2);
    assert_eq!(other1[1], 3);
    assert_eq!(other2[0], 4);
    assert_eq!(other2[1], 5);
    assert_eq!(other2[2], 6);
    assert_eq!(other2[3], 0);
}

fn test_slice_frame(buffer: &mut dyn AdapterMut<i32>) {
    insert_data(buffer);
    let mut other1 = [0; 1];
    let mut other2 = [0; 3];
    buffer.copy_from_frame_to_slice(0, 1, &mut other1);
    buffer.copy_from_frame_to_slice(1, 0, &mut other2);
    assert_eq!(other1[0], 4);
    assert_eq!(other2[0], 2);
    assert_eq!(other2[1], 5);
    assert_eq!(other2[2], 0);
}

fn test_mut_slice_channel(buffer: &mut dyn AdapterMut<i32>) {
    insert_data(buffer);
    let other1 = [8, 9];
    let other2 = [10, 11, 12, 13];
    buffer.copy_from_slice_to_channel(0, 1, &other1);
    buffer.copy_from_slice_to_channel(1, 0, &other2);
    assert_eq!(buffer.read_sample(0, 0).unwrap(), 1);
    assert_eq!(buffer.read_sample(0, 1).unwrap(), 8);
    assert_eq!(buffer.read_sample(0, 2).unwrap(), 9);
    assert_eq!(buffer.read_sample(1, 0).unwrap(), 10);
    assert_eq!(buffer.read_sample(1, 1).unwrap(), 11);
    assert_eq!(buffer.read_sample(1, 2).unwrap(), 12);
}

fn test_mut_slice_frame(buffer: &mut dyn AdapterMut<i32>) {
    insert_data(buffer);
    let other1 = [8];
    let other2 = [10, 11, 12];
    buffer.copy_from_slice_to_frame(0, 0, &other1);
    buffer.copy_from_slice_to_frame(1, 0, &other2);
    assert_eq!(buffer.read_sample(0, 0).unwrap(), 8);
    assert_eq!(buffer.read_sample(1, 0).unwrap(), 4);
    assert_eq!(buffer.read_sample(0, 1).unwrap(), 10);
    assert_eq!(buffer.read_sample(1, 1).unwrap(), 11);
    assert_eq!(buffer.read_sample(0, 2).unwrap(), 3);
    assert_eq!(buffer.read_sample(1, 2).unwrap(), 6);
}

#[test]
fn vec_of_vec_channels() {
    let mut data = vec![vec![0_i32; 3], vec![0_i32; 3]];
    let mut buffer = SequentialSliceOfVecs::new_mut(&mut data, 2, 3).unwrap();
    test_get(&mut buffer);
    test_slice_channel(&mut buffer);
    test_slice_frame(&mut buffer);
    test_mut_slice_channel(&mut buffer);
    test_mut_slice_frame(&mut buffer);
}

#[test]
fn slice_of_slice_channels() {
    let mut data_ch_0 = vec![0_i32; 3];
    let mut data_ch_1 = vec![0_i32; 3];
    let mut data = vec![data_ch_0.as_mut_slice(), data_ch_1.as_mut_slice()];

    let mut buffer = SequentialSliceOfSlices::new_mut(&mut data, 2, 3).unwrap();
    test_get(&mut buffer);
    test_slice_channel(&mut buffer);
    test_slice_frame(&mut buffer);
    test_mut_slice_channel(&mut buffer);
    test_mut_slice_frame(&mut buffer);
}

#[test]
fn vec_of_frames() {
    let mut data = vec![vec![1_i32, 4], vec![2_i32, 5], vec![3, 6]];
    let mut buffer = InterleavedSliceOfVecs::new_mut(&mut data, 2, 3).unwrap();
    test_get(&mut buffer);
    test_slice_channel(&mut buffer);
    test_slice_frame(&mut buffer);
    test_mut_slice_channel(&mut buffer);
    test_mut_slice_frame(&mut buffer);
}

#[test]
fn interleaved() {
    let mut data = [1_i32, 4, 2, 5, 3, 6];
    let mut buffer = InterleavedSlice::new_mut(&mut data, 2, 3).unwrap();
    test_get(&mut buffer);
    test_slice_channel(&mut buffer);
    test_slice_frame(&mut buffer);
    test_mut_slice_channel(&mut buffer);
    test_mut_slice_frame(&mut buffer);
}

#[test]
fn sequential() {
    let mut data = [1_i32, 2, 3, 4, 5, 6];
    let mut buffer = SequentialSlice::new_mut(&mut data, 2, 3).unwrap();
    test_get(&mut buffer);
    test_slice_channel(&mut buffer);
    test_slice_frame(&mut buffer);
    test_mut_slice_channel(&mut buffer);
    test_mut_slice_frame(&mut buffer);
}

#[test]
fn copy_channel_from_other() {
    let data_other = [1.0_f32, 2.0, 3.0, 4.0, 5.0, 6.0];
    let other = SequentialSlice::new(&data_other, 2, 3).unwrap();
    let mut data = [0.0; 6];
    let mut buffer = SequentialSlice::new_mut(&mut data, 2, 3).unwrap();
    // copy second and third element of second channel of other to first and second element of first channel
    let res1 = buffer.copy_from_other_to_channel(&other, 1, 0, 1, 0, 2);
    // copy first and second element of first channel of other to second and third element of second channel
    let res2 = buffer.copy_from_other_to_channel(&other, 0, 1, 0, 1, 2);
    assert_eq!(res1, Some(0));
    assert_eq!(res2, Some(0));
    assert_eq!(buffer.read_sample(0, 0).unwrap(), 5.0);
    assert_eq!(buffer.read_sample(0, 1).unwrap(), 6.0);
    assert_eq!(buffer.read_sample(0, 2).unwrap(), 0.0);
    assert_eq!(buffer.read_sample(1, 0).unwrap(), 0.0);
    assert_eq!(buffer.read_sample(1, 1).unwrap(), 1.0);
    assert_eq!(buffer.read_sample(1, 2).unwrap(), 2.0);
}

#[test]
fn fill_channel() {
    let mut data: [i32; 6] = [1; 6];
    let mut buffer = InterleavedSlice::new_mut(&mut data, 2, 3).unwrap();
    buffer.fill_channel_with(0, &2);
    let expected: [i32; 6] = [2, 1, 2, 1, 2, 1];
    assert_eq!(data, expected);
}

#[test]
fn fill_frame() {
    let mut data: [i32; 6] = [1; 6];
    let mut buffer = InterleavedSlice::new_mut(&mut data, 2, 3).unwrap();
    buffer.fill_frame_with(1, &2);
    let expected: [i32; 6] = [1, 1, 2, 2, 1, 1];
    assert_eq!(data, expected);
}

#[test]
fn direct_fill_buffer() {
    let mut data: [i32; 6] = [1; 6];
    let mut buffer = InterleavedSlice::new_mut(&mut data, 2, 3).unwrap();
    buffer.fill_with(&2);
    let expected: [i32; 6] = [2; 6];
    assert_eq!(data, expected);
}

#[test]
fn copy_within_interleaved_slice() {
    let mut data = vec![0; 20];
    let mut adapter = InterleavedSlice::new_mut(&mut data, 2, 10).unwrap();
    check_copy_within(&mut adapter);
}

#[test]
fn copy_within_sequential_slice() {
    let mut data = vec![0; 20];
    let mut adapter = SequentialSlice::new_mut(&mut data, 2, 10).unwrap();
    check_copy_within(&mut adapter);
}

#[test]
fn copy_within_interleaved_vecs() {
    let mut data = vec![vec![0; 2]; 10];
    let mut adapter = InterleavedSliceOfVecs::new_mut(&mut data, 2, 10).unwrap();
    check_copy_within(&mut adapter);
}

#[test]
fn copy_within_sequential_vecs() {
    let mut data = vec![vec![0; 10]; 2];
    let mut adapter = SequentialSliceOfVecs::new_mut(&mut data, 2, 10).unwrap();
    check_copy_within(&mut adapter);
}

#[test]
fn copy_within_sequential_slices() {
    let mut data_ch_0 = vec![0; 10];
    let mut data_ch_1 = vec![0; 10];
    let mut data = vec![data_ch_0.as_mut_slice(), data_ch_1.as_mut_slice()];

    let mut adapter = SequentialSliceOfSlices::new_mut(&mut data, 2, 10).unwrap();
    check_copy_within(&mut adapter);
}

#[test]
fn test_interleaved_slice_with_generic_tester() {
    let mut data = vec![0usize; 8];
    let mut buffer = InterleavedSlice::new_mut(&mut data, 2, 4).unwrap();
    test_adapter_mut_methods(&mut buffer);
}

#[test]
fn test_sequential_slice_with_generic_tester() {
    let mut data = vec![0usize; 8];
    let mut buffer = SequentialSlice::new_mut(&mut data, 2, 4).unwrap();
    test_adapter_mut_methods(&mut buffer);
}

#[test]
fn test_interleaved_slice_of_vecs_with_generic_tester() {
    let mut data = vec![vec![0usize; 2]; 4];
    let mut buffer = InterleavedSliceOfVecs::new_mut(&mut data, 2, 4).unwrap();
    test_adapter_mut_methods(&mut buffer);
}

#[test]
fn test_sequential_slice_of_vecs_with_generic_tester() {
    let mut data = vec![vec![0usize; 4]; 2];
    let mut buffer = SequentialSliceOfVecs::new_mut(&mut data, 2, 4).unwrap();
    test_adapter_mut_methods(&mut buffer);
}

#[test]
fn test_sequential_slice_of_slices_with_generic_tester() {
    let mut data_ch_0 = vec![0usize; 4];
    let mut data_ch_1 = vec![0usize; 4];
    let mut data = vec![data_ch_0.as_mut_slice(), data_ch_1.as_mut_slice()];

    let mut buffer = SequentialSliceOfSlices::new_mut(&mut data, 2, 4).unwrap();
    test_adapter_mut_methods(&mut buffer);
}

#[test]
fn test_sparse_sequential_slice_of_vecs_with_generic_tester() {
    let mut data = vec![vec![0usize; 4], vec![0usize; 4]];
    let mask = [true, true];
    let mut buffer = SparseSequentialSliceOfVecs::new_mut(&mut data, 2, 4, &mask).unwrap();
    test_adapter_mut_methods(&mut buffer);
}

#[test]
fn test_sparse_sequential_slice_of_slices_with_generic_tester() {
    let mut data_ch_0 = vec![0usize; 4];
    let mut data_ch_1 = vec![0usize; 4];
    let mut data = vec![data_ch_0.as_mut_slice(), data_ch_1.as_mut_slice()];

    let mask = [true, true];
    let mut buffer = SparseSequentialSliceOfSlices::new_mut(&mut data, 2, 4, &mask).unwrap();
    test_adapter_mut_methods(&mut buffer);
}

#[test]
fn size_error_kind_for_too_few_channels_in_sequential_vecs() {
    // Sequential layout expects one Vec per channel.
    // Here we provide only 1 channel Vec, but request 2 channels.
    // Frame length is valid (3), so the only wrong dimension is channel count.
    let data = vec![vec![0_i32; 3]];
    let err = match SequentialSliceOfVecs::new(&data, 2, 3) {
        Ok(_) => panic!("expected Err for too few channels"),
        Err(err) => err,
    };
    assert!(
        matches!(err, SizeError::ChannelsContainer { .. }),
        "expected SizeError::ChannelsContainer for too few channels, got {err:?}"
    );
}

#[test]
fn size_error_kind_for_too_few_channels_in_sparse_sequential_vecs() {
    // Sparse sequential layout still expects the outer slice length to match channels.
    // Here we provide only 1 channel Vec, but request 2 channels.
    // The mask also has length 2, and the active channel's frame length is valid,
    // so the failing dimension is again the number of channels in `data`.
    let data = vec![vec![0_i32; 3]];
    let mask = [true, true];
    let err = match SparseSequentialSliceOfVecs::new(&data, 2, 3, &mask) {
        Ok(_) => panic!("expected Err for too few channels"),
        Err(err) => err,
    };
    assert!(
        matches!(err, SizeError::ChannelsContainer { .. }),
        "expected SizeError::ChannelsContainer for too few channels, got {err:?}"
    );
}

#[test]
fn size_error_kind_for_too_few_frames_in_interleaved_vecs() {
    // Interleaved layout expects one Vec per frame.
    // Here we provide only 1 frame Vec, but request 2 frames.
    // Each frame Vec has valid channel length (2), so the only wrong dimension is frame count.
    let data = vec![vec![0_i32; 2]];
    let err = match InterleavedSliceOfVecs::new(&data, 2, 2) {
        Ok(_) => panic!("expected Err for too few frames"),
        Err(err) => err,
    };
    assert!(
        matches!(err, SizeError::FramesContainer { .. }),
        "expected SizeError::FramesContainer for too few frames in interleaved input, got {err:?}"
    );
}

#[test]
fn size_error_kind_for_short_inner_channel_buffer_in_sequential_vecs() {
    // Two channel buffers are present, so outer channel count is valid.
    // Channel index 1 is too short for the requested frame count.
    let data = vec![vec![0_i32; 3], vec![0_i32; 2]];
    let err = match SequentialSliceOfVecs::new(&data, 2, 3) {
        Ok(_) => panic!("expected Err for short inner channel buffer"),
        Err(err) => err,
    };
    assert!(
        matches!(
            err,
            SizeError::ChannelBuffer {
                index: 1,
                actual: 2,
                required: 3
            }
        ),
        "expected SizeError::ChannelBuffer at index 1, got {err:?}"
    );
}

#[test]
fn size_error_kind_for_short_inner_frame_buffer_in_interleaved_vecs() {
    // Two frame buffers are present, so outer frame count is valid.
    // Frame index 1 is too short for the requested channel count.
    let data = vec![vec![0_i32; 2], vec![0_i32; 1]];
    let err = match InterleavedSliceOfVecs::new(&data, 2, 2) {
        Ok(_) => panic!("expected Err for short inner frame buffer"),
        Err(err) => err,
    };
    assert!(
        matches!(
            err,
            SizeError::FrameBuffer {
                index: 1,
                actual: 1,
                required: 2
            }
        ),
        "expected SizeError::FrameBuffer at index 1, got {err:?}"
    );
}

#[test]
fn size_error_kind_for_short_flat_buffer_in_interleaved_slice() {
    // Flat interleaved data requires channels * frames samples.
    // Here we provide 3 samples but request 2 * 2 = 4.
    let data = [0_i32; 3];
    let err = match InterleavedSlice::new(&data, 2, 2) {
        Ok(_) => panic!("expected Err for short flat buffer"),
        Err(err) => err,
    };
    assert!(
        matches!(
            err,
            SizeError::Total {
                actual: 3,
                required: 4
            }
        ),
        "expected SizeError::Total with required flat length 4, got {err:?}"
    );
}

#[test]
fn size_error_kind_for_wrong_mask_length_in_sparse_sequential_vecs() {
    // Data dimensions are valid, but mask length must match channels.
    let data = vec![vec![0_i32; 3], vec![0_i32; 3]];
    let mask = [true];
    let err = match SparseSequentialSliceOfVecs::new(&data, 2, 3, &mask) {
        Ok(_) => panic!("expected Err for wrong mask length"),
        Err(err) => err,
    };
    assert!(
        matches!(
            err,
            SizeError::Mask {
                actual: 1,
                required: 2
            }
        ),
        "expected SizeError::Mask with required length 2, got {err:?}"
    );
}

#[test]
fn overflowing_dimensions_are_rejected() {
    // channels * frames overflows usize and must not wrap to a small
    // value that passes the length check. See the soundness fix in
    // `check_slice_length!`.
    let data = [0_i32; 4];
    // big * big wraps to exactly 0 (2^usize::BITS), which the unfixed check
    // would treat as "required 0" and accept. Portable across 32/64-bit.
    let big = 1_usize << (usize::BITS / 2);
    assert!(
        matches!(
            InterleavedSlice::new(&data, big, big),
            Err(SizeError::Total { .. })
        ),
        "overflowing channels * frames must be rejected"
    );
    assert!(
        matches!(
            SequentialSlice::new(&data, big, big),
            Err(SizeError::Total { .. })
        ),
        "overflowing channels * frames must be rejected"
    );
}

#[test]
fn copy_frames_within_rejects_overflowing_range() {
    // src + count overflows usize. The guard must not wrap and allow an
    // out-of-bounds copy.
    let mut data = [0_i32; 6];
    let mut buf = InterleavedSlice::new_mut(&mut data, 2, 3).unwrap();
    assert_eq!(buf.copy_frames_within(usize::MAX, 0, 2), None);
    assert_eq!(buf.copy_frames_within(0, usize::MAX, 2), None);
}

#[test]
fn sparse_unstored_channel_copies_silence() {
    let data = vec![vec![1, 2, 3], Vec::new()];
    let mask = [true, false];
    let buffer = SparseSequentialSliceOfVecs::new(&data, 2, 3, &mask).unwrap();
    let mut slice = [9; 3];
    assert_eq!(buffer.copy_from_channel_to_slice(1, 0, &mut slice), 3);
    assert_eq!(slice, [0, 0, 0]);
    let mut slice = [9; 3];
    assert_eq!(buffer.copy_from_channel_to_slice(0, 1, &mut slice), 2);
    assert_eq!(slice, [2, 3, 9]);
}

#[test]
fn sparse_unstored_channel_drops_copied_writes() {
    let mut data_ch_0 = vec![1, 2, 3];
    let mut data = vec![data_ch_0.as_mut_slice(), &mut []];
    let mask = [true, false];
    let mut buffer = SparseSequentialSliceOfSlices::new_mut(&mut data, 2, 3, &mask).unwrap();
    assert_eq!(buffer.copy_from_slice_to_channel(1, 1, &[7, 8, 9]), (2, 0));
    assert_eq!(buffer.read_sample(1, 1), Some(0));
    assert_eq!(buffer.copy_from_slice_to_channel(0, 1, &[7, 8, 9]), (2, 0));
    assert_eq!(buffer.read_sample(0, 2), Some(8));
    assert_eq!(buffer.copy_from_slice_to_channel(2, 0, &[7]), (0, 0));
}

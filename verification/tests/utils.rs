use audioadapter::direct::{InterleavedSlice, SequentialSlice, SparseSequentialSliceOfVecs};
use audioadapter::utils::{from_interleaved, from_sequential, to_interleaved, to_sequential};

// sequential [ch0: 1,2,3][ch1: 4,5,6]  <->  interleaved [1,4,2,5,3,6]

#[test]
fn adapter_to_interleaved_whole() {
    let data = [1, 2, 3, 4, 5, 6];
    let src = SequentialSlice::new(&data, 2, 3).unwrap();
    let mut out = [0; 6];
    let clipped = to_interleaved(&src, &mut out, 0, 0, 3);
    assert_eq!(clipped, Some(0));
    assert_eq!(out, [1, 4, 2, 5, 3, 6]);
}

#[test]
fn adapter_to_sequential_whole() {
    let data = [1, 4, 2, 5, 3, 6];
    let src = InterleavedSlice::new(&data, 2, 3).unwrap();
    let mut out = [0; 6];
    assert_eq!(to_sequential(&src, &mut out, 0, 0, 3), Some(0));
    assert_eq!(out, [1, 2, 3, 4, 5, 6]);
}

#[test]
fn interleaved_into_adapter_whole() {
    let input = [1, 4, 2, 5, 3, 6];
    let mut store = [0; 6];
    let mut dst = SequentialSlice::new_mut(&mut store, 2, 3).unwrap();
    assert_eq!(from_interleaved(&input, &mut dst, 0, 0, 3), Some(0));
    assert_eq!(store, [1, 2, 3, 4, 5, 6]);
}

#[test]
fn sequential_into_adapter_whole() {
    let input = [1, 2, 3, 4, 5, 6];
    let mut store = [0; 6];
    let mut dst = InterleavedSlice::new_mut(&mut store, 2, 3).unwrap();
    assert_eq!(from_sequential(&input, &mut dst, 0, 0, 3), Some(0));
    assert_eq!(store, [1, 4, 2, 5, 3, 6]);
}

#[test]
fn partial_take_copies_a_prefix() {
    // Source has 3 frames, copy only the first 2 into a 2-frame slice.
    let data = [1, 2, 3, 4, 5, 6]; // ch0 = [1,2,3], ch1 = [4,5,6]
    let src = SequentialSlice::new(&data, 2, 3).unwrap();
    let mut out = [0; 4];
    assert_eq!(to_interleaved(&src, &mut out, 0, 0, 2), Some(0));
    assert_eq!(out, [1, 4, 2, 5]);
}

#[test]
fn src_skip_reads_from_offset() {
    let data = [1, 2, 3, 4, 5, 6]; // ch0 = [1,2,3], ch1 = [4,5,6]
    let src = SequentialSlice::new(&data, 2, 3).unwrap();
    let mut out = [0; 4];
    // Skip the first source frame, take the next two: frames 1 and 2.
    assert_eq!(to_interleaved(&src, &mut out, 1, 0, 2), Some(0));
    assert_eq!(out, [2, 5, 3, 6]);
}

#[test]
fn dst_skip_appends() {
    // Write one frame at frame 2 of a 3-frame adapter.
    let mut store = [0; 6];
    let mut dst = SequentialSlice::new_mut(&mut store, 2, 3).unwrap();
    let input = [7, 70]; // one interleaved frame: ch0 = 7, ch1 = 70
    assert_eq!(from_interleaved(&input, &mut dst, 0, 2, 1), Some(0));
    // ch0 = [0,0,7], ch1 = [0,0,70]
    assert_eq!(store, [0, 0, 7, 0, 0, 70]);
}

#[test]
fn region_that_does_not_fit_returns_none() {
    let data = [1, 2, 3, 4, 5, 6];
    let src = SequentialSlice::new(&data, 2, 3).unwrap();
    let mut out = [0; 4]; // room for 2 frames

    // take larger than the slice can hold
    assert_eq!(to_interleaved(&src, &mut out, 0, 0, 3), None);
    // take larger than the source has
    let mut big = [0; 12]; // room for 6 frames
    assert_eq!(to_interleaved(&src, &mut big, 0, 0, 4), None);
    // overflowing skip must not wrap
    assert_eq!(to_interleaved(&src, &mut out, usize::MAX, 0, 2), None);
}

#[test]
fn longer_slice_ignores_trailing_partial_frame() {
    let data = [1, 2, 3, 4, 5, 6];
    let src = SequentialSlice::new(&data, 2, 3).unwrap();
    let mut ragged = [0; 5]; // holds 2 whole frames, 1 trailing sample unused
    assert_eq!(to_interleaved(&src, &mut ragged, 0, 0, 2), Some(0));
    assert_eq!(ragged, [1, 4, 2, 5, 0]); // last element untouched
}

#[test]
fn sparse_source_reads_zeros_for_absent_channels() {
    // 2 channels, 3 frames, but only channel 0 is present.
    let data = vec![vec![1, 2, 3], vec![]];
    let mask = [true, false];
    let src = SparseSequentialSliceOfVecs::new(&data, 2, 3, &mask).unwrap();

    let mut out = [9; 6];
    assert_eq!(to_interleaved(&src, &mut out, 0, 0, 3), Some(0));
    // ch1 reads as default (0): frames [ch0, ch1] = [1,0],[2,0],[3,0]
    assert_eq!(out, [1, 0, 2, 0, 3, 0]);
}

#[test]
fn sparse_destination_drops_absent_channels() {
    // 2 channels, 3 frames, only channel 0 is writable.
    let mut data = vec![vec![0, 0, 0], vec![0, 0, 0]];
    let mask = [true, false];
    let mut dst = SparseSequentialSliceOfVecs::new_mut(&mut data, 2, 3, &mask).unwrap();

    // interleaved input: ch0 = [1,2,3], ch1 = [10,20,30]
    let input = [1, 10, 2, 20, 3, 30];
    assert_eq!(from_interleaved(&input, &mut dst, 0, 0, 3), Some(0));
    // ch0 was written, ch1 writes were dropped (vector left untouched).
    assert_eq!(data[0], [1, 2, 3]);
    assert_eq!(data[1], [0, 0, 0]);
}


#[test]
fn sequential_slice_with_offsets_into_interleaved_adapter() {
    // ch0 = [1, 2], ch1 = [3, 4] in a sequential slice of two frames
    let input = [1, 2, 3, 4];
    let mut store = [0; 6];
    let mut dst = InterleavedSlice::new_mut(&mut store, 2, 3).unwrap();
    assert_eq!(from_sequential(&input, &mut dst, 1, 2, 1), Some(0));
    assert_eq!(store, [0, 0, 0, 0, 2, 4]);
    let mut dst = InterleavedSlice::new_mut(&mut store, 2, 3).unwrap();
    assert_eq!(from_sequential(&input, &mut dst, 1, 2, 2), None);
    assert_eq!(store, [0, 0, 0, 0, 2, 4]);
}

#[test]
fn zero_channels_copy_nothing() {
    let data: [i32; 0] = [];
    let src = InterleavedSlice::new(&data, 0, 5).unwrap();
    let mut out = [7; 3];
    assert_eq!(to_sequential(&src, &mut out, 0, 0, 0), Some(0));
    assert_eq!(to_sequential(&src, &mut out, 0, 0, 1), None);
    assert_eq!(out, [7; 3]);
}

#[test]
fn interleaving_and_back_restores_the_samples() {
    let data = [1, 2, 3, 4, 5, 6]; // ch0 = [1,2,3], ch1 = [4,5,6]
    let src = SequentialSlice::new(&data, 2, 3).unwrap();
    let mut slice = [0; 8];
    assert_eq!(to_interleaved(&src, &mut slice, 1, 1, 2), Some(0));
    assert_eq!(slice, [0, 0, 2, 5, 3, 6, 0, 0]);
    let mut store = [0; 6];
    let mut dst = SequentialSlice::new_mut(&mut store, 2, 3).unwrap();
    assert_eq!(from_interleaved(&slice, &mut dst, 1, 0, 2), Some(0));
    assert_eq!(store, [2, 3, 0, 5, 6, 0]);

    let mut seq = [0; 6];
    assert_eq!(to_sequential(&src, &mut seq, 0, 0, 3), Some(0));
    let mut back = [0; 6];
    let mut dst = InterleavedSlice::new_mut(&mut back, 2, 3).unwrap();
    assert_eq!(from_sequential(&seq, &mut dst, 0, 0, 3), Some(0));
    assert_eq!(back, [1, 4, 2, 5, 3, 6]);
}

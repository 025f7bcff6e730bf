//! Properties that relate several operations of the buffers.
use vstd::prelude::*;

use crate::traits::{Adapter, AdapterMut};
use crate::direct::{
    InterleavedSlice, InterleavedSliceOfVecs, SequentialSlice, SequentialSliceOfSlices, SequentialSliceOfVecs,
};
use crate::owned::{InterleavedOwned, SequentialOwned};
use crate::utils::whole_frames;

verus! {

/// Swapping the same two samples twice restores every sample, where the buffer
/// stores the values written to those two positions unchanged.
///
/// `first` is `buffer` after a call of `swap_samples` that returned `true`, and
/// `second` is `first` after the same call again, as the contract of
/// `swap_samples` describes them.
pub proof fn law_swap_samples_twice<T: Copy, A: AdapterMut<T>>(
    buffer: A,
    first: A,
    second: A,
    channel_a: int,
    frame_a: int,
    channel_b: int,
    frame_b: int,
)
    requires
        forall|v: T| #[trigger] buffer.spec_stored(channel_a, frame_a, v) == v,
        forall|v: T| #[trigger] buffer.spec_stored(channel_b, frame_b, v) == v,
        0 <= channel_a < buffer.spec_channels() && 0 <= frame_a < buffer.spec_frames(),
        0 <= channel_b < buffer.spec_channels() && 0 <= frame_b < buffer.spec_frames(),
        first.spec_channels() == buffer.spec_channels(),
        first.spec_frames() == buffer.spec_frames(),
        forall|c: int, f: int, v: T| #[trigger] first.spec_stored(c, f, v) == buffer.spec_stored(c, f, v),
        first.spec_sample(channel_a, frame_a) == buffer.spec_stored(channel_a, frame_a, buffer.spec_sample(channel_b, frame_b)),
        first.spec_sample(channel_b, frame_b) == buffer.spec_stored(channel_b, frame_b, buffer.spec_sample(channel_a, frame_a)),
        forall|c: int, f: int|
            0 <= c < buffer.spec_channels() && 0 <= f < buffer.spec_frames() && !((c == channel_a && f == frame_a) || (c == channel_b && f == frame_b))
                ==> #[trigger] first.spec_sample(c, f) == buffer.spec_sample(c, f),
        second.spec_sample(channel_a, frame_a) == first.spec_stored(channel_a, frame_a, first.spec_sample(channel_b, frame_b)),
        second.spec_sample(channel_b, frame_b) == first.spec_stored(channel_b, frame_b, first.spec_sample(channel_a, frame_a)),
        forall|c: int, f: int|
            0 <= c < first.spec_channels() && 0 <= f < first.spec_frames() && !((c == channel_a && f == frame_a) || (c == channel_b && f == frame_b))
                ==> #[trigger] second.spec_sample(c, f) == first.spec_sample(c, f),
    ensures
        forall|c: int, f: int|
            0 <= c < buffer.spec_channels() && 0 <= f < buffer.spec_frames() ==> #[trigger] second.spec_sample(c, f)
                == buffer.spec_sample(c, f),
{
    assert forall|c: int, f: int|
        0 <= c < buffer.spec_channels() && 0 <= f < buffer.spec_frames() implies #[trigger] second.spec_sample(c, f)
            == buffer.spec_sample(c, f) by {
        assert(buffer.spec_stored(channel_a, frame_a, buffer.spec_sample(channel_b, frame_b)) == buffer.spec_sample(channel_b, frame_b));
        assert(buffer.spec_stored(channel_b, frame_b, buffer.spec_sample(channel_a, frame_a)) == buffer.spec_sample(channel_a, frame_a));
        assert(first.spec_stored(channel_a, frame_a, first.spec_sample(channel_b, frame_b)) == first.spec_sample(channel_b, frame_b));
        assert(first.spec_stored(channel_b, frame_b, first.spec_sample(channel_a, frame_a)) == first.spec_sample(channel_a, frame_a));
    }
}

/// Copying frames of an adapter into an interleaved slice with `to_interleaved`,
/// and copying them from there into a buffer with `from_interleaved`, gives the
/// buffer the adapter's samples, where the buffer stores the values written to it
/// unchanged.
///
/// `slice` holds what `to_interleaved(src, _, src_skip, slice_skip, take)` left
/// when it returned `Some`, and `copied` is `buffer` after
/// `from_interleaved(slice, buffer, slice_skip, dst_skip, take)` returned `Some`,
/// as the contracts of the two functions describe them.
pub proof fn law_interleaved_roundtrip<T: Copy, S: Adapter<T>, D: AdapterMut<T>>(
    src: &S,
    slice: Seq<T>,
    buffer: D,
    copied: D,
    src_skip: int,
    slice_skip: int,
    dst_skip: int,
    take: int,
)
    requires
        0 <= src_skip && 0 <= slice_skip && 0 <= dst_skip && 0 <= take,
        buffer.spec_channels() == src.spec_channels(),
        forall|c: int, f: int, v: T| #[trigger] buffer.spec_stored(c, f, v) == v,
        slice_skip + take <= whole_frames(slice.len() as int, src.spec_channels() as int),
        src_skip + take <= src.spec_frames(),
        dst_skip + take <= buffer.spec_frames(),
        forall|c: int, f: int|
            0 <= c < src.spec_channels() && slice_skip <= f < slice_skip + take ==> #[trigger] slice[f * src.spec_channels() + c]
                == src.spec_sample(c, f - slice_skip + src_skip),
        forall|c: int, f: int|
            0 <= c < buffer.spec_channels() && dst_skip <= f < dst_skip + take ==> #[trigger] copied.spec_sample(c, f)
                == buffer.spec_stored(c, f, slice[(slice_skip + f - dst_skip) * buffer.spec_channels() + c]),
    ensures
        forall|c: int, f: int|
            0 <= c < src.spec_channels() && dst_skip <= f < dst_skip + take ==> #[trigger] copied.spec_sample(c, f)
                == src.spec_sample(c, f - dst_skip + src_skip),
{
    assert forall|c: int, f: int|
        0 <= c < src.spec_channels() && dst_skip <= f < dst_skip + take implies #[trigger] copied.spec_sample(c, f)
            == src.spec_sample(c, f - dst_skip + src_skip) by {
        let g = slice_skip + f - dst_skip;
        assert(slice[g * src.spec_channels() + c] == src.spec_sample(c, g - slice_skip + src_skip));
    }
}

/// Copying frames of an adapter into a sequential slice with `to_sequential`, and
/// copying them from there into a buffer with `from_sequential`, gives the buffer
/// the adapter's samples, where the buffer stores the values written to it
/// unchanged.
///
/// `slice` holds what `to_sequential(src, _, src_skip, slice_skip, take)` left
/// when it returned `Some`, and `copied` is `buffer` after
/// `from_sequential(slice, buffer, slice_skip, dst_skip, take)` returned `Some`,
/// as the contracts of the two functions describe them.
pub proof fn law_sequential_roundtrip<T: Copy, S: Adapter<T>, D: AdapterMut<T>>(
    src: &S,
    slice: Seq<T>,
    buffer: D,
    copied: D,
    src_skip: int,
    slice_skip: int,
    dst_skip: int,
    take: int,
)
    requires
        0 <= src_skip && 0 <= slice_skip && 0 <= dst_skip && 0 <= take,
        buffer.spec_channels() == src.spec_channels(),
        forall|c: int, f: int, v: T| #[trigger] buffer.spec_stored(c, f, v) == v,
        slice_skip + take <= whole_frames(slice.len() as int, src.spec_channels() as int),
        src_skip + take <= src.spec_frames(),
        dst_skip + take <= buffer.spec_frames(),
        forall|c: int, f: int|
            0 <= c < src.spec_channels() && slice_skip <= f < slice_skip + take ==> #[trigger] slice[c
                * whole_frames(slice.len() as int, src.spec_channels() as int) + f] == src.spec_sample(c, f - slice_skip + src_skip),
        forall|c: int, f: int|
            0 <= c < buffer.spec_channels() && dst_skip <= f < dst_skip + take ==> #[trigger] copied.spec_sample(c, f)
                == buffer.spec_stored(
                c,
                f,
                slice[c * whole_frames(slice.len() as int, buffer.spec_channels() as int) + (slice_skip + f - dst_skip)],
            ),
    ensures
        forall|c: int, f: int|
            0 <= c < src.spec_channels() && dst_skip <= f < dst_skip + take ==> #[trigger] copied.spec_sample(c, f)
                == src.spec_sample(c, f - dst_skip + src_skip),
{
    let frames = whole_frames(slice.len() as int, src.spec_channels() as int);
    assert forall|c: int, f: int|
        0 <= c < src.spec_channels() && dst_skip <= f < dst_skip + take implies #[trigger] copied.spec_sample(c, f)
            == src.spec_sample(c, f - dst_skip + src_skip) by {
        let g = slice_skip + f - dst_skip;
        assert(slice[c * frames + g] == src.spec_sample(c, g - slice_skip + src_skip));
    }
}


/// The buffers that hold the samples themselves store every value unchanged:
/// a position reads back exactly the value written to it, and no write clips.
pub proof fn law_direct_buffers_store_exactly<'a, T: Copy>(
    interleaved_slice: &InterleavedSlice<&'a mut [T]>,
    sequential_slice: &SequentialSlice<&'a mut [T]>,
    sequential_vecs: &SequentialSliceOfVecs<&'a mut [Vec<T>]>,
    interleaved_vecs: &InterleavedSliceOfVecs<&'a mut [Vec<T>]>,
    sequential_slices: &SequentialSliceOfSlices<&'a mut [&'a mut [T]]>,
    interleaved_owned: &InterleavedOwned<T>,
    sequential_owned: &SequentialOwned<T>,
    channel: int,
    frame: int,
    value: T,
)
    ensures
        interleaved_slice.spec_stored(channel, frame, value) == value,
        !interleaved_slice.spec_clips(channel, frame, value),
        sequential_slice.spec_stored(channel, frame, value) == value,
        !sequential_slice.spec_clips(channel, frame, value),
        sequential_vecs.spec_stored(channel, frame, value) == value,
        !sequential_vecs.spec_clips(channel, frame, value),
        interleaved_vecs.spec_stored(channel, frame, value) == value,
        !interleaved_vecs.spec_clips(channel, frame, value),
        sequential_slices.spec_stored(channel, frame, value) == value,
        !sequential_slices.spec_clips(channel, frame, value),
        interleaved_owned.spec_stored(channel, frame, value) == value,
        !interleaved_owned.spec_clips(channel, frame, value),
        sequential_owned.spec_stored(channel, frame, value) == value,
        !sequential_owned.spec_clips(channel, frame, value),
{
}

} // verus!

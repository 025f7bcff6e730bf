//! Copying between an adapter and a plain slice in a known layout.
//!
//! `to_interleaved` and `to_sequential` copy from any adapter into a flat slice,
//! `from_interleaved` and `from_sequential` copy from a flat slice into any
//! mutable adapter. Each takes a `src_skip`, a `dst_skip` and a `take`, copies
//! `take` frames for all channels, and returns the number of samples clipped
//! during conversion, or `None`, copying nothing, if the requested region does
//! not fit in either the adapter or the slice. The slice holds
//! `slice.len() / channels` whole frames; a trailing partial frame is left unused.
use vstd::prelude::*;

use crate::direct::{lemma_grid_index, lemma_grid_index_unique};
use crate::traits::{count_true, saturated, sum_nat, Adapter, AdapterMut};

verus! {

/// The number of whole frames that a flat slice of `len` samples holds for
/// `channels` channels; zero for zero channels.
pub open spec fn whole_frames(len: int, channels: int) -> int {
    if channels <= 0 {
        0
    } else {
        len / channels
    }
}

/// The whole frames of a flat slice fit inside it.
pub proof fn lemma_whole_frames(len: int, channels: int)
    requires
        0 <= len,
        0 <= channels,
    ensures
        0 <= whole_frames(len, channels),
        whole_frames(len, channels) * channels <= len,
        channels * whole_frames(len, channels) <= len,
{
    if channels > 0 {
        vstd::arithmetic::div_mod::lemma_fundamental_div_mod(len, channels);
        vstd::arithmetic::div_mod::lemma_mod_pos_bound(len, channels);
        vstd::arithmetic::div_mod::lemma_div_pos_is_pos(len, channels);
        assert(whole_frames(len, channels) * channels == channels * whole_frames(len, channels)) by (nonlinear_arith);
    }
}

/// Number of whole frames a flat slice of `len` samples holds for `channels`
/// channels. Zero channels yields zero frames rather than dividing by zero.
fn slice_frames(len: usize, channels: usize) -> (frames: usize)
    ensures
        frames == whole_frames(len as int, channels as int),
{
    if channels == 0 {
        0
    } else {
        len / channels
    }
}

/// Copy `take` frames from `src` into `out`, laid out interleaved.
///
/// `src_skip` and `dst_skip` are the starting frames in the adapter and the
/// slice. Returns the number of samples clipped during conversion, which is zero
/// since the slice stores values unchanged, or `None` if the region does not fit
/// in either side.
pub fn to_interleaved<T: Copy, A: Adapter<T> + ?Sized>(
    src: &A,
    out: &mut [T],
    src_skip: usize,
    dst_skip: usize,
    take: usize,
) -> (clipped: Option<usize>)
    requires
        src.wf(),
    ensures
        final(out)@.len() == old(out)@.len(),
        clipped is Some <==> (dst_skip + take <= whole_frames(old(out)@.len() as int, src.spec_channels() as int) && src_skip + take <= src.spec_frames()),
        clipped is Some ==> clipped == Some(0usize),
        clipped is None ==> final(out)@ == old(out)@,
        clipped is Some ==> forall|c: int, f: int|
            0 <= c < src.spec_channels() && dst_skip <= f < dst_skip + take ==> #[trigger] final(out)@[(f) * src.spec_channels() + c]
                == src.spec_sample(c, f - dst_skip + src_skip),
        forall|c: int, f: int|
            0 <= c < src.spec_channels() && 0 <= f < whole_frames(old(out)@.len() as int, src.spec_channels() as int) && !(dst_skip <= f < dst_skip + take)
                ==> #[trigger] final(out)@[(f) * src.spec_channels() + c] == old(out)@[(f) * src.spec_channels() + c],
        forall|i: int|
            whole_frames(old(out)@.len() as int, src.spec_channels() as int) * src.spec_channels() <= i < old(out)@.len() ==> #[trigger] final(out)@[i] == old(out)@[i],
{
    let channels = src.channels();
    let frames = slice_frames(out.len(), channels);
    proof {
        lemma_whole_frames(old(out)@.len() as int, channels as int);
    }
    if take > frames || dst_skip > frames - take || take > src.frames() || src_skip > src.frames() - take {
        return None;
    }
    let mut channel: usize = 0;
    while channel < channels
        invariant
            src.wf(),
                channels == src.spec_channels(),
                frames == whole_frames(old(out)@.len() as int, channels as int),
                frames * channels <= old(out)@.len(),
                channels * frames <= old(out)@.len(),
                dst_skip + take <= frames,
                src_skip + take <= src.spec_frames() <= usize::MAX,
                out@.len() == old(out)@.len(),
                old(out)@.len() <= usize::MAX,
            channel <= channels,
            forall|c: int, f: int|
                0 <= c < channels && 0 <= f < frames ==> #[trigger] out@[(f) * channels + c] == if c < channel && dst_skip <= f < dst_skip + take {
                    src.spec_sample(c, f - dst_skip + src_skip)
                } else {
                    old(out)@[(f) * channels + c]
                },
            forall|i: int| frames * channels <= i < old(out)@.len() ==> #[trigger] out@[i] == old(out)@[i],
        decreases channels - channel,
    {
        let mut frame: usize = 0;
        while frame < take
            invariant
                src.wf(),
                channels == src.spec_channels(),
                frames == whole_frames(old(out)@.len() as int, channels as int),
                frames * channels <= old(out)@.len(),
                channels * frames <= old(out)@.len(),
                dst_skip + take <= frames,
                src_skip + take <= src.spec_frames() <= usize::MAX,
                out@.len() == old(out)@.len(),
                old(out)@.len() <= usize::MAX,
                channel < channels,
                frame <= take,
                forall|c: int, f: int|
                    0 <= c < channels && 0 <= f < frames ==> #[trigger] out@[(f) * channels + c] == if (c < channel && dst_skip <= f < dst_skip + take) || (c == channel && dst_skip <= f < dst_skip + frame) {
                        src.spec_sample(c, f - dst_skip + src_skip)
                    } else {
                        old(out)@[(f) * channels + c]
                    },
                forall|i: int| frames * channels <= i < old(out)@.len() ==> #[trigger] out@[i] == old(out)@[i],
            decreases take - frame,
        {
            proof {
                lemma_grid_index(channel as int, dst_skip + frame, channels as int, frames as int);
            }
            let value = src.read_sample_unchecked(channel, src_skip + frame);
            out[(dst_skip + frame) * channels + channel] = value;
            proof {
                assert forall|c: int, f: int|
                    0 <= c < channels && 0 <= f < frames implies #[trigger] out@[(f) * channels + c] == if (c < channel && dst_skip <= f < dst_skip + take) || (c == channel && dst_skip <= f < dst_skip + frame + 1) {
                        src.spec_sample(c, f - dst_skip + src_skip)
                    } else {
                        old(out)@[(f) * channels + c]
                    } by {
                    lemma_grid_index(c, f, channels as int, frames as int);
                    if (f) * channels + c == (dst_skip + frame) * channels + channel as int {
                        lemma_grid_index_unique(c, f, channel as int, dst_skip + frame, channels as int);
                    }
                }
            }
            frame += 1;
        }
        channel += 1;
    }
    Some(0)
}

/// Copy `take` frames from `src` into `out`, laid out sequential (channel by channel).
///
/// `src_skip` and `dst_skip` are the starting frames in the adapter and the
/// slice. Returns the number of samples clipped during conversion, which is zero
/// since the slice stores values unchanged, or `None` if the region does not fit
/// in either side.
pub fn to_sequential<T: Copy, A: Adapter<T> + ?Sized>(
    src: &A,
    out: &mut [T],
    src_skip: usize,
    dst_skip: usize,
    take: usize,
) -> (clipped: Option<usize>)
    requires
        src.wf(),
    ensures
        final(out)@.len() == old(out)@.len(),
        clipped is Some <==> (dst_skip + take <= whole_frames(old(out)@.len() as int, src.spec_channels() as int) && src_skip + take <= src.spec_frames()),
        clipped is Some ==> clipped == Some(0usize),
        clipped is None ==> final(out)@ == old(out)@,
        clipped is Some ==> forall|c: int, f: int|
            0 <= c < src.spec_channels() && dst_skip <= f < dst_skip + take ==> #[trigger] final(out)@[(c) * whole_frames(old(out)@.len() as int, src.spec_channels() as int) + f]
                == src.spec_sample(c, f - dst_skip + src_skip),
        forall|c: int, f: int|
            0 <= c < src.spec_channels() && 0 <= f < whole_frames(old(out)@.len() as int, src.spec_channels() as int) && !(dst_skip <= f < dst_skip + take)
                ==> #[trigger] final(out)@[(c) * whole_frames(old(out)@.len() as int, src.spec_channels() as int) + f] == old(out)@[(c) * whole_frames(old(out)@.len() as int, src.spec_channels() as int) + f],
        forall|i: int|
            whole_frames(old(out)@.len() as int, src.spec_channels() as int) * src.spec_channels() <= i < old(out)@.len() ==> #[trigger] final(out)@[i] == old(out)@[i],
{
    let channels = src.channels();
    let frames = slice_frames(out.len(), channels);
    proof {
        lemma_whole_frames(old(out)@.len() as int, channels as int);
    }
    if take > frames || dst_skip > frames - take || take > src.frames() || src_skip > src.frames() - take {
        return None;
    }
    let mut channel: usize = 0;
    while channel < channels
        invariant
            src.wf(),
                channels == src.spec_channels(),
                frames == whole_frames(old(out)@.len() as int, channels as int),
                frames * channels <= old(out)@.len(),
                channels * frames <= old(out)@.len(),
                dst_skip + take <= frames,
                src_skip + take <= src.spec_frames() <= usize::MAX,
                out@.len() == old(out)@.len(),
                old(out)@.len() <= usize::MAX,
            channel <= channels,
            forall|c: int, f: int|
                0 <= c < channels && 0 <= f < frames ==> #[trigger] out@[(c) * frames + f] == if c < channel && dst_skip <= f < dst_skip + take {
                    src.spec_sample(c, f - dst_skip + src_skip)
                } else {
                    old(out)@[(c) * frames + f]
                },
            forall|i: int| frames * channels <= i < old(out)@.len() ==> #[trigger] out@[i] == old(out)@[i],
        decreases channels - channel,
    {
        let mut frame: usize = 0;
        while frame < take
            invariant
                src.wf(),
                channels == src.spec_channels(),
                frames == whole_frames(old(out)@.len() as int, channels as int),
                frames * channels <= old(out)@.len(),
                channels * frames <= old(out)@.len(),
                dst_skip + take <= frames,
                src_skip + take <= src.spec_frames() <= usize::MAX,
                out@.len() == old(out)@.len(),
                old(out)@.len() <= usize::MAX,
                channel < channels,
                frame <= take,
                forall|c: int, f: int|
                    0 <= c < channels && 0 <= f < frames ==> #[trigger] out@[(c) * frames + f] == if (c < channel && dst_skip <= f < dst_skip + take) || (c == channel && dst_skip <= f < dst_skip + frame) {
                        src.spec_sample(c, f - dst_skip + src_skip)
                    } else {
                        old(out)@[(c) * frames + f]
                    },
                forall|i: int| frames * channels <= i < old(out)@.len() ==> #[trigger] out@[i] == old(out)@[i],
            decreases take - frame,
        {
            proof {
                lemma_grid_index(dst_skip + frame, channel as int, frames as int, channels as int);
            }
            let value = src.read_sample_unchecked(channel, src_skip + frame);
            out[(channel) * frames + dst_skip + frame] = value;
            proof {
                assert forall|c: int, f: int|
                    0 <= c < channels && 0 <= f < frames implies #[trigger] out@[(c) * frames + f] == if (c < channel && dst_skip <= f < dst_skip + take) || (c == channel && dst_skip <= f < dst_skip + frame + 1) {
                        src.spec_sample(c, f - dst_skip + src_skip)
                    } else {
                        old(out)@[(c) * frames + f]
                    } by {
                    lemma_grid_index(f, c, frames as int, channels as int);
                    if (c) * frames + f == (channel as int) * frames + dst_skip + frame {
                        lemma_grid_index_unique(f, c, dst_skip + frame, channel as int, frames as int);
                    }
                }
            }
            frame += 1;
        }
        channel += 1;
    }
    Some(0)
}

/// Copy `take` frames from the interleaved slice `input` into the adapter `dst`.
///
/// `src_skip` and `dst_skip` are the starting frames in the slice and the
/// adapter. Returns the number of samples clipped during conversion, saturated
/// at `usize::MAX`, or `None`, changing nothing, if the region does not fit in
/// either side.
pub fn from_interleaved<T: Copy, D: AdapterMut<T> + ?Sized>(
    input: &[T],
    dst: &mut D,
    src_skip: usize,
    dst_skip: usize,
    take: usize,
) -> (clipped: Option<usize>)
    requires
        old(dst).wf(),
    ensures
        final(dst).wf(),
        final(dst).spec_channels() == old(dst).spec_channels(),
        final(dst).spec_frames() == old(dst).spec_frames(),
        forall|c: int, f: int, v: T|
                #![trigger final(dst).spec_stored(c, f, v)]
                #![trigger old(dst).spec_stored(c, f, v)]
                final(dst).spec_stored(c, f, v) == old(dst).spec_stored(c, f, v),
            forall|c: int, f: int, v: T|
                #![trigger final(dst).spec_clips(c, f, v)]
                #![trigger old(dst).spec_clips(c, f, v)]
                final(dst).spec_clips(c, f, v) == old(dst).spec_clips(c, f, v),
        clipped is Some <==> (src_skip + take <= whole_frames(input@.len() as int, old(dst).spec_channels() as int) && dst_skip + take <= old(dst).spec_frames()),
        clipped is Some ==> clipped == Some(
            saturated(
                sum_nat(
                        old(dst).spec_channels() as int,
                        |c: int|
                            count_true(
                                take as int,
                                |j: int| old(dst).spec_clips(c, dst_skip + j, input@[(src_skip + j) * old(dst).spec_channels() + c]),
                            ),
                    ),
            ) as usize,
        ),
        clipped is Some ==> forall|c: int, f: int|
            0 <= c < old(dst).spec_channels() && dst_skip <= f < dst_skip + take ==> #[trigger] final(dst).spec_sample(c, f)
                == old(dst).spec_stored(c, f, input@[(src_skip + f - dst_skip) * old(dst).spec_channels() + c]),
        forall|c: int, f: int|
            #![trigger final(dst).spec_sample(c, f)]
            0 <= c < old(dst).spec_channels() && 0 <= f < old(dst).spec_frames() && !(clipped is Some && dst_skip <= f < dst_skip + take)
                ==> final(dst).spec_sample(c, f) == old(dst).spec_sample(c, f),
{
    let channels = dst.channels();
    let frames = slice_frames(input.len(), channels);
    proof {
        lemma_whole_frames(input@.len() as int, channels as int);
    }
    if take > frames || src_skip > frames - take || take > dst.frames() || dst_skip > dst.frames() - take {
        return None;
    }
    let mut clipped: usize = 0;
    let mut channel: usize = 0;
    while channel < channels
        invariant
            dst.wf(),
            channels == old(dst).spec_channels(),
            frames == whole_frames(input@.len() as int, channels as int),
            frames * channels <= input@.len(),
            channels * frames <= input@.len(),
            input@.len() <= usize::MAX,
            src_skip + take <= frames,
            dst_skip + take <= old(dst).spec_frames() <= usize::MAX,
            dst.spec_channels() == old(dst).spec_channels(),
            dst.spec_frames() == old(dst).spec_frames(),
            forall|c: int, f: int, v: T|
                #![trigger dst.spec_stored(c, f, v)]
                #![trigger old(dst).spec_stored(c, f, v)]
                dst.spec_stored(c, f, v) == old(dst).spec_stored(c, f, v),
            forall|c: int, f: int, v: T|
                #![trigger dst.spec_clips(c, f, v)]
                #![trigger old(dst).spec_clips(c, f, v)]
                dst.spec_clips(c, f, v) == old(dst).spec_clips(c, f, v),
            channel <= channels,
            clipped == saturated(
                sum_nat(
                        channel as int,
                        |c: int|
                            count_true(
                                take as int,
                                |j: int| old(dst).spec_clips(c, dst_skip + j, input@[(src_skip + j) * channels + c]),
                            ),
                    ),
            ),
            forall|c: int, f: int|
                0 <= c < channel && dst_skip <= f < dst_skip + take ==> #[trigger] dst.spec_sample(c, f)
                    == old(dst).spec_stored(c, f, input@[(src_skip + f - dst_skip) * channels + c]),
            forall|c: int, f: int|
                #![trigger dst.spec_sample(c, f)]
                0 <= c < channels && 0 <= f < old(dst).spec_frames() && !(c < channel && dst_skip <= f < dst_skip + take)
                    ==> dst.spec_sample(c, f) == old(dst).spec_sample(c, f),
        decreases channels - channel,
    {
        let mut frame: usize = 0;
        while frame < take
            invariant
                dst.wf(),
                channels == old(dst).spec_channels(),
                frames == whole_frames(input@.len() as int, channels as int),
                frames * channels <= input@.len(),
                channels * frames <= input@.len(),
                input@.len() <= usize::MAX,
                src_skip + take <= frames,
                dst_skip + take <= old(dst).spec_frames() <= usize::MAX,
                dst.spec_channels() == old(dst).spec_channels(),
                dst.spec_frames() == old(dst).spec_frames(),
                forall|c: int, f: int, v: T|
                    #![trigger dst.spec_stored(c, f, v)]
                    #![trigger old(dst).spec_stored(c, f, v)]
                    dst.spec_stored(c, f, v) == old(dst).spec_stored(c, f, v),
                forall|c: int, f: int, v: T|
                    #![trigger dst.spec_clips(c, f, v)]
                    #![trigger old(dst).spec_clips(c, f, v)]
                    dst.spec_clips(c, f, v) == old(dst).spec_clips(c, f, v),
                channel < channels,
                frame <= take,
                clipped == saturated(
                    sum_nat(
                            channel as int,
                            |c: int|
                                count_true(
                                    take as int,
                                    |j: int| old(dst).spec_clips(c, dst_skip + j, input@[(src_skip + j) * channels + c]),
                                ),
                        ) + count_true(
                        frame as int,
                        |j: int| old(dst).spec_clips(channel as int, dst_skip + j, input@[(src_skip + j) * channels + channel as int]),
                    ),
                ),
                forall|c: int, f: int|
                    ((0 <= c < channel && dst_skip <= f < dst_skip + take) || (c == channel
                        && dst_skip <= f < dst_skip + frame)) ==> #[trigger] dst.spec_sample(c, f)
                        == old(dst).spec_stored(c, f, input@[(src_skip + f - dst_skip) * channels + c]),
                forall|c: int, f: int|
                    #![trigger dst.spec_sample(c, f)]
                    0 <= c < channels && 0 <= f < old(dst).spec_frames() && !((c < channel && dst_skip <= f < dst_skip + take) || (c == channel && dst_skip <= f < dst_skip + frame))
                        ==> dst.spec_sample(c, f) == old(dst).spec_sample(c, f),
            decreases take - frame,
        {
            proof {
                lemma_grid_index(channel as int, src_skip + frame, channels as int, frames as int);
            }
            let c = dst.write_sample_unchecked(channel, dst_skip + frame, &input[(src_skip + frame) * channels + channel]);
            if c && clipped < usize::MAX {
                clipped += 1;
            }
            frame += 1;
        }
        channel += 1;
    }
    Some(clipped)
}

/// Copy `take` frames from the sequential (channel by channel) slice `input` into the adapter `dst`.
///
/// `src_skip` and `dst_skip` are the starting frames in the slice and the
/// adapter. Returns the number of samples clipped during conversion, saturated
/// at `usize::MAX`, or `None`, changing nothing, if the region does not fit in
/// either side.
pub fn from_sequential<T: Copy, D: AdapterMut<T> + ?Sized>(
    input: &[T],
    dst: &mut D,
    src_skip: usize,
    dst_skip: usize,
    take: usize,
) -> (clipped: Option<usize>)
    requires
        old(dst).wf(),
    ensures
        final(dst).wf(),
        final(dst).spec_channels() == old(dst).spec_channels(),
        final(dst).spec_frames() == old(dst).spec_frames(),
        forall|c: int, f: int, v: T|
                #![trigger final(dst).spec_stored(c, f, v)]
                #![trigger old(dst).spec_stored(c, f, v)]
                final(dst).spec_stored(c, f, v) == old(dst).spec_stored(c, f, v),
            forall|c: int, f: int, v: T|
                #![trigger final(dst).spec_clips(c, f, v)]
                #![trigger old(dst).spec_clips(c, f, v)]
                final(dst).spec_clips(c, f, v) == old(dst).spec_clips(c, f, v),
        clipped is Some <==> (src_skip + take <= whole_frames(input@.len() as int, old(dst).spec_channels() as int) && dst_skip + take <= old(dst).spec_frames()),
        clipped is Some ==> clipped == Some(
            saturated(
                sum_nat(
                        old(dst).spec_channels() as int,
                        |c: int|
                            count_true(
                                take as int,
                                |j: int| old(dst).spec_clips(c, dst_skip + j, input@[(c) * whole_frames(input@.len() as int, old(dst).spec_channels() as int) + src_skip + j]),
                            ),
                    ),
            ) as usize,
        ),
        clipped is Some ==> forall|c: int, f: int|
            0 <= c < old(dst).spec_channels() && dst_skip <= f < dst_skip + take ==> #[trigger] final(dst).spec_sample(c, f)
                == old(dst).spec_stored(c, f, input@[(c) * whole_frames(input@.len() as int, old(dst).spec_channels() as int) + src_skip + f - dst_skip]),
        forall|c: int, f: int|
            #![trigger final(dst).spec_sample(c, f)]
            0 <= c < old(dst).spec_channels() && 0 <= f < old(dst).spec_frames() && !(clipped is Some && dst_skip <= f < dst_skip + take)
                ==> final(dst).spec_sample(c, f) == old(dst).spec_sample(c, f),
{
    let channels = dst.channels();
    let frames = slice_frames(input.len(), channels);
    proof {
        lemma_whole_frames(input@.len() as int, channels as int);
    }
    if take > frames || src_skip > frames - take || take > dst.frames() || dst_skip > dst.frames() - take {
        return None;
    }
    let mut clipped: usize = 0;
    let mut channel: usize = 0;
    while channel < channels
        invariant
            dst.wf(),
            channels == old(dst).spec_channels(),
            frames == whole_frames(input@.len() as int, channels as int),
            frames * channels <= input@.len(),
            channels * frames <= input@.len(),
            input@.len() <= usize::MAX,
            src_skip + take <= frames,
            dst_skip + take <= old(dst).spec_frames() <= usize::MAX,
            dst.spec_channels() == old(dst).spec_channels(),
            dst.spec_frames() == old(dst).spec_frames(),
            forall|c: int, f: int, v: T|
                #![trigger dst.spec_stored(c, f, v)]
                #![trigger old(dst).spec_stored(c, f, v)]
                dst.spec_stored(c, f, v) == old(dst).spec_stored(c, f, v),
            forall|c: int, f: int, v: T|
                #![trigger dst.spec_clips(c, f, v)]
                #![trigger old(dst).spec_clips(c, f, v)]
                dst.spec_clips(c, f, v) == old(dst).spec_clips(c, f, v),
            channel <= channels,
            clipped == saturated(
                sum_nat(
                        channel as int,
                        |c: int|
                            count_true(
                                take as int,
                                |j: int| old(dst).spec_clips(c, dst_skip + j, input@[(c) * frames + src_skip + j]),
                            ),
                    ),
            ),
            forall|c: int, f: int|
                0 <= c < channel && dst_skip <= f < dst_skip + take ==> #[trigger] dst.spec_sample(c, f)
                    == old(dst).spec_stored(c, f, input@[(c) * frames + src_skip + f - dst_skip]),
            forall|c: int, f: int|
                #![trigger dst.spec_sample(c, f)]
                0 <= c < channels && 0 <= f < old(dst).spec_frames() && !(c < channel && dst_skip <= f < dst_skip + take)
                    ==> dst.spec_sample(c, f) == old(dst).spec_sample(c, f),
        decreases channels - channel,
    {
        let mut frame: usize = 0;
        while frame < take
            invariant
                dst.wf(),
                channels == old(dst).spec_channels(),
                frames == whole_frames(input@.len() as int, channels as int),
                frames * channels <= input@.len(),
                channels * frames <= input@.len(),
                input@.len() <= usize::MAX,
                src_skip + take <= frames,
                dst_skip + take <= old(dst).spec_frames() <= usize::MAX,
                dst.spec_channels() == old(dst).spec_channels(),
                dst.spec_frames() == old(dst).spec_frames(),
                forall|c: int, f: int, v: T|
                    #![trigger dst.spec_stored(c, f, v)]
                    #![trigger old(dst).spec_stored(c, f, v)]
                    dst.spec_stored(c, f, v) == old(dst).spec_stored(c, f, v),
                forall|c: int, f: int, v: T|
                    #![trigger dst.spec_clips(c, f, v)]
                    #![trigger old(dst).spec_clips(c, f, v)]
                    dst.spec_clips(c, f, v) == old(dst).spec_clips(c, f, v),
                channel < channels,
                frame <= take,
                clipped == saturated(
                    sum_nat(
                            channel as int,
                            |c: int|
                                count_true(
                                    take as int,
                                    |j: int| old(dst).spec_clips(c, dst_skip + j, input@[(c) * frames + src_skip + j]),
                                ),
                        ) + count_true(
                        frame as int,
                        |j: int| old(dst).spec_clips(channel as int, dst_skip + j, input@[(channel as int) * frames + src_skip + j]),
                    ),
                ),
                forall|c: int, f: int|
                    ((0 <= c < channel && dst_skip <= f < dst_skip + take) || (c == channel
                        && dst_skip <= f < dst_skip + frame)) ==> #[trigger] dst.spec_sample(c, f)
                        == old(dst).spec_stored(c, f, input@[(c) * frames + src_skip + f - dst_skip]),
                forall|c: int, f: int|
                    #![trigger dst.spec_sample(c, f)]
                    0 <= c < channels && 0 <= f < old(dst).spec_frames() && !((c < channel && dst_skip <= f < dst_skip + take) || (c == channel && dst_skip <= f < dst_skip + frame))
                        ==> dst.spec_sample(c, f) == old(dst).spec_sample(c, f),
            decreases take - frame,
        {
            proof {
                lemma_grid_index(src_skip + frame, channel as int, frames as int, channels as int);
            }
            let c = dst.write_sample_unchecked(channel, dst_skip + frame, &input[(channel) * frames + src_skip + frame]);
            if c && clipped < usize::MAX {
                clipped += 1;
            }
            frame += 1;
        }
        channel += 1;
    }
    Some(clipped)
}

} // verus!

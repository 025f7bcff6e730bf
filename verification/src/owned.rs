//! Wrappers that own the sample data, stored in a vector.
//!
//! Wrappers are available for vectors, `Vec<T>`,
//! with samples stored in _interleaved_ and _sequential_ order.
use vstd::prelude::*;

use crate::direct::{lemma_grid_index, lemma_grid_index_unique, lemma_grid_rows};
use crate::slicetools::copy_within_slice;
use crate::traits::{count_true, saturated, sum_nat, Adapter, AdapterMut};
use crate::{check_total, saturating, SizeError};

verus! {

/// Wrapper for a vector of length `frames * channels`, owning the samples.
/// The samples are stored in _interleaved_ order,
/// where all the samples for one frame are stored consecutively,
/// followed by the samples for the next frame.
/// For a stereo buffer containing four frames, the order is
/// `L1, R1, L2, R2, L3, R3, L4, R4`
pub struct InterleavedOwned<U> {
    buf: Vec<U>,
    frames: usize,
    channels: usize,
}

impl<U> InterleavedOwned<U> {
    fn calc_index(&self, channel: usize, frame: usize) -> (index: usize)
        requires
            channel < self.channels,
            frame < self.frames,
            self.frames * self.channels <= usize::MAX,
        ensures
            index == frame * self.channels + channel,
            index < self.frames * self.channels,
    {
        proof {
            lemma_grid_index(channel as int, frame as int, self.channels as int, self.frames as int);
        }
        frame * self.channels + channel
    }
}

impl<T: Copy> InterleavedOwned<T> {
    /// The samples held, in storage order.
    pub closed spec fn spec_data(&self) -> Seq<T> {
        self.buf@
    }

    /// Create a new `InterleavedOwned` by allocating a new vector filled with `value`.
    pub fn new(value: T, channels: usize, frames: usize) -> (r: Self)
        requires
            channels * frames <= usize::MAX,
        ensures
            r.wf(),
            r.spec_channels() == channels,
            r.spec_frames() == frames,
            r.spec_data() == Seq::new((channels * frames) as nat, |i: int| value),
            forall|c: int, f: int|
                0 <= c < channels && 0 <= f < frames ==> #[trigger] r.spec_sample(c, f) == value,
    {
        let len = channels * frames;
        let mut buf: Vec<T> = Vec::with_capacity(len);
        let mut i: usize = 0;
        while i < len
            invariant
                i <= len,
                buf@ == Seq::new(i as nat, |k: int| value),
            decreases len - i,
        {
            buf.push(value);
            i += 1;
        }
        let r = Self { buf, frames, channels };
        proof {
            assert(frames * channels == channels * frames) by (nonlinear_arith);
            assert forall|c: int, f: int|
                0 <= c < channels && 0 <= f < frames implies #[trigger] r.spec_sample(c, f) == value by {
                lemma_grid_index(c, f, channels as int, frames as int);
            }
        }
        r
    }

    /// Create a new `InterleavedOwned` by taking ownership of an existing vector.
    /// The vector length must be at least `frames*channels`.
    /// It is allowed to be longer than needed,
    /// but these extra values cannot be accessed via the trait methods.
    pub fn new_from(buf: Vec<T>, channels: usize, frames: usize) -> (r: Result<Self, SizeError>)
        ensures
            r is Ok <==> channels * frames <= buf@.len(),
            r is Err ==> r == Err::<Self, SizeError>(
                SizeError::Total { actual: buf@.len() as usize, required: saturating(channels * frames) },
            ),
            r matches Ok(w) ==> {
                &&& w.wf()
                &&& w.spec_channels() == channels
                &&& w.spec_frames() == frames
                &&& w.spec_data() == buf@
                &&& forall|c: int, f: int|
                    0 <= c < channels && 0 <= f < frames ==> #[trigger] w.spec_sample(c, f)
                        == buf@[f * channels + c]
            },
    {
        match check_total(buf.len(), channels, frames, 1) {
            Ok(()) => {
                proof {
                    assert(channels * frames * 1 == frames * channels) by (nonlinear_arith);
                }
                Ok(Self { buf, frames, channels })
            },
            Err(e) => {
                proof {
                    assert(channels * frames * 1 == channels * frames) by (nonlinear_arith);
                }
                Err(e)
            },
        }
    }

    /// Take ownership of the data from the `InterleavedOwned`.
    pub fn take_data(self) -> (data: Vec<T>)
        ensures
            data@ == self.spec_data(),
    {
        self.buf
    }
}

impl<T: Copy> Adapter<T> for InterleavedOwned<T> {
    closed spec fn wf(&self) -> bool {
        self.frames * self.channels <= self.buf@.len() <= usize::MAX
    }

    closed spec fn spec_channels(&self) -> nat {
        self.channels as nat
    }

    closed spec fn spec_frames(&self) -> nat {
        self.frames as nat
    }

    closed spec fn spec_sample(&self, channel: int, frame: int) -> T {
        self.buf@[frame * self.channels + channel]
    }

    fn read_sample_unchecked(&self, channel: usize, frame: usize) -> (value: T) {
        let index = self.calc_index(channel, frame);
        self.buf[index]
    }

    fn channels(&self) -> (n: usize) {
        self.channels
    }

    fn frames(&self) -> (n: usize) {
        self.frames
    }
}
impl<T: Copy> AdapterMut<T> for InterleavedOwned<T> {
    open spec fn spec_stored(&self, channel: int, frame: int, value: T) -> T {
        value
    }

    open spec fn spec_clips(&self, channel: int, frame: int, value: T) -> bool {
        false
    }

    fn write_sample_unchecked(&mut self, channel: usize, frame: usize, value: &T) -> (clipped:
        bool)
        ensures
            final(self).spec_data().len() == old(self).spec_data().len(),
            forall|i: int|
                old(self).spec_frames() * old(self).spec_channels() <= i < old(self).spec_data().len() ==> #[trigger] final(self).spec_data()[i]
                    == old(self).spec_data()[i],
    {
        let index = self.calc_index(channel, frame);
        self.buf[index] = *value;
        proof {
            assert forall|c: int, f: int|
                0 <= c < self.channels && 0 <= f < self.frames && !(c == channel && f == frame)
                    implies #[trigger] self.spec_sample(c, f) == old(self).spec_sample(c, f) by {
                lemma_grid_index(c, f, self.channels as int, self.frames as int);
                lemma_grid_index(f, c, self.frames as int, self.channels as int);
                if f * self.channels + c == index {
                    lemma_grid_index_unique(c, f, channel as int, frame as int, self.channels as int);
                }
            }
        }
        false
    }

    fn copy_frames_within(&mut self, src: usize, dest: usize, count: usize) -> (moved: Option<
        usize,
    >)
        ensures
            final(self).spec_data().len() == old(self).spec_data().len(),
            forall|i: int|
                old(self).spec_frames() * old(self).spec_channels() <= i < old(self).spec_data().len() ==> #[trigger] final(self).spec_data()[i]
                    == old(self).spec_data()[i],
    {
        if count > self.frames || src > self.frames - count || dest > self.frames - count {
            return None;
        }
        proof {
            assert((src + count) * self.channels <= self.frames * self.channels) by (nonlinear_arith)
                requires
                    src + count <= self.frames,
            ;
            assert((dest + count) * self.channels <= self.frames * self.channels) by (nonlinear_arith)
                requires
                    dest + count <= self.frames,
            ;
            assert((src + count) * self.channels == src * self.channels + count * self.channels)
                by (nonlinear_arith);
            assert((dest + count) * self.channels == dest * self.channels + count * self.channels)
                by (nonlinear_arith);
        }
        copy_within_slice(
            self.buf.as_mut_slice(),
            src * self.channels,
            dest * self.channels,
            count * self.channels,
        );
        proof {
            assert forall|c: int, f: int|
                0 <= c < self.channels && 0 <= f < self.frames implies #[trigger] self.spec_sample(c, f)
                    == (if src != dest && dest <= f < dest + count {
                    old(self).spec_sample(c, f - dest + src)
                } else {
                    old(self).spec_sample(c, f)
                }) by {
                lemma_grid_index(c, f, self.channels as int, self.frames as int);
                lemma_grid_rows(c, f, self.channels as int, dest as int, count as int, src as int);
                if dest <= f < dest + count {
                    lemma_grid_index(c, f - dest + src, self.channels as int, self.frames as int);
                }
            }
        }
        Some(count)
    }

    fn write_sample(&mut self, channel: usize, frame: usize, value: &T) -> (clipped: Option<bool>)
        ensures
            final(self).spec_data().len() == old(self).spec_data().len(),
            forall|i: int|
                old(self).spec_frames() * old(self).spec_channels() <= i < old(self).spec_data().len() ==> #[trigger] final(self).spec_data()[i]
                    == old(self).spec_data()[i],
    {
        if channel >= self.channels() || frame >= self.frames() {
            return None;
        }
        Some(self.write_sample_unchecked(channel, frame, value))
    }

    fn copy_from_slice_to_channel(&mut self, channel: usize, skip: usize, slice: &[T]) -> (r: (
        usize,
        usize,
    ))
        ensures
            final(self).spec_data().len() == old(self).spec_data().len(),
            forall|i: int|
                old(self).spec_frames() * old(self).spec_channels() <= i < old(self).spec_data().len() ==> #[trigger] final(self).spec_data()[i]
                    == old(self).spec_data()[i],
    {
        if channel >= self.channels() || skip >= self.frames() {
            return (0, 0);
        }
        let n = if self.frames() - skip < slice.len() {
            self.frames() - skip
        } else {
            slice.len()
        };
        let mut clipped: usize = 0;
        let mut i: usize = 0;
        while i < n
            invariant
                self.spec_data().len() == old(self).spec_data().len(),
                forall|i: int| old(self).spec_frames() * old(self).spec_channels() <= i < old(self).spec_data().len() ==> #[trigger] self.spec_data()[i] == old(self).spec_data()[i],
                self.wf(),
                channel < old(self).spec_channels(),
                skip + n <= old(self).spec_frames() <= usize::MAX,
                n <= slice@.len(),
                i <= n,
                clipped <= i,
                self.spec_channels() == old(self).spec_channels(),
                self.spec_frames() == old(self).spec_frames(),
                forall|c: int, f: int, v: T|
                    #![trigger self.spec_stored(c, f, v)]
                    #![trigger old(self).spec_stored(c, f, v)]
                    self.spec_stored(c, f, v) == old(self).spec_stored(c, f, v),
                forall|c: int, f: int, v: T|
                    #![trigger self.spec_clips(c, f, v)]
                    #![trigger old(self).spec_clips(c, f, v)]
                    self.spec_clips(c, f, v) == old(self).spec_clips(c, f, v),
                forall|j: int|
                    0 <= j < i ==> #[trigger] self.spec_sample(channel as int, skip + j) == old(self).spec_stored(
                        channel as int, skip + j,
                        slice@[j],
                    ),
                forall|c: int, f: int|
                    #![trigger self.spec_sample(c, f)]
                    0 <= c < old(self).spec_channels() && 0 <= f < old(self).spec_frames() && !(c == channel && skip <= f < skip + i)
                        ==> self.spec_sample(c, f) == old(self).spec_sample(c, f),
                clipped == count_true(i as int, |j: int| old(self).spec_clips(channel as int, skip + j, slice@[j])),
            decreases n - i,
        {
            let value = slice[i];
            let c = self.write_sample_unchecked(channel, skip + i, &value);
            if c {
                clipped += 1;
            }
            i += 1;
        }
        (n, clipped)
    }

    fn copy_from_slice_to_frame(&mut self, frame: usize, skip: usize, slice: &[T]) -> (r: (
        usize,
        usize,
    ))
        ensures
            final(self).spec_data().len() == old(self).spec_data().len(),
            forall|i: int|
                old(self).spec_frames() * old(self).spec_channels() <= i < old(self).spec_data().len() ==> #[trigger] final(self).spec_data()[i]
                    == old(self).spec_data()[i],
    {
        if frame >= self.frames() || skip >= self.channels() {
            return (0, 0);
        }
        let n = if self.channels() - skip < slice.len() {
            self.channels() - skip
        } else {
            slice.len()
        };
        let mut clipped: usize = 0;
        let mut i: usize = 0;
        while i < n
            invariant
                self.spec_data().len() == old(self).spec_data().len(),
                forall|i: int| old(self).spec_frames() * old(self).spec_channels() <= i < old(self).spec_data().len() ==> #[trigger] self.spec_data()[i] == old(self).spec_data()[i],
                self.wf(),
                frame < old(self).spec_frames(),
                skip + n <= old(self).spec_channels() <= usize::MAX,
                n <= slice@.len(),
                i <= n,
                clipped <= i,
                self.spec_channels() == old(self).spec_channels(),
                self.spec_frames() == old(self).spec_frames(),
                forall|c: int, f: int, v: T|
                    #![trigger self.spec_stored(c, f, v)]
                    #![trigger old(self).spec_stored(c, f, v)]
                    self.spec_stored(c, f, v) == old(self).spec_stored(c, f, v),
                forall|c: int, f: int, v: T|
                    #![trigger self.spec_clips(c, f, v)]
                    #![trigger old(self).spec_clips(c, f, v)]
                    self.spec_clips(c, f, v) == old(self).spec_clips(c, f, v),
                forall|j: int|
                    0 <= j < i ==> #[trigger] self.spec_sample(skip + j, frame as int) == old(self).spec_stored(
                        skip + j, frame as int,
                        slice@[j],
                    ),
                forall|c: int, f: int|
                    #![trigger self.spec_sample(c, f)]
                    0 <= c < old(self).spec_channels() && 0 <= f < old(self).spec_frames() && !(f == frame && skip <= c < skip + i)
                        ==> self.spec_sample(c, f) == old(self).spec_sample(c, f),
                clipped == count_true(i as int, |j: int| old(self).spec_clips(skip + j, frame as int, slice@[j])),
            decreases n - i,
        {
            let value = slice[i];
            let c = self.write_sample_unchecked(skip + i, frame, &value);
            if c {
                clipped += 1;
            }
            i += 1;
        }
        (n, clipped)
    }

    fn copy_from_other_to_channel(
        &mut self,
        other: &dyn Adapter<T>,
        other_channel: usize,
        self_channel: usize,
        other_skip: usize,
        self_skip: usize,
        take: usize,
    ) -> (clipped: Option<usize>)
        ensures
            final(self).spec_data().len() == old(self).spec_data().len(),
            forall|i: int|
                old(self).spec_frames() * old(self).spec_channels() <= i < old(self).spec_data().len() ==> #[trigger] final(self).spec_data()[i]
                    == old(self).spec_data()[i],
    {
        if self_channel >= self.channels() || take > self.frames() || self_skip > self.frames()
            - take || other_channel >= other.channels() || take > other.frames() || other_skip
            > other.frames() - take {
            return None;
        }
        let mut clipped: usize = 0;
        let mut i: usize = 0;
        while i < take
            invariant
                self.spec_data().len() == old(self).spec_data().len(),
                forall|i: int| old(self).spec_frames() * old(self).spec_channels() <= i < old(self).spec_data().len() ==> #[trigger] self.spec_data()[i] == old(self).spec_data()[i],
                self.wf(),
                other.wf(),
                self_channel < old(self).spec_channels(),
                self_skip + take <= old(self).spec_frames() <= usize::MAX,
                other_channel < other.spec_channels(),
                other_skip + take <= other.spec_frames() <= usize::MAX,
                i <= take,
                clipped <= i,
                self.spec_channels() == old(self).spec_channels(),
                self.spec_frames() == old(self).spec_frames(),
                forall|c: int, f: int, v: T|
                    #![trigger self.spec_stored(c, f, v)]
                    #![trigger old(self).spec_stored(c, f, v)]
                    self.spec_stored(c, f, v) == old(self).spec_stored(c, f, v),
                forall|c: int, f: int, v: T|
                    #![trigger self.spec_clips(c, f, v)]
                    #![trigger old(self).spec_clips(c, f, v)]
                    self.spec_clips(c, f, v) == old(self).spec_clips(c, f, v),
                forall|j: int|
                    0 <= j < i ==> #[trigger] self.spec_sample(self_channel as int, self_skip + j)
                        == old(self).spec_stored(
                        self_channel as int,
                        self_skip + j,
                        other.spec_sample(other_channel as int, other_skip + j),
                    ),
                forall|c: int, f: int|
                    #![trigger self.spec_sample(c, f)]
                    0 <= c < old(self).spec_channels() && 0 <= f < old(self).spec_frames() && !(c == self_channel && self_skip <= f < self_skip + i)
                        ==> self.spec_sample(c, f) == old(self).spec_sample(c, f),
                clipped == count_true(
                    i as int,
                    |j: int|
                        old(self).spec_clips(
                            self_channel as int,
                            self_skip + j,
                            other.spec_sample(other_channel as int, other_skip + j),
                        ),
                ),
            decreases take - i,
        {
            let value = other.read_sample_unchecked(other_channel, other_skip + i);
            let c = self.write_sample_unchecked(self_channel, self_skip + i, &value);
            if c {
                clipped += 1;
            }
            i += 1;
        }
        Some(clipped)
    }

    fn fill_channel_with(&mut self, channel: usize, value: &T) -> (done: Option<()>)
        ensures
            final(self).spec_data().len() == old(self).spec_data().len(),
            forall|i: int|
                old(self).spec_frames() * old(self).spec_channels() <= i < old(self).spec_data().len() ==> #[trigger] final(self).spec_data()[i]
                    == old(self).spec_data()[i],
    {
        if channel >= self.channels() {
            return None;
        }
        let frames = self.frames();
        let mut frame: usize = 0;
        while frame < frames
            invariant
                self.spec_data().len() == old(self).spec_data().len(),
                forall|i: int| old(self).spec_frames() * old(self).spec_channels() <= i < old(self).spec_data().len() ==> #[trigger] self.spec_data()[i] == old(self).spec_data()[i],
                self.wf(),
                channel < old(self).spec_channels(),
                frames == old(self).spec_frames(),
                frame <= frames,
                self.spec_channels() == old(self).spec_channels(),
                self.spec_frames() == old(self).spec_frames(),
                forall|c: int, f: int, v: T|
                    #![trigger self.spec_stored(c, f, v)]
                    #![trigger old(self).spec_stored(c, f, v)]
                    self.spec_stored(c, f, v) == old(self).spec_stored(c, f, v),
                forall|c: int, f: int, v: T|
                    #![trigger self.spec_clips(c, f, v)]
                    #![trigger old(self).spec_clips(c, f, v)]
                    self.spec_clips(c, f, v) == old(self).spec_clips(c, f, v),
                forall|f: int|
                    0 <= f < frame ==> #[trigger] self.spec_sample(channel as int, f)
                        == old(self).spec_stored(channel as int, f, *value),
                forall|c: int, f: int|
                    #![trigger self.spec_sample(c, f)]
                    0 <= c < old(self).spec_channels() && 0 <= f < old(self).spec_frames() && !(c == channel && f < frame)
                        ==> self.spec_sample(c, f) == old(self).spec_sample(c, f),
            decreases frames - frame,
        {
            self.write_sample_unchecked(channel, frame, value);
            frame += 1;
        }
        Some(())
    }

    fn fill_frame_with(&mut self, frame: usize, value: &T) -> (done: Option<()>)
        ensures
            final(self).spec_data().len() == old(self).spec_data().len(),
            forall|i: int|
                old(self).spec_frames() * old(self).spec_channels() <= i < old(self).spec_data().len() ==> #[trigger] final(self).spec_data()[i]
                    == old(self).spec_data()[i],
    {
        if frame >= self.frames() {
            return None;
        }
        let channels = self.channels();
        let mut channel: usize = 0;
        while channel < channels
            invariant
                self.spec_data().len() == old(self).spec_data().len(),
                forall|i: int| old(self).spec_frames() * old(self).spec_channels() <= i < old(self).spec_data().len() ==> #[trigger] self.spec_data()[i] == old(self).spec_data()[i],
                self.wf(),
                frame < old(self).spec_frames(),
                channels == old(self).spec_channels(),
                channel <= channels,
                self.spec_channels() == old(self).spec_channels(),
                self.spec_frames() == old(self).spec_frames(),
                forall|c: int, f: int, v: T|
                    #![trigger self.spec_stored(c, f, v)]
                    #![trigger old(self).spec_stored(c, f, v)]
                    self.spec_stored(c, f, v) == old(self).spec_stored(c, f, v),
                forall|c: int, f: int, v: T|
                    #![trigger self.spec_clips(c, f, v)]
                    #![trigger old(self).spec_clips(c, f, v)]
                    self.spec_clips(c, f, v) == old(self).spec_clips(c, f, v),
                forall|c: int|
                    0 <= c < channel ==> #[trigger] self.spec_sample(c, frame as int)
                        == old(self).spec_stored(c, frame as int, *value),
                forall|c: int, f: int|
                    #![trigger self.spec_sample(c, f)]
                    0 <= c < old(self).spec_channels() && 0 <= f < old(self).spec_frames() && !(f == frame && c < channel)
                        ==> self.spec_sample(c, f) == old(self).spec_sample(c, f),
            decreases channels - channel,
        {
            self.write_sample_unchecked(channel, frame, value);
            channel += 1;
        }
        Some(())
    }

    fn fill_frames_with(&mut self, start: usize, count: usize, value: &T) -> (written: Option<
        usize,
    >)
        ensures
            final(self).spec_data().len() == old(self).spec_data().len(),
            forall|i: int|
                old(self).spec_frames() * old(self).spec_channels() <= i < old(self).spec_data().len() ==> #[trigger] final(self).spec_data()[i]
                    == old(self).spec_data()[i],
    {
        if count > self.frames() || start > self.frames() - count {
            return None;
        }
        let channels = self.channels();
        let mut channel: usize = 0;
        while channel < channels
            invariant
                self.spec_data().len() == old(self).spec_data().len(),
                forall|i: int| old(self).spec_frames() * old(self).spec_channels() <= i < old(self).spec_data().len() ==> #[trigger] self.spec_data()[i] == old(self).spec_data()[i],
                self.wf(),
                start + count <= old(self).spec_frames() <= usize::MAX,
                channels == old(self).spec_channels(),
                channel <= channels,
                self.spec_channels() == old(self).spec_channels(),
                self.spec_frames() == old(self).spec_frames(),
                forall|c: int, f: int, v: T|
                    #![trigger self.spec_stored(c, f, v)]
                    #![trigger old(self).spec_stored(c, f, v)]
                    self.spec_stored(c, f, v) == old(self).spec_stored(c, f, v),
                forall|c: int, f: int, v: T|
                    #![trigger self.spec_clips(c, f, v)]
                    #![trigger old(self).spec_clips(c, f, v)]
                    self.spec_clips(c, f, v) == old(self).spec_clips(c, f, v),
                forall|c: int, f: int|
                    0 <= c < channel && start <= f < start + count ==> #[trigger] self.spec_sample(c, f)
                        == old(self).spec_stored(c, f, *value),
                forall|c: int, f: int|
                    #![trigger self.spec_sample(c, f)]
                    0 <= c < old(self).spec_channels() && 0 <= f < old(self).spec_frames() && !(c < channel && start <= f < start + count)
                        ==> self.spec_sample(c, f) == old(self).spec_sample(c, f),
            decreases channels - channel,
        {
            let mut frame: usize = start;
            while frame < start + count
                invariant
                    self.spec_data().len() == old(self).spec_data().len(),
                    forall|i: int| old(self).spec_frames() * old(self).spec_channels() <= i < old(self).spec_data().len() ==> #[trigger] self.spec_data()[i] == old(self).spec_data()[i],
                    self.wf(),
                    start + count <= old(self).spec_frames() <= usize::MAX,
                    channels == old(self).spec_channels(),
                    channel < channels,
                    start <= frame <= start + count,
                    self.spec_channels() == old(self).spec_channels(),
                    self.spec_frames() == old(self).spec_frames(),
                    forall|c: int, f: int, v: T|
                        #![trigger self.spec_stored(c, f, v)]
                        #![trigger old(self).spec_stored(c, f, v)]
                        self.spec_stored(c, f, v) == old(self).spec_stored(c, f, v),
                    forall|c: int, f: int, v: T|
                        #![trigger self.spec_clips(c, f, v)]
                        #![trigger old(self).spec_clips(c, f, v)]
                        self.spec_clips(c, f, v) == old(self).spec_clips(c, f, v),
                    forall|c: int, f: int|
                        ((0 <= c < channel && start <= f < start + count) || (c == channel && start
                            <= f < frame)) ==> #[trigger] self.spec_sample(c, f)
                            == old(self).spec_stored(c, f, *value),
                    forall|c: int, f: int|
                        #![trigger self.spec_sample(c, f)]
                        0 <= c < old(self).spec_channels() && 0 <= f < old(self).spec_frames() && !((c < channel && start <= f < start + count) || (c == channel && start <= f < frame))
                            ==> self.spec_sample(c, f) == old(self).spec_sample(c, f),
                decreases start + count - frame,
            {
                self.write_sample_unchecked(channel, frame, value);
                frame += 1;
            }
            channel += 1;
        }
        Some(count)
    }

    fn fill_with(&mut self, value: &T)
        ensures
            final(self).spec_data().len() == old(self).spec_data().len(),
            forall|i: int|
                old(self).spec_frames() * old(self).spec_channels() <= i < old(self).spec_data().len() ==> #[trigger] final(self).spec_data()[i]
                    == old(self).spec_data()[i],
    {
        let channels = self.channels();
        let mut channel: usize = 0;
        while channel < channels
            invariant
                self.spec_data().len() == old(self).spec_data().len(),
                forall|i: int| old(self).spec_frames() * old(self).spec_channels() <= i < old(self).spec_data().len() ==> #[trigger] self.spec_data()[i] == old(self).spec_data()[i],
                self.wf(),
                channels == old(self).spec_channels(),
                channel <= channels,
                self.spec_channels() == old(self).spec_channels(),
                self.spec_frames() == old(self).spec_frames(),
                forall|c: int, f: int, v: T|
                    #![trigger self.spec_stored(c, f, v)]
                    #![trigger old(self).spec_stored(c, f, v)]
                    self.spec_stored(c, f, v) == old(self).spec_stored(c, f, v),
                forall|c: int, f: int, v: T|
                    #![trigger self.spec_clips(c, f, v)]
                    #![trigger old(self).spec_clips(c, f, v)]
                    self.spec_clips(c, f, v) == old(self).spec_clips(c, f, v),
                forall|c: int, f: int|
                    0 <= c < channel && 0 <= f < old(self).spec_frames() ==> #[trigger] self.spec_sample(c, f)
                        == old(self).spec_stored(c, f, *value),
            decreases channels - channel,
        {
            self.fill_channel_with(channel, value);
            channel += 1;
        }
    }

    fn copy_sample_within(
        &mut self,
        source_channel: usize,
        source_frame: usize,
        target_channel: usize,
        target_frame: usize,
    ) -> (copied: bool)
        ensures
            final(self).spec_data().len() == old(self).spec_data().len(),
            forall|i: int|
                old(self).spec_frames() * old(self).spec_channels() <= i < old(self).spec_data().len() ==> #[trigger] final(self).spec_data()[i]
                    == old(self).spec_data()[i],
            copied <==> (source_channel < old(self).spec_channels() && source_frame
                < old(self).spec_frames() && target_channel < old(self).spec_channels() && target_frame
                < old(self).spec_frames()),
    {
        if let Some(value) = self.read_sample(source_channel, source_frame) {
            if self.write_sample(target_channel, target_frame, &value).is_some() {
                return true;
            }
        }
        false
    }

    fn swap_samples(
        &mut self,
        channel_a: usize,
        frame_a: usize,
        channel_b: usize,
        frame_b: usize,
    ) -> (swapped: bool)
        ensures
            final(self).spec_data().len() == old(self).spec_data().len(),
            forall|i: int|
                old(self).spec_frames() * old(self).spec_channels() <= i < old(self).spec_data().len() ==> #[trigger] final(self).spec_data()[i]
                    == old(self).spec_data()[i],
            swapped <==> (channel_a < old(self).spec_channels() && frame_a < old(self).spec_frames()
                && channel_b < old(self).spec_channels() && frame_b < old(self).spec_frames()),
    {
        if let Some(value_a) = self.read_sample(channel_a, frame_a) {
            if let Some(value_b) = self.read_sample(channel_b, frame_b) {
                self.write_sample_unchecked(channel_b, frame_b, &value_a);
                self.write_sample_unchecked(channel_a, frame_a, &value_b);
                return true;
            }
        }
        false
    }

    fn copy_from_other(
        &mut self,
        other: &dyn Adapter<T>,
        other_skip: usize,
        self_skip: usize,
        take: usize,
    ) -> (clipped: Option<usize>)
        ensures
            final(self).spec_data().len() == old(self).spec_data().len(),
            forall|i: int|
                old(self).spec_frames() * old(self).spec_channels() <= i < old(self).spec_data().len() ==> #[trigger] final(self).spec_data()[i]
                    == old(self).spec_data()[i],
    {
        if other.channels() != self.channels() || take > self.frames() || self_skip > self.frames()
            - take || take > other.frames() || other_skip > other.frames() - take {
            return None;
        }
        let channels = self.channels();
        let mut clipped: usize = 0;
        let mut channel: usize = 0;
        while channel < channels
            invariant
                self.spec_data().len() == old(self).spec_data().len(),
                forall|i: int| old(self).spec_frames() * old(self).spec_channels() <= i < old(self).spec_data().len() ==> #[trigger] self.spec_data()[i] == old(self).spec_data()[i],
                self.wf(),
                other.wf(),
                channels == old(self).spec_channels(),
                other.spec_channels() == channels,
                self_skip + take <= old(self).spec_frames() <= usize::MAX,
                other_skip + take <= other.spec_frames() <= usize::MAX,
                channel <= channels,
                self.spec_channels() == old(self).spec_channels(),
                self.spec_frames() == old(self).spec_frames(),
                forall|c: int, f: int, v: T|
                    #![trigger self.spec_stored(c, f, v)]
                    #![trigger old(self).spec_stored(c, f, v)]
                    self.spec_stored(c, f, v) == old(self).spec_stored(c, f, v),
                forall|c: int, f: int, v: T|
                    #![trigger self.spec_clips(c, f, v)]
                    #![trigger old(self).spec_clips(c, f, v)]
                    self.spec_clips(c, f, v) == old(self).spec_clips(c, f, v),
                clipped == saturated(
                    sum_nat(
                        channel as int,
                        |c: int|
                            count_true(
                                take as int,
                                |j: int|
                                    old(self).spec_clips(c, self_skip + j, other.spec_sample(c, other_skip + j)),
                            ),
                    ),
                ),
                forall|c: int, f: int|
                    0 <= c < channel && self_skip <= f < self_skip + take ==> #[trigger] self.spec_sample(c, f)
                        == old(self).spec_stored(c, f, other.spec_sample(c, f - self_skip + other_skip)),
                forall|c: int, f: int|
                    #![trigger self.spec_sample(c, f)]
                    0 <= c < old(self).spec_channels() && 0 <= f < old(self).spec_frames() && !(c < channel && self_skip <= f < self_skip + take)
                        ==> self.spec_sample(c, f) == old(self).spec_sample(c, f),
            decreases channels - channel,
        {
            let ghost before = clipped;
            let mut frame: usize = 0;
            while frame < take
                invariant
                    self.spec_data().len() == old(self).spec_data().len(),
                    forall|i: int| old(self).spec_frames() * old(self).spec_channels() <= i < old(self).spec_data().len() ==> #[trigger] self.spec_data()[i] == old(self).spec_data()[i],
                    self.wf(),
                    other.wf(),
                    channels == old(self).spec_channels(),
                    other.spec_channels() == channels,
                    self_skip + take <= old(self).spec_frames() <= usize::MAX,
                    other_skip + take <= other.spec_frames() <= usize::MAX,
                    channel < channels,
                    frame <= take,
                    before == saturated(
                        sum_nat(
                            channel as int,
                            |c: int|
                                count_true(
                                    take as int,
                                    |j: int|
                                        old(self).spec_clips(c, self_skip + j, other.spec_sample(c, other_skip + j)),
                                ),
                        ),
                    ),
                    clipped == saturated(
                        sum_nat(
                            channel as int,
                            |c: int|
                                count_true(
                                    take as int,
                                    |j: int|
                                        old(self).spec_clips(c, self_skip + j, other.spec_sample(c, other_skip + j)),
                                ),
                        ) + count_true(
                            frame as int,
                            |j: int|
                                old(self).spec_clips(channel as int, self_skip + j, other.spec_sample(channel as int, other_skip + j)),
                        ),
                    ),
                    self.spec_channels() == old(self).spec_channels(),
                    self.spec_frames() == old(self).spec_frames(),
                    forall|c: int, f: int, v: T|
                        #![trigger self.spec_stored(c, f, v)]
                        #![trigger old(self).spec_stored(c, f, v)]
                        self.spec_stored(c, f, v) == old(self).spec_stored(c, f, v),
                    forall|c: int, f: int, v: T|
                        #![trigger self.spec_clips(c, f, v)]
                        #![trigger old(self).spec_clips(c, f, v)]
                        self.spec_clips(c, f, v) == old(self).spec_clips(c, f, v),
                    forall|c: int, f: int|
                        ((0 <= c < channel && self_skip <= f < self_skip + take) || (c == channel
                            && self_skip <= f < self_skip + frame)) ==> #[trigger] self.spec_sample(c, f)
                            == old(self).spec_stored(c, f, other.spec_sample(c, f - self_skip + other_skip)),
                    forall|c: int, f: int|
                        #![trigger self.spec_sample(c, f)]
                        0 <= c < old(self).spec_channels() && 0 <= f < old(self).spec_frames() && !((c < channel && self_skip <= f < self_skip + take) || (c == channel && self_skip <= f < self_skip + frame))
                            ==> self.spec_sample(c, f) == old(self).spec_sample(c, f),
                decreases take - frame,
            {
                let value = other.read_sample_unchecked(channel, frame + other_skip);
                let c = self.write_sample_unchecked(channel, frame + self_skip, &value);
                if c && clipped < usize::MAX {
                    clipped += 1;
                }
                frame += 1;
            }
            channel += 1;
        }
        Some(clipped)
    }
}

/// Wrapper for a vector of length `frames * channels`, owning the samples.
/// The samples are stored in _sequential_ order,
/// where all the samples for one channel are stored consecutively,
/// followed by the samples for the next channel.
/// For a stereo buffer containing four frames, the order is
/// `L1, L2, L3, L4, R1, R2, R3, R4`
pub struct SequentialOwned<U> {
    buf: Vec<U>,
    frames: usize,
    channels: usize,
}

impl<U> SequentialOwned<U> {
    fn calc_index(&self, channel: usize, frame: usize) -> (index: usize)
        requires
            channel < self.channels,
            frame < self.frames,
            self.frames * self.channels <= usize::MAX,
        ensures
            index == channel * self.frames + frame,
            index < self.frames * self.channels,
    {
        proof {
            lemma_grid_index(frame as int, channel as int, self.frames as int, self.channels as int);
        }
        channel * self.frames + frame
    }
}

impl<T: Copy> SequentialOwned<T> {
    /// The samples held, in storage order.
    pub closed spec fn spec_data(&self) -> Seq<T> {
        self.buf@
    }

    /// Create a new `SequentialOwned` by allocating a new vector filled with `value`.
    pub fn new(value: T, channels: usize, frames: usize) -> (r: Self)
        requires
            channels * frames <= usize::MAX,
        ensures
            r.wf(),
            r.spec_channels() == channels,
            r.spec_frames() == frames,
            r.spec_data() == Seq::new((channels * frames) as nat, |i: int| value),
            forall|c: int, f: int|
                0 <= c < channels && 0 <= f < frames ==> #[trigger] r.spec_sample(c, f) == value,
    {
        let len = channels * frames;
        let mut buf: Vec<T> = Vec::with_capacity(len);
        let mut i: usize = 0;
        while i < len
            invariant
                i <= len,
                buf@ == Seq::new(i as nat, |k: int| value),
            decreases len - i,
        {
            buf.push(value);
            i += 1;
        }
        let r = Self { buf, frames, channels };
        proof {
            assert(frames * channels == channels * frames) by (nonlinear_arith);
            assert forall|c: int, f: int|
                0 <= c < channels && 0 <= f < frames implies #[trigger] r.spec_sample(c, f) == value by {
                lemma_grid_index(f, c, frames as int, channels as int);
            }
        }
        r
    }

    /// Create a new `SequentialOwned` by taking ownership of an existing vector.
    /// The vector length must be at least `frames*channels`.
    /// It is allowed to be longer than needed,
    /// but these extra values cannot be accessed via the trait methods.
    pub fn new_from(buf: Vec<T>, channels: usize, frames: usize) -> (r: Result<Self, SizeError>)
        ensures
            r is Ok <==> channels * frames <= buf@.len(),
            r is Err ==> r == Err::<Self, SizeError>(
                SizeError::Total { actual: buf@.len() as usize, required: saturating(channels * frames) },
            ),
            r matches Ok(w) ==> {
                &&& w.wf()
                &&& w.spec_channels() == channels
                &&& w.spec_frames() == frames
                &&& w.spec_data() == buf@
                &&& forall|c: int, f: int|
                    0 <= c < channels && 0 <= f < frames ==> #[trigger] w.spec_sample(c, f)
                        == buf@[c * frames + f]
            },
    {
        match check_total(buf.len(), channels, frames, 1) {
            Ok(()) => {
                proof {
                    assert(channels * frames * 1 == frames * channels) by (nonlinear_arith);
                }
                Ok(Self { buf, frames, channels })
            },
            Err(e) => {
                proof {
                    assert(channels * frames * 1 == channels * frames) by (nonlinear_arith);
                }
                Err(e)
            },
        }
    }

    /// Take ownership of the data from the `SequentialOwned`.
    pub fn take_data(self) -> (data: Vec<T>)
        ensures
            data@ == self.spec_data(),
    {
        self.buf
    }
}

impl<T: Copy> Adapter<T> for SequentialOwned<T> {
    closed spec fn wf(&self) -> bool {
        self.frames * self.channels <= self.buf@.len() <= usize::MAX
    }

    closed spec fn spec_channels(&self) -> nat {
        self.channels as nat
    }

    closed spec fn spec_frames(&self) -> nat {
        self.frames as nat
    }

    closed spec fn spec_sample(&self, channel: int, frame: int) -> T {
        self.buf@[channel * self.frames + frame]
    }

    fn read_sample_unchecked(&self, channel: usize, frame: usize) -> (value: T) {
        let index = self.calc_index(channel, frame);
        self.buf[index]
    }

    fn channels(&self) -> (n: usize) {
        self.channels
    }

    fn frames(&self) -> (n: usize) {
        self.frames
    }
}
impl<T: Copy> AdapterMut<T> for SequentialOwned<T> {
    open spec fn spec_stored(&self, channel: int, frame: int, value: T) -> T {
        value
    }

    open spec fn spec_clips(&self, channel: int, frame: int, value: T) -> bool {
        false
    }

    fn write_sample_unchecked(&mut self, channel: usize, frame: usize, value: &T) -> (clipped:
        bool)
        ensures
            final(self).spec_data().len() == old(self).spec_data().len(),
            forall|i: int|
                old(self).spec_frames() * old(self).spec_channels() <= i < old(self).spec_data().len() ==> #[trigger] final(self).spec_data()[i]
                    == old(self).spec_data()[i],
    {
        let index = self.calc_index(channel, frame);
        self.buf[index] = *value;
        proof {
            assert forall|c: int, f: int|
                0 <= c < self.channels && 0 <= f < self.frames && !(c == channel && f == frame)
                    implies #[trigger] self.spec_sample(c, f) == old(self).spec_sample(c, f) by {
                lemma_grid_index(c, f, self.channels as int, self.frames as int);
                lemma_grid_index(f, c, self.frames as int, self.channels as int);
                if c * self.frames + f == index {
                    lemma_grid_index_unique(f, c, frame as int, channel as int, self.frames as int);
                }
            }
        }
        false
    }

    fn copy_frames_within(&mut self, src: usize, dest: usize, count: usize) -> (moved: Option<
        usize,
    >)
        ensures
            final(self).spec_data().len() == old(self).spec_data().len(),
            forall|i: int|
                old(self).spec_frames() * old(self).spec_channels() <= i < old(self).spec_data().len() ==> #[trigger] final(self).spec_data()[i]
                    == old(self).spec_data()[i],
    {
        if count > self.frames || src > self.frames - count || dest > self.frames - count {
            return None;
        }

        let mut channel: usize = 0;
        while channel < self.channels
            invariant
                self.spec_data().len() == old(self).spec_data().len(),
                forall|i: int| old(self).spec_frames() * old(self).spec_channels() <= i < old(self).spec_data().len() ==> #[trigger] self.spec_data()[i] == old(self).spec_data()[i],
                self.frames * self.channels <= self.buf@.len() <= usize::MAX,
                self.frames == old(self).frames,
                self.channels == old(self).channels,
                self.buf@.len() == old(self).buf@.len(),
                src + count <= self.frames,
                dest + count <= self.frames,
                channel <= self.channels,
                forall|c: int, f: int|
                    0 <= c < self.channels && 0 <= f < self.frames ==> #[trigger] self.spec_sample(c, f)
                        == (if c < channel && dest <= f < dest + count {
                        old(self).spec_sample(c, f - dest + src)
                    } else {
                        old(self).spec_sample(c, f)
                    }),
            decreases self.channels - channel,
        {
            proof {
                assert(channel * self.frames + self.frames <= self.channels * self.frames) by (nonlinear_arith)
                    requires
                        channel < self.channels,
                ;
                assert(0 <= channel * self.frames) by (nonlinear_arith);
                assert(self.channels * self.frames == self.frames * self.channels) by (nonlinear_arith);
            }
            let offset = channel * self.frames;
            let ghost before = *self;
            copy_within_slice(self.buf.as_mut_slice(), src + offset, dest + offset, count);
            proof {
                assert forall|c: int, f: int|
                    0 <= c < self.channels && 0 <= f < self.frames implies #[trigger] self.spec_sample(c, f)
                        == (if c < channel + 1 && dest <= f < dest + count {
                        old(self).spec_sample(c, f - dest + src)
                    } else {
                        old(self).spec_sample(c, f)
                    }) by {
                    lemma_grid_index(f, c, self.frames as int, self.channels as int);
                    assert(before.spec_sample(c, f) == before.buf@[c * self.frames + f]);
                    if c == channel && dest <= f < dest + count {
                        lemma_grid_index(f - dest + src, c, self.frames as int, self.channels as int);
                        assert(c * self.frames + f - (dest + offset) + (src + offset) == c * self.frames + (f - dest + src));
                        assert(self.buf@[c * self.frames + f] == before.buf@[c * self.frames + (f - dest + src)]);
                        assert(before.spec_sample(c, f - dest + src) == before.buf@[c * self.frames + (f - dest + src)]);
                    } else if c != channel {
                        if c < channel {
                            assert(c * self.frames + self.frames <= channel * self.frames) by (nonlinear_arith)
                                requires c + 1 <= channel;
                        } else {
                            assert(channel * self.frames + self.frames <= c * self.frames) by (nonlinear_arith)
                                requires channel + 1 <= c;
                        }
                        assert(self.buf@[c * self.frames + f] == before.buf@[c * self.frames + f]);
                    } else {
                        assert(self.buf@[c * self.frames + f] == before.buf@[c * self.frames + f]);
                    }
                }
            }
            channel += 1;
        }
        Some(count)
    }

    fn write_sample(&mut self, channel: usize, frame: usize, value: &T) -> (clipped: Option<bool>)
        ensures
            final(self).spec_data().len() == old(self).spec_data().len(),
            forall|i: int|
                old(self).spec_frames() * old(self).spec_channels() <= i < old(self).spec_data().len() ==> #[trigger] final(self).spec_data()[i]
                    == old(self).spec_data()[i],
    {
        if channel >= self.channels() || frame >= self.frames() {
            return None;
        }
        Some(self.write_sample_unchecked(channel, frame, value))
    }

    fn copy_from_slice_to_channel(&mut self, channel: usize, skip: usize, slice: &[T]) -> (r: (
        usize,
        usize,
    ))
        ensures
            final(self).spec_data().len() == old(self).spec_data().len(),
            forall|i: int|
                old(self).spec_frames() * old(self).spec_channels() <= i < old(self).spec_data().len() ==> #[trigger] final(self).spec_data()[i]
                    == old(self).spec_data()[i],
    {
        if channel >= self.channels() || skip >= self.frames() {
            return (0, 0);
        }
        let n = if self.frames() - skip < slice.len() {
            self.frames() - skip
        } else {
            slice.len()
        };
        let mut clipped: usize = 0;
        let mut i: usize = 0;
        while i < n
            invariant
                self.spec_data().len() == old(self).spec_data().len(),
                forall|i: int| old(self).spec_frames() * old(self).spec_channels() <= i < old(self).spec_data().len() ==> #[trigger] self.spec_data()[i] == old(self).spec_data()[i],
                self.wf(),
                channel < old(self).spec_channels(),
                skip + n <= old(self).spec_frames() <= usize::MAX,
                n <= slice@.len(),
                i <= n,
                clipped <= i,
                self.spec_channels() == old(self).spec_channels(),
                self.spec_frames() == old(self).spec_frames(),
                forall|c: int, f: int, v: T|
                    #![trigger self.spec_stored(c, f, v)]
                    #![trigger old(self).spec_stored(c, f, v)]
                    self.spec_stored(c, f, v) == old(self).spec_stored(c, f, v),
                forall|c: int, f: int, v: T|
                    #![trigger self.spec_clips(c, f, v)]
                    #![trigger old(self).spec_clips(c, f, v)]
                    self.spec_clips(c, f, v) == old(self).spec_clips(c, f, v),
                forall|j: int|
                    0 <= j < i ==> #[trigger] self.spec_sample(channel as int, skip + j) == old(self).spec_stored(
                        channel as int, skip + j,
                        slice@[j],
                    ),
                forall|c: int, f: int|
                    #![trigger self.spec_sample(c, f)]
                    0 <= c < old(self).spec_channels() && 0 <= f < old(self).spec_frames() && !(c == channel && skip <= f < skip + i)
                        ==> self.spec_sample(c, f) == old(self).spec_sample(c, f),
                clipped == count_true(i as int, |j: int| old(self).spec_clips(channel as int, skip + j, slice@[j])),
            decreases n - i,
        {
            let value = slice[i];
            let c = self.write_sample_unchecked(channel, skip + i, &value);
            if c {
                clipped += 1;
            }
            i += 1;
        }
        (n, clipped)
    }

    fn copy_from_slice_to_frame(&mut self, frame: usize, skip: usize, slice: &[T]) -> (r: (
        usize,
        usize,
    ))
        ensures
            final(self).spec_data().len() == old(self).spec_data().len(),
            forall|i: int|
                old(self).spec_frames() * old(self).spec_channels() <= i < old(self).spec_data().len() ==> #[trigger] final(self).spec_data()[i]
                    == old(self).spec_data()[i],
    {
        if frame >= self.frames() || skip >= self.channels() {
            return (0, 0);
        }
        let n = if self.channels() - skip < slice.len() {
            self.channels() - skip
        } else {
            slice.len()
        };
        let mut clipped: usize = 0;
        let mut i: usize = 0;
        while i < n
            invariant
                self.spec_data().len() == old(self).spec_data().len(),
                forall|i: int| old(self).spec_frames() * old(self).spec_channels() <= i < old(self).spec_data().len() ==> #[trigger] self.spec_data()[i] == old(self).spec_data()[i],
                self.wf(),
                frame < old(self).spec_frames(),
                skip + n <= old(self).spec_channels() <= usize::MAX,
                n <= slice@.len(),
                i <= n,
                clipped <= i,
                self.spec_channels() == old(self).spec_channels(),
                self.spec_frames() == old(self).spec_frames(),
                forall|c: int, f: int, v: T|
                    #![trigger self.spec_stored(c, f, v)]
                    #![trigger old(self).spec_stored(c, f, v)]
                    self.spec_stored(c, f, v) == old(self).spec_stored(c, f, v),
                forall|c: int, f: int, v: T|
                    #![trigger self.spec_clips(c, f, v)]
                    #![trigger old(self).spec_clips(c, f, v)]
                    self.spec_clips(c, f, v) == old(self).spec_clips(c, f, v),
                forall|j: int|
                    0 <= j < i ==> #[trigger] self.spec_sample(skip + j, frame as int) == old(self).spec_stored(
                        skip + j, frame as int,
                        slice@[j],
                    ),
                forall|c: int, f: int|
                    #![trigger self.spec_sample(c, f)]
                    0 <= c < old(self).spec_channels() && 0 <= f < old(self).spec_frames() && !(f == frame && skip <= c < skip + i)
                        ==> self.spec_sample(c, f) == old(self).spec_sample(c, f),
                clipped == count_true(i as int, |j: int| old(self).spec_clips(skip + j, frame as int, slice@[j])),
            decreases n - i,
        {
            let value = slice[i];
            let c = self.write_sample_unchecked(skip + i, frame, &value);
            if c {
                clipped += 1;
            }
            i += 1;
        }
        (n, clipped)
    }

    fn copy_from_other_to_channel(
        &mut self,
        other: &dyn Adapter<T>,
        other_channel: usize,
        self_channel: usize,
        other_skip: usize,
        self_skip: usize,
        take: usize,
    ) -> (clipped: Option<usize>)
        ensures
            final(self).spec_data().len() == old(self).spec_data().len(),
            forall|i: int|
                old(self).spec_frames() * old(self).spec_channels() <= i < old(self).spec_data().len() ==> #[trigger] final(self).spec_data()[i]
                    == old(self).spec_data()[i],
    {
        if self_channel >= self.channels() || take > self.frames() || self_skip > self.frames()
            - take || other_channel >= other.channels() || take > other.frames() || other_skip
            > other.frames() - take {
            return None;
        }
        let mut clipped: usize = 0;
        let mut i: usize = 0;
        while i < take
            invariant
                self.spec_data().len() == old(self).spec_data().len(),
                forall|i: int| old(self).spec_frames() * old(self).spec_channels() <= i < old(self).spec_data().len() ==> #[trigger] self.spec_data()[i] == old(self).spec_data()[i],
                self.wf(),
                other.wf(),
                self_channel < old(self).spec_channels(),
                self_skip + take <= old(self).spec_frames() <= usize::MAX,
                other_channel < other.spec_channels(),
                other_skip + take <= other.spec_frames() <= usize::MAX,
                i <= take,
                clipped <= i,
                self.spec_channels() == old(self).spec_channels(),
                self.spec_frames() == old(self).spec_frames(),
                forall|c: int, f: int, v: T|
                    #![trigger self.spec_stored(c, f, v)]
                    #![trigger old(self).spec_stored(c, f, v)]
                    self.spec_stored(c, f, v) == old(self).spec_stored(c, f, v),
                forall|c: int, f: int, v: T|
                    #![trigger self.spec_clips(c, f, v)]
                    #![trigger old(self).spec_clips(c, f, v)]
                    self.spec_clips(c, f, v) == old(self).spec_clips(c, f, v),
                forall|j: int|
                    0 <= j < i ==> #[trigger] self.spec_sample(self_channel as int, self_skip + j)
                        == old(self).spec_stored(
                        self_channel as int,
                        self_skip + j,
                        other.spec_sample(other_channel as int, other_skip + j),
                    ),
                forall|c: int, f: int|
                    #![trigger self.spec_sample(c, f)]
                    0 <= c < old(self).spec_channels() && 0 <= f < old(self).spec_frames() && !(c == self_channel && self_skip <= f < self_skip + i)
                        ==> self.spec_sample(c, f) == old(self).spec_sample(c, f),
                clipped == count_true(
                    i as int,
                    |j: int|
                        old(self).spec_clips(
                            self_channel as int,
                            self_skip + j,
                            other.spec_sample(other_channel as int, other_skip + j),
                        ),
                ),
            decreases take - i,
        {
            let value = other.read_sample_unchecked(other_channel, other_skip + i);
            let c = self.write_sample_unchecked(self_channel, self_skip + i, &value);
            if c {
                clipped += 1;
            }
            i += 1;
        }
        Some(clipped)
    }

    fn fill_channel_with(&mut self, channel: usize, value: &T) -> (done: Option<()>)
        ensures
            final(self).spec_data().len() == old(self).spec_data().len(),
            forall|i: int|
                old(self).spec_frames() * old(self).spec_channels() <= i < old(self).spec_data().len() ==> #[trigger] final(self).spec_data()[i]
                    == old(self).spec_data()[i],
    {
        if channel >= self.channels() {
            return None;
        }
        let frames = self.frames();
        let mut frame: usize = 0;
        while frame < frames
            invariant
                self.spec_data().len() == old(self).spec_data().len(),
                forall|i: int| old(self).spec_frames() * old(self).spec_channels() <= i < old(self).spec_data().len() ==> #[trigger] self.spec_data()[i] == old(self).spec_data()[i],
                self.wf(),
                channel < old(self).spec_channels(),
                frames == old(self).spec_frames(),
                frame <= frames,
                self.spec_channels() == old(self).spec_channels(),
                self.spec_frames() == old(self).spec_frames(),
                forall|c: int, f: int, v: T|
                    #![trigger self.spec_stored(c, f, v)]
                    #![trigger old(self).spec_stored(c, f, v)]
                    self.spec_stored(c, f, v) == old(self).spec_stored(c, f, v),
                forall|c: int, f: int, v: T|
                    #![trigger self.spec_clips(c, f, v)]
                    #![trigger old(self).spec_clips(c, f, v)]
                    self.spec_clips(c, f, v) == old(self).spec_clips(c, f, v),
                forall|f: int|
                    0 <= f < frame ==> #[trigger] self.spec_sample(channel as int, f)
                        == old(self).spec_stored(channel as int, f, *value),
                forall|c: int, f: int|
                    #![trigger self.spec_sample(c, f)]
                    0 <= c < old(self).spec_channels() && 0 <= f < old(self).spec_frames() && !(c == channel && f < frame)
                        ==> self.spec_sample(c, f) == old(self).spec_sample(c, f),
            decreases frames - frame,
        {
            self.write_sample_unchecked(channel, frame, value);
            frame += 1;
        }
        Some(())
    }

    fn fill_frame_with(&mut self, frame: usize, value: &T) -> (done: Option<()>)
        ensures
            final(self).spec_data().len() == old(self).spec_data().len(),
            forall|i: int|
                old(self).spec_frames() * old(self).spec_channels() <= i < old(self).spec_data().len() ==> #[trigger] final(self).spec_data()[i]
                    == old(self).spec_data()[i],
    {
        if frame >= self.frames() {
            return None;
        }
        let channels = self.channels();
        let mut channel: usize = 0;
        while channel < channels
            invariant
                self.spec_data().len() == old(self).spec_data().len(),
                forall|i: int| old(self).spec_frames() * old(self).spec_channels() <= i < old(self).spec_data().len() ==> #[trigger] self.spec_data()[i] == old(self).spec_data()[i],
                self.wf(),
                frame < old(self).spec_frames(),
                channels == old(self).spec_channels(),
                channel <= channels,
                self.spec_channels() == old(self).spec_channels(),
                self.spec_frames() == old(self).spec_frames(),
                forall|c: int, f: int, v: T|
                    #![trigger self.spec_stored(c, f, v)]
                    #![trigger old(self).spec_stored(c, f, v)]
                    self.spec_stored(c, f, v) == old(self).spec_stored(c, f, v),
                forall|c: int, f: int, v: T|
                    #![trigger self.spec_clips(c, f, v)]
                    #![trigger old(self).spec_clips(c, f, v)]
                    self.spec_clips(c, f, v) == old(self).spec_clips(c, f, v),
                forall|c: int|
                    0 <= c < channel ==> #[trigger] self.spec_sample(c, frame as int)
                        == old(self).spec_stored(c, frame as int, *value),
                forall|c: int, f: int|
                    #![trigger self.spec_sample(c, f)]
                    0 <= c < old(self).spec_channels() && 0 <= f < old(self).spec_frames() && !(f == frame && c < channel)
                        ==> self.spec_sample(c, f) == old(self).spec_sample(c, f),
            decreases channels - channel,
        {
            self.write_sample_unchecked(channel, frame, value);
            channel += 1;
        }
        Some(())
    }

    fn fill_frames_with(&mut self, start: usize, count: usize, value: &T) -> (written: Option<
        usize,
    >)
        ensures
            final(self).spec_data().len() == old(self).spec_data().len(),
            forall|i: int|
                old(self).spec_frames() * old(self).spec_channels() <= i < old(self).spec_data().len() ==> #[trigger] final(self).spec_data()[i]
                    == old(self).spec_data()[i],
    {
        if count > self.frames() || start > self.frames() - count {
            return None;
        }
        let channels = self.channels();
        let mut channel: usize = 0;
        while channel < channels
            invariant
                self.spec_data().len() == old(self).spec_data().len(),
                forall|i: int| old(self).spec_frames() * old(self).spec_channels() <= i < old(self).spec_data().len() ==> #[trigger] self.spec_data()[i] == old(self).spec_data()[i],
                self.wf(),
                start + count <= old(self).spec_frames() <= usize::MAX,
                channels == old(self).spec_channels(),
                channel <= channels,
                self.spec_channels() == old(self).spec_channels(),
                self.spec_frames() == old(self).spec_frames(),
                forall|c: int, f: int, v: T|
                    #![trigger self.spec_stored(c, f, v)]
                    #![trigger old(self).spec_stored(c, f, v)]
                    self.spec_stored(c, f, v) == old(self).spec_stored(c, f, v),
                forall|c: int, f: int, v: T|
                    #![trigger self.spec_clips(c, f, v)]
                    #![trigger old(self).spec_clips(c, f, v)]
                    self.spec_clips(c, f, v) == old(self).spec_clips(c, f, v),
                forall|c: int, f: int|
                    0 <= c < channel && start <= f < start + count ==> #[trigger] self.spec_sample(c, f)
                        == old(self).spec_stored(c, f, *value),
                forall|c: int, f: int|
                    #![trigger self.spec_sample(c, f)]
                    0 <= c < old(self).spec_channels() && 0 <= f < old(self).spec_frames() && !(c < channel && start <= f < start + count)
                        ==> self.spec_sample(c, f) == old(self).spec_sample(c, f),
            decreases channels - channel,
        {
            let mut frame: usize = start;
            while frame < start + count
                invariant
                    self.spec_data().len() == old(self).spec_data().len(),
                    forall|i: int| old(self).spec_frames() * old(self).spec_channels() <= i < old(self).spec_data().len() ==> #[trigger] self.spec_data()[i] == old(self).spec_data()[i],
                    self.wf(),
                    start + count <= old(self).spec_frames() <= usize::MAX,
                    channels == old(self).spec_channels(),
                    channel < channels,
                    start <= frame <= start + count,
                    self.spec_channels() == old(self).spec_channels(),
                    self.spec_frames() == old(self).spec_frames(),
                    forall|c: int, f: int, v: T|
                        #![trigger self.spec_stored(c, f, v)]
                        #![trigger old(self).spec_stored(c, f, v)]
                        self.spec_stored(c, f, v) == old(self).spec_stored(c, f, v),
                    forall|c: int, f: int, v: T|
                        #![trigger self.spec_clips(c, f, v)]
                        #![trigger old(self).spec_clips(c, f, v)]
                        self.spec_clips(c, f, v) == old(self).spec_clips(c, f, v),
                    forall|c: int, f: int|
                        ((0 <= c < channel && start <= f < start + count) || (c == channel && start
                            <= f < frame)) ==> #[trigger] self.spec_sample(c, f)
                            == old(self).spec_stored(c, f, *value),
                    forall|c: int, f: int|
                        #![trigger self.spec_sample(c, f)]
                        0 <= c < old(self).spec_channels() && 0 <= f < old(self).spec_frames() && !((c < channel && start <= f < start + count) || (c == channel && start <= f < frame))
                            ==> self.spec_sample(c, f) == old(self).spec_sample(c, f),
                decreases start + count - frame,
            {
                self.write_sample_unchecked(channel, frame, value);
                frame += 1;
            }
            channel += 1;
        }
        Some(count)
    }

    fn fill_with(&mut self, value: &T)
        ensures
            final(self).spec_data().len() == old(self).spec_data().len(),
            forall|i: int|
                old(self).spec_frames() * old(self).spec_channels() <= i < old(self).spec_data().len() ==> #[trigger] final(self).spec_data()[i]
                    == old(self).spec_data()[i],
    {
        let channels = self.channels();
        let mut channel: usize = 0;
        while channel < channels
            invariant
                self.spec_data().len() == old(self).spec_data().len(),
                forall|i: int| old(self).spec_frames() * old(self).spec_channels() <= i < old(self).spec_data().len() ==> #[trigger] self.spec_data()[i] == old(self).spec_data()[i],
                self.wf(),
                channels == old(self).spec_channels(),
                channel <= channels,
                self.spec_channels() == old(self).spec_channels(),
                self.spec_frames() == old(self).spec_frames(),
                forall|c: int, f: int, v: T|
                    #![trigger self.spec_stored(c, f, v)]
                    #![trigger old(self).spec_stored(c, f, v)]
                    self.spec_stored(c, f, v) == old(self).spec_stored(c, f, v),
                forall|c: int, f: int, v: T|
                    #![trigger self.spec_clips(c, f, v)]
                    #![trigger old(self).spec_clips(c, f, v)]
                    self.spec_clips(c, f, v) == old(self).spec_clips(c, f, v),
                forall|c: int, f: int|
                    0 <= c < channel && 0 <= f < old(self).spec_frames() ==> #[trigger] self.spec_sample(c, f)
                        == old(self).spec_stored(c, f, *value),
            decreases channels - channel,
        {
            self.fill_channel_with(channel, value);
            channel += 1;
        }
    }

    fn copy_sample_within(
        &mut self,
        source_channel: usize,
        source_frame: usize,
        target_channel: usize,
        target_frame: usize,
    ) -> (copied: bool)
        ensures
            final(self).spec_data().len() == old(self).spec_data().len(),
            forall|i: int|
                old(self).spec_frames() * old(self).spec_channels() <= i < old(self).spec_data().len() ==> #[trigger] final(self).spec_data()[i]
                    == old(self).spec_data()[i],
            copied <==> (source_channel < old(self).spec_channels() && source_frame
                < old(self).spec_frames() && target_channel < old(self).spec_channels() && target_frame
                < old(self).spec_frames()),
    {
        if let Some(value) = self.read_sample(source_channel, source_frame) {
            if self.write_sample(target_channel, target_frame, &value).is_some() {
                return true;
            }
        }
        false
    }

    fn swap_samples(
        &mut self,
        channel_a: usize,
        frame_a: usize,
        channel_b: usize,
        frame_b: usize,
    ) -> (swapped: bool)
        ensures
            final(self).spec_data().len() == old(self).spec_data().len(),
            forall|i: int|
                old(self).spec_frames() * old(self).spec_channels() <= i < old(self).spec_data().len() ==> #[trigger] final(self).spec_data()[i]
                    == old(self).spec_data()[i],
            swapped <==> (channel_a < old(self).spec_channels() && frame_a < old(self).spec_frames()
                && channel_b < old(self).spec_channels() && frame_b < old(self).spec_frames()),
    {
        if let Some(value_a) = self.read_sample(channel_a, frame_a) {
            if let Some(value_b) = self.read_sample(channel_b, frame_b) {
                self.write_sample_unchecked(channel_b, frame_b, &value_a);
                self.write_sample_unchecked(channel_a, frame_a, &value_b);
                return true;
            }
        }
        false
    }

    fn copy_from_other(
        &mut self,
        other: &dyn Adapter<T>,
        other_skip: usize,
        self_skip: usize,
        take: usize,
    ) -> (clipped: Option<usize>)
        ensures
            final(self).spec_data().len() == old(self).spec_data().len(),
            forall|i: int|
                old(self).spec_frames() * old(self).spec_channels() <= i < old(self).spec_data().len() ==> #[trigger] final(self).spec_data()[i]
                    == old(self).spec_data()[i],
    {
        if other.channels() != self.channels() || take > self.frames() || self_skip > self.frames()
            - take || take > other.frames() || other_skip > other.frames() - take {
            return None;
        }
        let channels = self.channels();
        let mut clipped: usize = 0;
        let mut channel: usize = 0;
        while channel < channels
            invariant
                self.spec_data().len() == old(self).spec_data().len(),
                forall|i: int| old(self).spec_frames() * old(self).spec_channels() <= i < old(self).spec_data().len() ==> #[trigger] self.spec_data()[i] == old(self).spec_data()[i],
                self.wf(),
                other.wf(),
                channels == old(self).spec_channels(),
                other.spec_channels() == channels,
                self_skip + take <= old(self).spec_frames() <= usize::MAX,
                other_skip + take <= other.spec_frames() <= usize::MAX,
                channel <= channels,
                self.spec_channels() == old(self).spec_channels(),
                self.spec_frames() == old(self).spec_frames(),
                forall|c: int, f: int, v: T|
                    #![trigger self.spec_stored(c, f, v)]
                    #![trigger old(self).spec_stored(c, f, v)]
                    self.spec_stored(c, f, v) == old(self).spec_stored(c, f, v),
                forall|c: int, f: int, v: T|
                    #![trigger self.spec_clips(c, f, v)]
                    #![trigger old(self).spec_clips(c, f, v)]
                    self.spec_clips(c, f, v) == old(self).spec_clips(c, f, v),
                clipped == saturated(
                    sum_nat(
                        channel as int,
                        |c: int|
                            count_true(
                                take as int,
                                |j: int|
                                    old(self).spec_clips(c, self_skip + j, other.spec_sample(c, other_skip + j)),
                            ),
                    ),
                ),
                forall|c: int, f: int|
                    0 <= c < channel && self_skip <= f < self_skip + take ==> #[trigger] self.spec_sample(c, f)
                        == old(self).spec_stored(c, f, other.spec_sample(c, f - self_skip + other_skip)),
                forall|c: int, f: int|
                    #![trigger self.spec_sample(c, f)]
                    0 <= c < old(self).spec_channels() && 0 <= f < old(self).spec_frames() && !(c < channel && self_skip <= f < self_skip + take)
                        ==> self.spec_sample(c, f) == old(self).spec_sample(c, f),
            decreases channels - channel,
        {
            let ghost before = clipped;
            let mut frame: usize = 0;
            while frame < take
                invariant
                    self.spec_data().len() == old(self).spec_data().len(),
                    forall|i: int| old(self).spec_frames() * old(self).spec_channels() <= i < old(self).spec_data().len() ==> #[trigger] self.spec_data()[i] == old(self).spec_data()[i],
                    self.wf(),
                    other.wf(),
                    channels == old(self).spec_channels(),
                    other.spec_channels() == channels,
                    self_skip + take <= old(self).spec_frames() <= usize::MAX,
                    other_skip + take <= other.spec_frames() <= usize::MAX,
                    channel < channels,
                    frame <= take,
                    before == saturated(
                        sum_nat(
                            channel as int,
                            |c: int|
                                count_true(
                                    take as int,
                                    |j: int|
                                        old(self).spec_clips(c, self_skip + j, other.spec_sample(c, other_skip + j)),
                                ),
                        ),
                    ),
                    clipped == saturated(
                        sum_nat(
                            channel as int,
                            |c: int|
                                count_true(
                                    take as int,
                                    |j: int|
                                        old(self).spec_clips(c, self_skip + j, other.spec_sample(c, other_skip + j)),
                                ),
                        ) + count_true(
                            frame as int,
                            |j: int|
                                old(self).spec_clips(channel as int, self_skip + j, other.spec_sample(channel as int, other_skip + j)),
                        ),
                    ),
                    self.spec_channels() == old(self).spec_channels(),
                    self.spec_frames() == old(self).spec_frames(),
                    forall|c: int, f: int, v: T|
                        #![trigger self.spec_stored(c, f, v)]
                        #![trigger old(self).spec_stored(c, f, v)]
                        self.spec_stored(c, f, v) == old(self).spec_stored(c, f, v),
                    forall|c: int, f: int, v: T|
                        #![trigger self.spec_clips(c, f, v)]
                        #![trigger old(self).spec_clips(c, f, v)]
                        self.spec_clips(c, f, v) == old(self).spec_clips(c, f, v),
                    forall|c: int, f: int|
                        ((0 <= c < channel && self_skip <= f < self_skip + take) || (c == channel
                            && self_skip <= f < self_skip + frame)) ==> #[trigger] self.spec_sample(c, f)
                            == old(self).spec_stored(c, f, other.spec_sample(c, f - self_skip + other_skip)),
                    forall|c: int, f: int|
                        #![trigger self.spec_sample(c, f)]
                        0 <= c < old(self).spec_channels() && 0 <= f < old(self).spec_frames() && !((c < channel && self_skip <= f < self_skip + take) || (c == channel && self_skip <= f < self_skip + frame))
                            ==> self.spec_sample(c, f) == old(self).spec_sample(c, f),
                decreases take - frame,
            {
                let value = other.read_sample_unchecked(channel, frame + other_skip);
                let c = self.write_sample_unchecked(channel, frame + self_skip, &value);
                if c && clipped < usize::MAX {
                    clipped += 1;
                }
                frame += 1;
            }
            channel += 1;
        }
        Some(clipped)
    }
}

/// The data of an `InterleavedOwned` holds its samples frame by frame: sample
/// (`c`, `f`) is element `f * channels + c`, which is what `take_data` returns.
pub proof fn law_interleaved_owned_data<T: Copy>(buffer: &InterleavedOwned<T>)
    requires
        buffer.wf(),
    ensures
        buffer.spec_frames() * buffer.spec_channels() <= buffer.spec_data().len(),
        forall|c: int, f: int|
            0 <= c < buffer.spec_channels() && 0 <= f < buffer.spec_frames() ==> #[trigger] buffer.spec_sample(c, f)
                == buffer.spec_data()[f * buffer.spec_channels() + c],
{
}

/// The data of a `SequentialOwned` holds its samples channel by channel: sample
/// (`c`, `f`) is element `c * frames + f`, which is what `take_data` returns.
pub proof fn law_sequential_owned_data<T: Copy>(buffer: &SequentialOwned<T>)
    requires
        buffer.wf(),
    ensures
        buffer.spec_frames() * buffer.spec_channels() <= buffer.spec_data().len(),
        forall|c: int, f: int|
            0 <= c < buffer.spec_channels() && 0 <= f < buffer.spec_frames() ==> #[trigger] buffer.spec_sample(c, f)
                == buffer.spec_data()[c * buffer.spec_frames() + f],
{
}

} // verus!

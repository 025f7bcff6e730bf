//! Wrappers for slices of raw bytes that hold samples in one of the formats of
//! [crate::sample]. Samples are read as the numbers the format stands for, and
//! numbers are written as the bytes of the format.
//!
//! Each sample takes `U::BYTES_PER_SAMPLE` consecutive bytes. The wrappers exist
//! in an _interleaved_ and a _sequential_ version, as the wrappers in
//! [crate::direct] do.
use vstd::prelude::*;

use core::marker::PhantomData;

use crate::direct::{lemma_grid_index, lemma_grid_index_unique};
use crate::sample::BytesSample;
use crate::traits::{count_true, saturated, sum_nat, Adapter, AdapterMut};
use crate::{check_total, saturating, SizeError};

verus! {

/// Sample `index` of a buffer of `samples` samples of `size` bytes each starts
/// at byte `index * size`, and its bytes lie inside the buffer.
pub proof fn lemma_sample_bytes(index: int, samples: int, size: int)
    requires
        0 <= index < samples,
        0 <= size,
    ensures
        0 <= index * size,
        index * size + size <= samples * size,
{
    assert(0 <= index * size) by (nonlinear_arith)
        requires
            0 <= index,
            0 <= size,
    ;
    assert(index * size + size <= samples * size) by (nonlinear_arith)
        requires
            index + 1 <= samples,
            0 <= size,
    ;
}

/// The bytes of two different samples do not overlap.
pub proof fn lemma_sample_bytes_disjoint(a: int, b: int, size: int, i: int)
    requires
        0 <= a,
        0 <= b,
        a != b,
        a * size <= i < a * size + size,
    ensures
        !(b * size <= i < b * size + size),
{
    if a < b {
        assert(a * size + size <= b * size) by (nonlinear_arith)
            requires
                a + 1 <= b,
                0 <= size,
        ;
    } else {
        assert(b * size + size <= a * size) by (nonlinear_arith)
            requires
                b + 1 <= a,
                0 <= size,
        ;
    }
}

/// A wrapper for a slice of bytes holding samples in the format `U`,
/// stored in _interleaved_ order, where
/// all the samples of one frame are stored consecutively,
/// followed by the samples of the next frame.
/// Samples are read as `U::NumericType` numbers, and numbers are written as the
/// bytes of `U`.
pub struct InterleavedBytes<'a, U, V> {
    buf: V,
    frames: usize,
    channels: usize,
    format: PhantomData<&'a U>,
}

impl<'a, U: BytesSample, V> InterleavedBytes<'a, U, V> {
    fn byte_index(&self, channel: usize, frame: usize) -> (start: usize)
        requires
            channel < self.channels,
            frame < self.frames,
            self.frames * self.channels * U::BYTES_PER_SAMPLE <= usize::MAX,
        ensures
            start == ((frame) * self.channels + (channel)) * U::BYTES_PER_SAMPLE,
            start + U::BYTES_PER_SAMPLE <= self.frames * self.channels * U::BYTES_PER_SAMPLE,
    {
        proof {
            U::lemma_sample_slice_fits();
            assert(self.frames * self.channels <= self.frames * self.channels * U::BYTES_PER_SAMPLE)
                by (nonlinear_arith)
                requires
                    U::BYTES_PER_SAMPLE > 0,
            ;
            lemma_grid_index(channel as int, frame as int, self.channels as int, self.frames as int);
            lemma_sample_bytes(
                (frame as int) * self.channels as int + (channel as int),
                (self.frames * self.channels) as int,
                U::BYTES_PER_SAMPLE as int,
            );
        }
        ((frame) * self.channels + (channel)) * U::BYTES_PER_SAMPLE
    }
}

impl<'a, U: BytesSample> InterleavedBytes<'a, U, &'a [u8]> {
    /// Create a new wrapper for an immutable slice of bytes, holding samples
    /// in the format `U`, stored in _interleaved_ order.
    /// The slice length must be at least `U::BYTES_PER_SAMPLE * frames * channels`.
    /// It is allowed to be longer than needed,
    /// but these extra bytes cannot be accessed via the trait methods.
    pub fn new(buf: &'a [u8], channels: usize, frames: usize) -> (r: Result<Self, SizeError>)
        ensures
            r is Ok <==> channels * frames * U::BYTES_PER_SAMPLE <= buf@.len(),
            r is Err ==> r == Err::<Self, SizeError>(
                SizeError::Total {
                    actual: buf@.len() as usize,
                    required: saturating(channels * frames * U::BYTES_PER_SAMPLE),
                },
            ),
            r matches Ok(w) ==> {
                &&& w.wf()
                &&& w.spec_channels() == channels
                &&& w.spec_frames() == frames
                &&& forall|c: int, f: int|
                    0 <= c < channels && 0 <= f < frames ==> #[trigger] w.spec_sample(c, f) == U::spec_decode(
                        buf@.subrange(
                            ((f) * channels + (c)) * (U::BYTES_PER_SAMPLE as int),
                            ((f) * channels + (c)) * (U::BYTES_PER_SAMPLE as int) + (U::BYTES_PER_SAMPLE as int),
                        ),
                    )
            },
    {
        match check_total(buf.len(), channels, frames, U::BYTES_PER_SAMPLE) {
            Ok(()) => {
                proof {
                    assert(channels * frames * U::BYTES_PER_SAMPLE == frames * channels * U::BYTES_PER_SAMPLE)
                        by (nonlinear_arith);
                }
                Ok(Self { buf, frames, channels, format: PhantomData })
            },
            Err(e) => Err(e),
        }
    }
}

impl<'a, U: BytesSample> Adapter<U::NumericType> for InterleavedBytes<'a, U, &'a [u8]> {
    closed spec fn wf(&self) -> bool {
        self.frames * self.channels * U::BYTES_PER_SAMPLE <= self.buf@.len() <= usize::MAX
    }

    closed spec fn spec_channels(&self) -> nat {
        self.channels as nat
    }

    closed spec fn spec_frames(&self) -> nat {
        self.frames as nat
    }

    closed spec fn spec_sample(&self, channel: int, frame: int) -> U::NumericType {
        U::spec_decode(
            self.buf@.subrange(
                ((frame) * self.channels + (channel)) * (U::BYTES_PER_SAMPLE as int),
                ((frame) * self.channels + (channel)) * (U::BYTES_PER_SAMPLE as int) + (U::BYTES_PER_SAMPLE as int),
            ),
        )
    }

    fn read_sample_unchecked(&self, channel: usize, frame: usize) -> (value: U::NumericType) {
        let start = self.byte_index(channel, frame);
        proof {
            U::lemma_sample_slice_fits();
        }
        let sample = U::from_slice(&self.buf[start..start + U::BYTES_PER_SAMPLE]);
        proof {
            assert(self.buf@.subrange(start as int, start + U::BYTES_PER_SAMPLE).subrange(0, U::BYTES_PER_SAMPLE as int)
                =~= self.buf@.subrange(start as int, start + U::BYTES_PER_SAMPLE));
        }
        sample.to_number()
    }

    fn channels(&self) -> (n: usize) {
        self.channels
    }

    fn frames(&self) -> (n: usize) {
        self.frames
    }
}

impl<'a, U: BytesSample> InterleavedBytes<'a, U, &'a mut [u8]> {
    /// The wrapped storage, through which the samples are written to the caller's buffer.
    pub closed spec fn spec_storage(&self) -> &'a mut [u8] {
        self.buf
    }

    /// Once the wrapper is no longer used, the wrapped bytes hold its samples
    /// frame by frame.
    pub proof fn lemma_storage(&self)
        requires
            self.wf(),
            has_resolved(*self),
        ensures
            forall|c: int, f: int|
                0 <= c < self.spec_channels() && 0 <= f < self.spec_frames() ==> U::spec_decode(
                    final(self.spec_storage())@.subrange((f * self.spec_channels() + c) * (U::BYTES_PER_SAMPLE as int), (f * self.spec_channels() + c) * (U::BYTES_PER_SAMPLE as int) + (U::BYTES_PER_SAMPLE as int)),
                ) == #[trigger] self.spec_sample(c, f),
    {
    }

    /// Create a new wrapper for a mutable slice of bytes, holding samples
    /// in the format `U`, stored in _interleaved_ order.
    /// The slice length must be at least `U::BYTES_PER_SAMPLE * frames * channels`.
    /// It is allowed to be longer than needed,
    /// but these extra bytes cannot be accessed via the trait methods.
    pub fn new_mut(buf: &'a mut [u8], channels: usize, frames: usize) -> (r: Result<Self, SizeError>)
        ensures
            r is Ok <==> channels * frames * U::BYTES_PER_SAMPLE <= old(buf)@.len(),
            r is Err ==> r == Err::<Self, SizeError>(
                SizeError::Total {
                    actual: old(buf)@.len() as usize,
                    required: saturating(channels * frames * U::BYTES_PER_SAMPLE),
                },
            ),
            r is Err ==> final(buf)@ == old(buf)@,
            r matches Ok(w) ==> {
                &&& final(w.spec_storage())@ == final(buf)@
                &&& w.wf()
                &&& w.spec_channels() == channels
                &&& w.spec_frames() == frames
                &&& forall|c: int, f: int|
                    0 <= c < channels && 0 <= f < frames ==> #[trigger] w.spec_sample(c, f) == U::spec_decode(
                        old(buf)@.subrange(
                            ((f) * channels + (c)) * (U::BYTES_PER_SAMPLE as int),
                            ((f) * channels + (c)) * (U::BYTES_PER_SAMPLE as int) + (U::BYTES_PER_SAMPLE as int),
                        ),
                    )
            },
    {
        match check_total(buf.len(), channels, frames, U::BYTES_PER_SAMPLE) {
            Ok(()) => {
                proof {
                    assert(channels * frames * U::BYTES_PER_SAMPLE == frames * channels * U::BYTES_PER_SAMPLE)
                        by (nonlinear_arith);
                }
                Ok(Self { buf, frames, channels, format: PhantomData })
            },
            Err(e) => Err(e),
        }
    }
}

impl<'a, U: BytesSample> Adapter<U::NumericType> for InterleavedBytes<'a, U, &'a mut [u8]> {
    closed spec fn wf(&self) -> bool {
        self.frames * self.channels * U::BYTES_PER_SAMPLE <= self.buf@.len() <= usize::MAX
    }

    closed spec fn spec_channels(&self) -> nat {
        self.channels as nat
    }

    closed spec fn spec_frames(&self) -> nat {
        self.frames as nat
    }

    closed spec fn spec_sample(&self, channel: int, frame: int) -> U::NumericType {
        U::spec_decode(
            self.buf@.subrange(
                ((frame) * self.channels + (channel)) * (U::BYTES_PER_SAMPLE as int),
                ((frame) * self.channels + (channel)) * (U::BYTES_PER_SAMPLE as int) + (U::BYTES_PER_SAMPLE as int),
            ),
        )
    }

    fn read_sample_unchecked(&self, channel: usize, frame: usize) -> (value: U::NumericType) {
        let start = self.byte_index(channel, frame);
        proof {
            U::lemma_sample_slice_fits();
        }
        let sample = U::from_slice(&self.buf[start..start + U::BYTES_PER_SAMPLE]);
        proof {
            assert(self.buf@.subrange(start as int, start + U::BYTES_PER_SAMPLE).subrange(0, U::BYTES_PER_SAMPLE as int)
                =~= self.buf@.subrange(start as int, start + U::BYTES_PER_SAMPLE));
        }
        sample.to_number()
    }

    fn channels(&self) -> (n: usize) {
        self.channels
    }

    fn frames(&self) -> (n: usize) {
        self.frames
    }
}

impl<'a, U: BytesSample> AdapterMut<U::NumericType> for InterleavedBytes<'a, U, &'a mut [u8]> {
    open spec fn spec_stored(&self, channel: int, frame: int, value: U::NumericType) -> U::NumericType {
        U::spec_decode(U::spec_encode(value))
    }

    open spec fn spec_clips(&self, channel: int, frame: int, value: U::NumericType) -> bool {
        false
    }

    fn write_sample_unchecked(&mut self, channel: usize, frame: usize, value: &U::NumericType) -> (clipped: bool)
        ensures
            final(final(self).spec_storage())@ == final(old(self).spec_storage())@,
            final(self).spec_storage()@.len() == old(self).spec_storage()@.len(),
            final(self).spec_storage()@.subrange(
                (frame * old(self).spec_channels() + channel) * (U::BYTES_PER_SAMPLE as int),
                (frame * old(self).spec_channels() + channel) * (U::BYTES_PER_SAMPLE as int) + (U::BYTES_PER_SAMPLE as int),
            ) == U::spec_encode(*value),
    {
        let start = self.byte_index(channel, frame);
        let sample = U::from_number(*value);
        let bytes = sample.as_slice();
        let size = U::BYTES_PER_SAMPLE;
        let mut i: usize = 0;
        while i < size
            invariant
                final(self.spec_storage())@ == final(old(self).spec_storage())@,
                self.channels == old(self).channels,
                self.frames == old(self).frames,
                self.buf@.len() == old(self).buf@.len(),
                self.buf@.len() <= usize::MAX,
                bytes@.len() == size,
                size == U::BYTES_PER_SAMPLE,
                start + size <= self.frames * self.channels * size,
                self.frames * self.channels * size <= self.buf@.len(),
                i <= size,
                forall|j: int| 0 <= j < i ==> #[trigger] self.buf@[start + j] == bytes@[j],
                forall|j: int|
                    0 <= j < self.buf@.len() && !(start <= j < start + i) ==> #[trigger] self.buf@[j] == old(self).buf@[j],
            decreases size - i,
        {
            self.buf[start + i] = bytes[i];
            i += 1;
        }
        proof {
            assert forall|j: int| 0 <= j < size implies #[trigger] self.buf@.subrange(start as int, start + size)[j]
                == U::spec_encode(*value)[j] by {
                assert(self.buf@[start + j] == bytes@[j]);
            }
            assert(self.buf@.subrange(start as int, start + size) =~= U::spec_encode(*value));
            assert forall|c: int, f: int|
                0 <= c < self.channels && 0 <= f < self.frames && !(c == channel && f == frame)
                    implies #[trigger] self.spec_sample(c, f) == old(self).spec_sample(c, f) by {
                let k = (f) * self.channels as int + (c);
                let here = (frame as int) * self.channels as int + (channel as int);
                lemma_grid_index(c, f, self.channels as int, self.frames as int);
                lemma_grid_index(channel as int, frame as int, self.channels as int, self.frames as int);
                if k == here {
                    lemma_grid_index_unique(c, f, channel as int, frame as int, self.channels as int);
                }
                lemma_sample_bytes(k, (self.frames * self.channels) as int, size as int);
                assert forall|j: int| k * size <= j < k * size + size implies #[trigger] self.buf@[j] == old(self).buf@[j] by {
                    lemma_sample_bytes_disjoint(k, here, size as int, j);
                }
                assert(self.buf@.subrange(k * size, k * size + size) =~= old(self).buf@.subrange(k * size, k * size + size));
            }
        }
        false
    }

    fn write_sample(&mut self, channel: usize, frame: usize, value: &U::NumericType) -> (clipped: Option<bool>)
        ensures
            final(final(self).spec_storage())@ == final(old(self).spec_storage())@,
    {
        if channel >= self.channels() || frame >= self.frames() {
            return None;
        }
        Some(self.write_sample_unchecked(channel, frame, value))
    }

    fn copy_from_slice_to_channel(&mut self, channel: usize, skip: usize, slice: &[U::NumericType]) -> (r: (
        usize,
        usize,
    ))
        ensures
            final(final(self).spec_storage())@ == final(old(self).spec_storage())@,
    {
        if channel >= self.channels() || skip >= self.frames() {
            return (0, 0);
        }
        let n = if self.frames() - skip < slice.len() {
            self.frames() - skip
        } else {
            slice.len()
        };
        let mut clipped: usize = 0;
        let mut i: usize = 0;
        while i < n
            invariant
                final(self.spec_storage())@ == final(old(self).spec_storage())@,
                self.wf(),
                channel < old(self).spec_channels(),
                skip + n <= old(self).spec_frames() <= usize::MAX,
                n <= slice@.len(),
                i <= n,
                clipped <= i,
                self.spec_channels() == old(self).spec_channels(),
                self.spec_frames() == old(self).spec_frames(),
                forall|c: int, f: int, v: U::NumericType|
                    #![trigger self.spec_stored(c, f, v)]
                    #![trigger old(self).spec_stored(c, f, v)]
                    self.spec_stored(c, f, v) == old(self).spec_stored(c, f, v),
                forall|c: int, f: int, v: U::NumericType|
                    #![trigger self.spec_clips(c, f, v)]
                    #![trigger old(self).spec_clips(c, f, v)]
                    self.spec_clips(c, f, v) == old(self).spec_clips(c, f, v),
                forall|j: int|
                    0 <= j < i ==> #[trigger] self.spec_sample(channel as int, skip + j) == old(self).spec_stored(
                        channel as int, skip + j,
                        slice@[j],
                    ),
                forall|c: int, f: int|
                    #![trigger self.spec_sample(c, f)]
                    0 <= c < old(self).spec_channels() && 0 <= f < old(self).spec_frames() && !(c == channel && skip <= f < skip + i)
                        ==> self.spec_sample(c, f) == old(self).spec_sample(c, f),
                clipped == count_true(i as int, |j: int| old(self).spec_clips(channel as int, skip + j, slice@[j])),
            decreases n - i,
        {
            let value = slice[i];
            let c = self.write_sample_unchecked(channel, skip + i, &value);
            if c {
                clipped += 1;
            }
            i += 1;
        }
        (n, clipped)
    }

    fn copy_from_slice_to_frame(&mut self, frame: usize, skip: usize, slice: &[U::NumericType]) -> (r: (
        usize,
        usize,
    ))
        ensures
            final(final(self).spec_storage())@ == final(old(self).spec_storage())@,
    {
        if frame >= self.frames() || skip >= self.channels() {
            return (0, 0);
        }
        let n = if self.channels() - skip < slice.len() {
            self.channels() - skip
        } else {
            slice.len()
        };
        let mut clipped: usize = 0;
        let mut i: usize = 0;
        while i < n
            invariant
                final(self.spec_storage())@ == final(old(self).spec_storage())@,
                self.wf(),
                frame < old(self).spec_frames(),
                skip + n <= old(self).spec_channels() <= usize::MAX,
                n <= slice@.len(),
                i <= n,
                clipped <= i,
                self.spec_channels() == old(self).spec_channels(),
                self.spec_frames() == old(self).spec_frames(),
                forall|c: int, f: int, v: U::NumericType|
                    #![trigger self.spec_stored(c, f, v)]
                    #![trigger old(self).spec_stored(c, f, v)]
                    self.spec_stored(c, f, v) == old(self).spec_stored(c, f, v),
                forall|c: int, f: int, v: U::NumericType|
                    #![trigger self.spec_clips(c, f, v)]
                    #![trigger old(self).spec_clips(c, f, v)]
                    self.spec_clips(c, f, v) == old(self).spec_clips(c, f, v),
                forall|j: int|
                    0 <= j < i ==> #[trigger] self.spec_sample(skip + j, frame as int) == old(self).spec_stored(
                        skip + j, frame as int,
                        slice@[j],
                    ),
                forall|c: int, f: int|
                    #![trigger self.spec_sample(c, f)]
                    0 <= c < old(self).spec_channels() && 0 <= f < old(self).spec_frames() && !(f == frame && skip <= c < skip + i)
                        ==> self.spec_sample(c, f) == old(self).spec_sample(c, f),
                clipped == count_true(i as int, |j: int| old(self).spec_clips(skip + j, frame as int, slice@[j])),
            decreases n - i,
        {
            let value = slice[i];
            let c = self.write_sample_unchecked(skip + i, frame, &value);
            if c {
                clipped += 1;
            }
            i += 1;
        }
        (n, clipped)
    }

    fn copy_from_other_to_channel(
        &mut self,
        other: &dyn Adapter<U::NumericType>,
        other_channel: usize,
        self_channel: usize,
        other_skip: usize,
        self_skip: usize,
        take: usize,
    ) -> (clipped: Option<usize>)
        ensures
            final(final(self).spec_storage())@ == final(old(self).spec_storage())@,
    {
        if self_channel >= self.channels() || take > self.frames() || self_skip > self.frames()
            - take || other_channel >= other.channels() || take > other.frames() || other_skip
            > other.frames() - take {
            return None;
        }
        let mut clipped: usize = 0;
        let mut i: usize = 0;
        while i < take
            invariant
                final(self.spec_storage())@ == final(old(self).spec_storage())@,
                self.wf(),
                other.wf(),
                self_channel < old(self).spec_channels(),
                self_skip + take <= old(self).spec_frames() <= usize::MAX,
                other_channel < other.spec_channels(),
                other_skip + take <= other.spec_frames() <= usize::MAX,
                i <= take,
                clipped <= i,
                self.spec_channels() == old(self).spec_channels(),
                self.spec_frames() == old(self).spec_frames(),
                forall|c: int, f: int, v: U::NumericType|
                    #![trigger self.spec_stored(c, f, v)]
                    #![trigger old(self).spec_stored(c, f, v)]
                    self.spec_stored(c, f, v) == old(self).spec_stored(c, f, v),
                forall|c: int, f: int, v: U::NumericType|
                    #![trigger self.spec_clips(c, f, v)]
                    #![trigger old(self).spec_clips(c, f, v)]
                    self.spec_clips(c, f, v) == old(self).spec_clips(c, f, v),
                forall|j: int|
                    0 <= j < i ==> #[trigger] self.spec_sample(self_channel as int, self_skip + j)
                        == old(self).spec_stored(
                        self_channel as int,
                        self_skip + j,
                        other.spec_sample(other_channel as int, other_skip + j),
                    ),
                forall|c: int, f: int|
                    #![trigger self.spec_sample(c, f)]
                    0 <= c < old(self).spec_channels() && 0 <= f < old(self).spec_frames() && !(c == self_channel && self_skip <= f < self_skip + i)
                        ==> self.spec_sample(c, f) == old(self).spec_sample(c, f),
                clipped == count_true(
                    i as int,
                    |j: int|
                        old(self).spec_clips(
                            self_channel as int,
                            self_skip + j,
                            other.spec_sample(other_channel as int, other_skip + j),
                        ),
                ),
            decreases take - i,
        {
            let value = other.read_sample_unchecked(other_channel, other_skip + i);
            let c = self.write_sample_unchecked(self_channel, self_skip + i, &value);
            if c {
                clipped += 1;
            }
            i += 1;
        }
        Some(clipped)
    }

    fn fill_channel_with(&mut self, channel: usize, value: &U::NumericType) -> (done: Option<()>)
        ensures
            final(final(self).spec_storage())@ == final(old(self).spec_storage())@,
    {
        if channel >= self.channels() {
            return None;
        }
        let frames = self.frames();
        let mut frame: usize = 0;
        while frame < frames
            invariant
                final(self.spec_storage())@ == final(old(self).spec_storage())@,
                self.wf(),
                channel < old(self).spec_channels(),
                frames == old(self).spec_frames(),
                frame <= frames,
                self.spec_channels() == old(self).spec_channels(),
                self.spec_frames() == old(self).spec_frames(),
                forall|c: int, f: int, v: U::NumericType|
                    #![trigger self.spec_stored(c, f, v)]
                    #![trigger old(self).spec_stored(c, f, v)]
                    self.spec_stored(c, f, v) == old(self).spec_stored(c, f, v),
                forall|c: int, f: int, v: U::NumericType|
                    #![trigger self.spec_clips(c, f, v)]
                    #![trigger old(self).spec_clips(c, f, v)]
                    self.spec_clips(c, f, v) == old(self).spec_clips(c, f, v),
                forall|f: int|
                    0 <= f < frame ==> #[trigger] self.spec_sample(channel as int, f)
                        == old(self).spec_stored(channel as int, f, *value),
                forall|c: int, f: int|
                    #![trigger self.spec_sample(c, f)]
                    0 <= c < old(self).spec_channels() && 0 <= f < old(self).spec_frames() && !(c == channel && f < frame)
                        ==> self.spec_sample(c, f) == old(self).spec_sample(c, f),
            decreases frames - frame,
        {
            self.write_sample_unchecked(channel, frame, value);
            frame += 1;
        }
        Some(())
    }

    fn fill_frame_with(&mut self, frame: usize, value: &U::NumericType) -> (done: Option<()>)
        ensures
            final(final(self).spec_storage())@ == final(old(self).spec_storage())@,
    {
        if frame >= self.frames() {
            return None;
        }
        let channels = self.channels();
        let mut channel: usize = 0;
        while channel < channels
            invariant
                final(self.spec_storage())@ == final(old(self).spec_storage())@,
                self.wf(),
                frame < old(self).spec_frames(),
                channels == old(self).spec_channels(),
                channel <= channels,
                self.spec_channels() == old(self).spec_channels(),
                self.spec_frames() == old(self).spec_frames(),
                forall|c: int, f: int, v: U::NumericType|
                    #![trigger self.spec_stored(c, f, v)]
                    #![trigger old(self).spec_stored(c, f, v)]
                    self.spec_stored(c, f, v) == old(self).spec_stored(c, f, v),
                forall|c: int, f: int, v: U::NumericType|
                    #![trigger self.spec_clips(c, f, v)]
                    #![trigger old(self).spec_clips(c, f, v)]
                    self.spec_clips(c, f, v) == old(self).spec_clips(c, f, v),
                forall|c: int|
                    0 <= c < channel ==> #[trigger] self.spec_sample(c, frame as int)
                        == old(self).spec_stored(c, frame as int, *value),
                forall|c: int, f: int|
                    #![trigger self.spec_sample(c, f)]
                    0 <= c < old(self).spec_channels() && 0 <= f < old(self).spec_frames() && !(f == frame && c < channel)
                        ==> self.spec_sample(c, f) == old(self).spec_sample(c, f),
            decreases channels - channel,
        {
            self.write_sample_unchecked(channel, frame, value);
            channel += 1;
        }
        Some(())
    }

    fn fill_frames_with(&mut self, start: usize, count: usize, value: &U::NumericType) -> (written: Option<
        usize,
    >)
        ensures
            final(final(self).spec_storage())@ == final(old(self).spec_storage())@,
    {
        if count > self.frames() || start > self.frames() - count {
            return None;
        }
        let channels = self.channels();
        let mut channel: usize = 0;
        while channel < channels
            invariant
                final(self.spec_storage())@ == final(old(self).spec_storage())@,
                self.wf(),
                start + count <= old(self).spec_frames() <= usize::MAX,
                channels == old(self).spec_channels(),
                channel <= channels,
                self.spec_channels() == old(self).spec_channels(),
                self.spec_frames() == old(self).spec_frames(),
                forall|c: int, f: int, v: U::NumericType|
                    #![trigger self.spec_stored(c, f, v)]
                    #![trigger old(self).spec_stored(c, f, v)]
                    self.spec_stored(c, f, v) == old(self).spec_stored(c, f, v),
                forall|c: int, f: int, v: U::NumericType|
                    #![trigger self.spec_clips(c, f, v)]
                    #![trigger old(self).spec_clips(c, f, v)]
                    self.spec_clips(c, f, v) == old(self).spec_clips(c, f, v),
                forall|c: int, f: int|
                    0 <= c < channel && start <= f < start + count ==> #[trigger] self.spec_sample(c, f)
                        == old(self).spec_stored(c, f, *value),
                forall|c: int, f: int|
                    #![trigger self.spec_sample(c, f)]
                    0 <= c < old(self).spec_channels() && 0 <= f < old(self).spec_frames() && !(c < channel && start <= f < start + count)
                        ==> self.spec_sample(c, f) == old(self).spec_sample(c, f),
            decreases channels - channel,
        {
            let mut frame: usize = start;
            while frame < start + count
                invariant
                    final(self.spec_storage())@ == final(old(self).spec_storage())@,
                    self.wf(),
                    start + count <= old(self).spec_frames() <= usize::MAX,
                    channels == old(self).spec_channels(),
                    channel < channels,
                    start <= frame <= start + count,
                    self.spec_channels() == old(self).spec_channels(),
                    self.spec_frames() == old(self).spec_frames(),
                    forall|c: int, f: int, v: U::NumericType|
                        #![trigger self.spec_stored(c, f, v)]
                        #![trigger old(self).spec_stored(c, f, v)]
                        self.spec_stored(c, f, v) == old(self).spec_stored(c, f, v),
                    forall|c: int, f: int, v: U::NumericType|
                        #![trigger self.spec_clips(c, f, v)]
                        #![trigger old(self).spec_clips(c, f, v)]
                        self.spec_clips(c, f, v) == old(self).spec_clips(c, f, v),
                    forall|c: int, f: int|
                        ((0 <= c < channel && start <= f < start + count) || (c == channel && start
                            <= f < frame)) ==> #[trigger] self.spec_sample(c, f)
                            == old(self).spec_stored(c, f, *value),
                    forall|c: int, f: int|
                        #![trigger self.spec_sample(c, f)]
                        0 <= c < old(self).spec_channels() && 0 <= f < old(self).spec_frames() && !((c < channel && start <= f < start + count) || (c == channel && start <= f < frame))
                            ==> self.spec_sample(c, f) == old(self).spec_sample(c, f),
                decreases start + count - frame,
            {
                self.write_sample_unchecked(channel, frame, value);
                frame += 1;
            }
            channel += 1;
        }
        Some(count)
    }

    fn fill_with(&mut self, value: &U::NumericType)
        ensures
            final(final(self).spec_storage())@ == final(old(self).spec_storage())@,
    {
        let channels = self.channels();
        let mut channel: usize = 0;
        while channel < channels
            invariant
                final(self.spec_storage())@ == final(old(self).spec_storage())@,
                self.wf(),
                channels == old(self).spec_channels(),
                channel <= channels,
                self.spec_channels() == old(self).spec_channels(),
                self.spec_frames() == old(self).spec_frames(),
                forall|c: int, f: int, v: U::NumericType|
                    #![trigger self.spec_stored(c, f, v)]
                    #![trigger old(self).spec_stored(c, f, v)]
                    self.spec_stored(c, f, v) == old(self).spec_stored(c, f, v),
                forall|c: int, f: int, v: U::NumericType|
                    #![trigger self.spec_clips(c, f, v)]
                    #![trigger old(self).spec_clips(c, f, v)]
                    self.spec_clips(c, f, v) == old(self).spec_clips(c, f, v),
                forall|c: int, f: int|
                    0 <= c < channel && 0 <= f < old(self).spec_frames() ==> #[trigger] self.spec_sample(c, f)
                        == old(self).spec_stored(c, f, *value),
            decreases channels - channel,
        {
            self.fill_channel_with(channel, value);
            channel += 1;
        }
    }

    fn copy_sample_within(
        &mut self,
        source_channel: usize,
        source_frame: usize,
        target_channel: usize,
        target_frame: usize,
    ) -> (copied: bool)
        ensures
            final(final(self).spec_storage())@ == final(old(self).spec_storage())@,
            copied <==> (source_channel < old(self).spec_channels() && source_frame
                < old(self).spec_frames() && target_channel < old(self).spec_channels() && target_frame
                < old(self).spec_frames()),
    {
        if let Some(value) = self.read_sample(source_channel, source_frame) {
            if self.write_sample(target_channel, target_frame, &value).is_some() {
                return true;
            }
        }
        false
    }

    fn swap_samples(
        &mut self,
        channel_a: usize,
        frame_a: usize,
        channel_b: usize,
        frame_b: usize,
    ) -> (swapped: bool)
        ensures
            final(final(self).spec_storage())@ == final(old(self).spec_storage())@,
            swapped <==> (channel_a < old(self).spec_channels() && frame_a < old(self).spec_frames()
                && channel_b < old(self).spec_channels() && frame_b < old(self).spec_frames()),
    {
        if let Some(value_a) = self.read_sample(channel_a, frame_a) {
            if let Some(value_b) = self.read_sample(channel_b, frame_b) {
                self.write_sample_unchecked(channel_b, frame_b, &value_a);
                self.write_sample_unchecked(channel_a, frame_a, &value_b);
                return true;
            }
        }
        false
    }

    fn copy_from_other(
        &mut self,
        other: &dyn Adapter<U::NumericType>,
        other_skip: usize,
        self_skip: usize,
        take: usize,
    ) -> (clipped: Option<usize>)
        ensures
            final(final(self).spec_storage())@ == final(old(self).spec_storage())@,
    {
        if other.channels() != self.channels() || take > self.frames() || self_skip > self.frames()
            - take || take > other.frames() || other_skip > other.frames() - take {
            return None;
        }
        let channels = self.channels();
        let mut clipped: usize = 0;
        let mut channel: usize = 0;
        while channel < channels
            invariant
                final(self.spec_storage())@ == final(old(self).spec_storage())@,
                self.wf(),
                other.wf(),
                channels == old(self).spec_channels(),
                other.spec_channels() == channels,
                self_skip + take <= old(self).spec_frames() <= usize::MAX,
                other_skip + take <= other.spec_frames() <= usize::MAX,
                channel <= channels,
                self.spec_channels() == old(self).spec_channels(),
                self.spec_frames() == old(self).spec_frames(),
                forall|c: int, f: int, v: U::NumericType|
                    #![trigger self.spec_stored(c, f, v)]
                    #![trigger old(self).spec_stored(c, f, v)]
                    self.spec_stored(c, f, v) == old(self).spec_stored(c, f, v),
                forall|c: int, f: int, v: U::NumericType|
                    #![trigger self.spec_clips(c, f, v)]
                    #![trigger old(self).spec_clips(c, f, v)]
                    self.spec_clips(c, f, v) == old(self).spec_clips(c, f, v),
                clipped == saturated(
                    sum_nat(
                        channel as int,
                        |c: int|
                            count_true(
                                take as int,
                                |j: int|
                                    old(self).spec_clips(c, self_skip + j, other.spec_sample(c, other_skip + j)),
                            ),
                    ),
                ),
                forall|c: int, f: int|
                    0 <= c < channel && self_skip <= f < self_skip + take ==> #[trigger] self.spec_sample(c, f)
                        == old(self).spec_stored(c, f, other.spec_sample(c, f - self_skip + other_skip)),
                forall|c: int, f: int|
                    #![trigger self.spec_sample(c, f)]
                    0 <= c < old(self).spec_channels() && 0 <= f < old(self).spec_frames() && !(c < channel && self_skip <= f < self_skip + take)
                        ==> self.spec_sample(c, f) == old(self).spec_sample(c, f),
            decreases channels - channel,
        {
            let ghost before = clipped;
            let mut frame: usize = 0;
            while frame < take
                invariant
                    final(self.spec_storage())@ == final(old(self).spec_storage())@,
                    self.wf(),
                    other.wf(),
                    channels == old(self).spec_channels(),
                    other.spec_channels() == channels,
                    self_skip + take <= old(self).spec_frames() <= usize::MAX,
                    other_skip + take <= other.spec_frames() <= usize::MAX,
                    channel < channels,
                    frame <= take,
                    before == saturated(
                        sum_nat(
                            channel as int,
                            |c: int|
                                count_true(
                                    take as int,
                                    |j: int|
                                        old(self).spec_clips(c, self_skip + j, other.spec_sample(c, other_skip + j)),
                                ),
                        ),
                    ),
                    clipped == saturated(
                        sum_nat(
                            channel as int,
                            |c: int|
                                count_true(
                                    take as int,
                                    |j: int|
                                        old(self).spec_clips(c, self_skip + j, other.spec_sample(c, other_skip + j)),
                                ),
                        ) + count_true(
                            frame as int,
                            |j: int|
                                old(self).spec_clips(channel as int, self_skip + j, other.spec_sample(channel as int, other_skip + j)),
                        ),
                    ),
                    self.spec_channels() == old(self).spec_channels(),
                    self.spec_frames() == old(self).spec_frames(),
                    forall|c: int, f: int, v: U::NumericType|
                        #![trigger self.spec_stored(c, f, v)]
                        #![trigger old(self).spec_stored(c, f, v)]
                        self.spec_stored(c, f, v) == old(self).spec_stored(c, f, v),
                    forall|c: int, f: int, v: U::NumericType|
                        #![trigger self.spec_clips(c, f, v)]
                        #![trigger old(self).spec_clips(c, f, v)]
                        self.spec_clips(c, f, v) == old(self).spec_clips(c, f, v),
                    forall|c: int, f: int|
                        ((0 <= c < channel && self_skip <= f < self_skip + take) || (c == channel
                            && self_skip <= f < self_skip + frame)) ==> #[trigger] self.spec_sample(c, f)
                            == old(self).spec_stored(c, f, other.spec_sample(c, f - self_skip + other_skip)),
                    forall|c: int, f: int|
                        #![trigger self.spec_sample(c, f)]
                        0 <= c < old(self).spec_channels() && 0 <= f < old(self).spec_frames() && !((c < channel && self_skip <= f < self_skip + take) || (c == channel && self_skip <= f < self_skip + frame))
                            ==> self.spec_sample(c, f) == old(self).spec_sample(c, f),
                decreases take - frame,
            {
                let value = other.read_sample_unchecked(channel, frame + other_skip);
                let c = self.write_sample_unchecked(channel, frame + self_skip, &value);
                if c && clipped < usize::MAX {
                    clipped += 1;
                }
                frame += 1;
            }
            channel += 1;
        }
        Some(clipped)
    }
}

/// A wrapper for a slice of bytes holding samples in the format `U`,
/// stored in _sequential_ order, where
/// all the samples of one channel are stored consecutively,
/// followed by the samples of the next channel.
/// Samples are read as `U::NumericType` numbers, and numbers are written as the
/// bytes of `U`.
pub struct SequentialBytes<'a, U, V> {
    buf: V,
    frames: usize,
    channels: usize,
    format: PhantomData<&'a U>,
}

impl<'a, U: BytesSample, V> SequentialBytes<'a, U, V> {
    fn byte_index(&self, channel: usize, frame: usize) -> (start: usize)
        requires
            channel < self.channels,
            frame < self.frames,
            self.frames * self.channels * U::BYTES_PER_SAMPLE <= usize::MAX,
        ensures
            start == ((channel) * self.frames + (frame)) * U::BYTES_PER_SAMPLE,
            start + U::BYTES_PER_SAMPLE <= self.frames * self.channels * U::BYTES_PER_SAMPLE,
    {
        proof {
            U::lemma_sample_slice_fits();
            assert(self.frames * self.channels <= self.frames * self.channels * U::BYTES_PER_SAMPLE)
                by (nonlinear_arith)
                requires
                    U::BYTES_PER_SAMPLE > 0,
            ;
            lemma_grid_index(frame as int, channel as int, self.frames as int, self.channels as int);
            lemma_sample_bytes(
                (channel as int) * self.frames as int + (frame as int),
                (self.frames * self.channels) as int,
                U::BYTES_PER_SAMPLE as int,
            );
        }
        ((channel) * self.frames + (frame)) * U::BYTES_PER_SAMPLE
    }
}

impl<'a, U: BytesSample> SequentialBytes<'a, U, &'a [u8]> {
    /// Create a new wrapper for an immutable slice of bytes, holding samples
    /// in the format `U`, stored in _sequential_ order.
    /// The slice length must be at least `U::BYTES_PER_SAMPLE * frames * channels`.
    /// It is allowed to be longer than needed,
    /// but these extra bytes cannot be accessed via the trait methods.
    pub fn new(buf: &'a [u8], channels: usize, frames: usize) -> (r: Result<Self, SizeError>)
        ensures
            r is Ok <==> channels * frames * U::BYTES_PER_SAMPLE <= buf@.len(),
            r is Err ==> r == Err::<Self, SizeError>(
                SizeError::Total {
                    actual: buf@.len() as usize,
                    required: saturating(channels * frames * U::BYTES_PER_SAMPLE),
                },
            ),
            r matches Ok(w) ==> {
                &&& w.wf()
                &&& w.spec_channels() == channels
                &&& w.spec_frames() == frames
                &&& forall|c: int, f: int|
                    0 <= c < channels && 0 <= f < frames ==> #[trigger] w.spec_sample(c, f) == U::spec_decode(
                        buf@.subrange(
                            ((c) * frames + (f)) * (U::BYTES_PER_SAMPLE as int),
                            ((c) * frames + (f)) * (U::BYTES_PER_SAMPLE as int) + (U::BYTES_PER_SAMPLE as int),
                        ),
                    )
            },
    {
        match check_total(buf.len(), channels, frames, U::BYTES_PER_SAMPLE) {
            Ok(()) => {
                proof {
                    assert(channels * frames * U::BYTES_PER_SAMPLE == frames * channels * U::BYTES_PER_SAMPLE)
                        by (nonlinear_arith);
                }
                Ok(Self { buf, frames, channels, format: PhantomData })
            },
            Err(e) => Err(e),
        }
    }
}

impl<'a, U: BytesSample> Adapter<U::NumericType> for SequentialBytes<'a, U, &'a [u8]> {
    closed spec fn wf(&self) -> bool {
        self.frames * self.channels * U::BYTES_PER_SAMPLE <= self.buf@.len() <= usize::MAX
    }

    closed spec fn spec_channels(&self) -> nat {
        self.channels as nat
    }

    closed spec fn spec_frames(&self) -> nat {
        self.frames as nat
    }

    closed spec fn spec_sample(&self, channel: int, frame: int) -> U::NumericType {
        U::spec_decode(
            self.buf@.subrange(
                ((channel) * self.frames + (frame)) * (U::BYTES_PER_SAMPLE as int),
                ((channel) * self.frames + (frame)) * (U::BYTES_PER_SAMPLE as int) + (U::BYTES_PER_SAMPLE as int),
            ),
        )
    }

    fn read_sample_unchecked(&self, channel: usize, frame: usize) -> (value: U::NumericType) {
        let start = self.byte_index(channel, frame);
        proof {
            U::lemma_sample_slice_fits();
        }
        let sample = U::from_slice(&self.buf[start..start + U::BYTES_PER_SAMPLE]);
        proof {
            assert(self.buf@.subrange(start as int, start + U::BYTES_PER_SAMPLE).subrange(0, U::BYTES_PER_SAMPLE as int)
                =~= self.buf@.subrange(start as int, start + U::BYTES_PER_SAMPLE));
        }
        sample.to_number()
    }

    fn channels(&self) -> (n: usize) {
        self.channels
    }

    fn frames(&self) -> (n: usize) {
        self.frames
    }
}

impl<'a, U: BytesSample> SequentialBytes<'a, U, &'a mut [u8]> {
    /// The wrapped storage, through which the samples are written to the caller's buffer.
    pub closed spec fn spec_storage(&self) -> &'a mut [u8] {
        self.buf
    }

    /// Once the wrapper is no longer used, the wrapped bytes hold its samples
    /// channel by channel.
    pub proof fn lemma_storage(&self)
        requires
            self.wf(),
            has_resolved(*self),
        ensures
            forall|c: int, f: int|
                0 <= c < self.spec_channels() && 0 <= f < self.spec_frames() ==> U::spec_decode(
                    final(self.spec_storage())@.subrange((c * self.spec_frames() + f) * (U::BYTES_PER_SAMPLE as int), (c * self.spec_frames() + f) * (U::BYTES_PER_SAMPLE as int) + (U::BYTES_PER_SAMPLE as int)),
                ) == #[trigger] self.spec_sample(c, f),
    {
    }

    /// Create a new wrapper for a mutable slice of bytes, holding samples
    /// in the format `U`, stored in _sequential_ order.
    /// The slice length must be at least `U::BYTES_PER_SAMPLE * frames * channels`.
    /// It is allowed to be longer than needed,
    /// but these extra bytes cannot be accessed via the trait methods.
    pub fn new_mut(buf: &'a mut [u8], channels: usize, frames: usize) -> (r: Result<Self, SizeError>)
        ensures
            r is Ok <==> channels * frames * U::BYTES_PER_SAMPLE <= old(buf)@.len(),
            r is Err ==> r == Err::<Self, SizeError>(
                SizeError::Total {
                    actual: old(buf)@.len() as usize,
                    required: saturating(channels * frames * U::BYTES_PER_SAMPLE),
                },
            ),
            r is Err ==> final(buf)@ == old(buf)@,
            r matches Ok(w) ==> {
                &&& final(w.spec_storage())@ == final(buf)@
                &&& w.wf()
                &&& w.spec_channels() == channels
                &&& w.spec_frames() == frames
                &&& forall|c: int, f: int|
                    0 <= c < channels && 0 <= f < frames ==> #[trigger] w.spec_sample(c, f) == U::spec_decode(
                        old(buf)@.subrange(
                            ((c) * frames + (f)) * (U::BYTES_PER_SAMPLE as int),
                            ((c) * frames + (f)) * (U::BYTES_PER_SAMPLE as int) + (U::BYTES_PER_SAMPLE as int),
                        ),
                    )
            },
    {
        match check_total(buf.len(), channels, frames, U::BYTES_PER_SAMPLE) {
            Ok(()) => {
                proof {
                    assert(channels * frames * U::BYTES_PER_SAMPLE == frames * channels * U::BYTES_PER_SAMPLE)
                        by (nonlinear_arith);
                }
                Ok(Self { buf, frames, channels, format: PhantomData })
            },
            Err(e) => Err(e),
        }
    }
}

impl<'a, U: BytesSample> Adapter<U::NumericType> for SequentialBytes<'a, U, &'a mut [u8]> {
    closed spec fn wf(&self) -> bool {
        self.frames * self.channels * U::BYTES_PER_SAMPLE <= self.buf@.len() <= usize::MAX
    }

    closed spec fn spec_channels(&self) -> nat {
        self.channels as nat
    }

    closed spec fn spec_frames(&self) -> nat {
        self.frames as nat
    }

    closed spec fn spec_sample(&self, channel: int, frame: int) -> U::NumericType {
        U::spec_decode(
            self.buf@.subrange(
                ((channel) * self.frames + (frame)) * (U::BYTES_PER_SAMPLE as int),
                ((channel) * self.frames + (frame)) * (U::BYTES_PER_SAMPLE as int) + (U::BYTES_PER_SAMPLE as int),
            ),
        )
    }

    fn read_sample_unchecked(&self, channel: usize, frame: usize) -> (value: U::NumericType) {
        let start = self.byte_index(channel, frame);
        proof {
            U::lemma_sample_slice_fits();
        }
        let sample = U::from_slice(&self.buf[start..start + U::BYTES_PER_SAMPLE]);
        proof {
            assert(self.buf@.subrange(start as int, start + U::BYTES_PER_SAMPLE).subrange(0, U::BYTES_PER_SAMPLE as int)
                =~= self.buf@.subrange(start as int, start + U::BYTES_PER_SAMPLE));
        }
        sample.to_number()
    }

    fn channels(&self) -> (n: usize) {
        self.channels
    }

    fn frames(&self) -> (n: usize) {
        self.frames
    }
}

impl<'a, U: BytesSample> AdapterMut<U::NumericType> for SequentialBytes<'a, U, &'a mut [u8]> {
    open spec fn spec_stored(&self, channel: int, frame: int, value: U::NumericType) -> U::NumericType {
        U::spec_decode(U::spec_encode(value))
    }

    open spec fn spec_clips(&self, channel: int, frame: int, value: U::NumericType) -> bool {
        false
    }

    fn write_sample_unchecked(&mut self, channel: usize, frame: usize, value: &U::NumericType) -> (clipped: bool)
        ensures
            final(final(self).spec_storage())@ == final(old(self).spec_storage())@,
            final(self).spec_storage()@.len() == old(self).spec_storage()@.len(),
            final(self).spec_storage()@.subrange(
                (channel * old(self).spec_frames() + frame) * (U::BYTES_PER_SAMPLE as int),
                (channel * old(self).spec_frames() + frame) * (U::BYTES_PER_SAMPLE as int) + (U::BYTES_PER_SAMPLE as int),
            ) == U::spec_encode(*value),
    {
        let start = self.byte_index(channel, frame);
        let sample = U::from_number(*value);
        let bytes = sample.as_slice();
        let size = U::BYTES_PER_SAMPLE;
        let mut i: usize = 0;
        while i < size
            invariant
                final(self.spec_storage())@ == final(old(self).spec_storage())@,
                self.channels == old(self).channels,
                self.frames == old(self).frames,
                self.buf@.len() == old(self).buf@.len(),
                self.buf@.len() <= usize::MAX,
                bytes@.len() == size,
                size == U::BYTES_PER_SAMPLE,
                start + size <= self.frames * self.channels * size,
                self.frames * self.channels * size <= self.buf@.len(),
                i <= size,
                forall|j: int| 0 <= j < i ==> #[trigger] self.buf@[start + j] == bytes@[j],
                forall|j: int|
                    0 <= j < self.buf@.len() && !(start <= j < start + i) ==> #[trigger] self.buf@[j] == old(self).buf@[j],
            decreases size - i,
        {
            self.buf[start + i] = bytes[i];
            i += 1;
        }
        proof {
            assert forall|j: int| 0 <= j < size implies #[trigger] self.buf@.subrange(start as int, start + size)[j]
                == U::spec_encode(*value)[j] by {
                assert(self.buf@[start + j] == bytes@[j]);
            }
            assert(self.buf@.subrange(start as int, start + size) =~= U::spec_encode(*value));
            assert forall|c: int, f: int|
                0 <= c < self.channels && 0 <= f < self.frames && !(c == channel && f == frame)
                    implies #[trigger] self.spec_sample(c, f) == old(self).spec_sample(c, f) by {
                let k = (c) * self.frames as int + (f);
                let here = (channel as int) * self.frames as int + (frame as int);
                lemma_grid_index(f, c, self.frames as int, self.channels as int);
                lemma_grid_index(frame as int, channel as int, self.frames as int, self.channels as int);
                if k == here {
                    lemma_grid_index_unique(f, c, frame as int, channel as int, self.frames as int);
                }
                lemma_sample_bytes(k, (self.frames * self.channels) as int, size as int);
                assert forall|j: int| k * size <= j < k * size + size implies #[trigger] self.buf@[j] == old(self).buf@[j] by {
                    lemma_sample_bytes_disjoint(k, here, size as int, j);
                }
                assert(self.buf@.subrange(k * size, k * size + size) =~= old(self).buf@.subrange(k * size, k * size + size));
            }
        }
        false
    }

    fn write_sample(&mut self, channel: usize, frame: usize, value: &U::NumericType) -> (clipped: Option<bool>)
        ensures
            final(final(self).spec_storage())@ == final(old(self).spec_storage())@,
    {
        if channel >= self.channels() || frame >= self.frames() {
            return None;
        }
        Some(self.write_sample_unchecked(channel, frame, value))
    }

    fn copy_from_slice_to_channel(&mut self, channel: usize, skip: usize, slice: &[U::NumericType]) -> (r: (
        usize,
        usize,
    ))
        ensures
            final(final(self).spec_storage())@ == final(old(self).spec_storage())@,
    {
        if channel >= self.channels() || skip >= self.frames() {
            return (0, 0);
        }
        let n = if self.frames() - skip < slice.len() {
            self.frames() - skip
        } else {
            slice.len()
        };
        let mut clipped: usize = 0;
        let mut i: usize = 0;
        while i < n
            invariant
                final(self.spec_storage())@ == final(old(self).spec_storage())@,
                self.wf(),
                channel < old(self).spec_channels(),
                skip + n <= old(self).spec_frames() <= usize::MAX,
                n <= slice@.len(),
                i <= n,
                clipped <= i,
                self.spec_channels() == old(self).spec_channels(),
                self.spec_frames() == old(self).spec_frames(),
                forall|c: int, f: int, v: U::NumericType|
                    #![trigger self.spec_stored(c, f, v)]
                    #![trigger old(self).spec_stored(c, f, v)]
                    self.spec_stored(c, f, v) == old(self).spec_stored(c, f, v),
                forall|c: int, f: int, v: U::NumericType|
                    #![trigger self.spec_clips(c, f, v)]
                    #![trigger old(self).spec_clips(c, f, v)]
                    self.spec_clips(c, f, v) == old(self).spec_clips(c, f, v),
                forall|j: int|
                    0 <= j < i ==> #[trigger] self.spec_sample(channel as int, skip + j) == old(self).spec_stored(
                        channel as int, skip + j,
                        slice@[j],
                    ),
                forall|c: int, f: int|
                    #![trigger self.spec_sample(c, f)]
                    0 <= c < old(self).spec_channels() && 0 <= f < old(self).spec_frames() && !(c == channel && skip <= f < skip + i)
                        ==> self.spec_sample(c, f) == old(self).spec_sample(c, f),
                clipped == count_true(i as int, |j: int| old(self).spec_clips(channel as int, skip + j, slice@[j])),
            decreases n - i,
        {
            let value = slice[i];
            let c = self.write_sample_unchecked(channel, skip + i, &value);
            if c {
                clipped += 1;
            }
            i += 1;
        }
        (n, clipped)
    }

    fn copy_from_slice_to_frame(&mut self, frame: usize, skip: usize, slice: &[U::NumericType]) -> (r: (
        usize,
        usize,
    ))
        ensures
            final(final(self).spec_storage())@ == final(old(self).spec_storage())@,
    {
        if frame >= self.frames() || skip >= self.channels() {
            return (0, 0);
        }
        let n = if self.channels() - skip < slice.len() {
            self.channels() - skip
        } else {
            slice.len()
        };
        let mut clipped: usize = 0;
        let mut i: usize = 0;
        while i < n
            invariant
                final(self.spec_storage())@ == final(old(self).spec_storage())@,
                self.wf(),
                frame < old(self).spec_frames(),
                skip + n <= old(self).spec_channels() <= usize::MAX,
                n <= slice@.len(),
                i <= n,
                clipped <= i,
                self.spec_channels() == old(self).spec_channels(),
                self.spec_frames() == old(self).spec_frames(),
                forall|c: int, f: int, v: U::NumericType|
                    #![trigger self.spec_stored(c, f, v)]
                    #![trigger old(self).spec_stored(c, f, v)]
                    self.spec_stored(c, f, v) == old(self).spec_stored(c, f, v),
                forall|c: int, f: int, v: U::NumericType|
                    #![trigger self.spec_clips(c, f, v)]
                    #![trigger old(self).spec_clips(c, f, v)]
                    self.spec_clips(c, f, v) == old(self).spec_clips(c, f, v),
                forall|j: int|
                    0 <= j < i ==> #[trigger] self.spec_sample(skip + j, frame as int) == old(self).spec_stored(
                        skip + j, frame as int,
                        slice@[j],
                    ),
                forall|c: int, f: int|
                    #![trigger self.spec_sample(c, f)]
                    0 <= c < old(self).spec_channels() && 0 <= f < old(self).spec_frames() && !(f == frame && skip <= c < skip + i)
                        ==> self.spec_sample(c, f) == old(self).spec_sample(c, f),
                clipped == count_true(i as int, |j: int| old(self).spec_clips(skip + j, frame as int, slice@[j])),
            decreases n - i,
        {
            let value = slice[i];
            let c = self.write_sample_unchecked(skip + i, frame, &value);
            if c {
                clipped += 1;
            }
            i += 1;
        }
        (n, clipped)
    }

    fn copy_from_other_to_channel(
        &mut self,
        other: &dyn Adapter<U::NumericType>,
        other_channel: usize,
        self_channel: usize,
        other_skip: usize,
        self_skip: usize,
        take: usize,
    ) -> (clipped: Option<usize>)
        ensures
            final(final(self).spec_storage())@ == final(old(self).spec_storage())@,
    {
        if self_channel >= self.channels() || take > self.frames() || self_skip > self.frames()
            - take || other_channel >= other.channels() || take > other.frames() || other_skip
            > other.frames() - take {
            return None;
        }
        let mut clipped: usize = 0;
        let mut i: usize = 0;
        while i < take
            invariant
                final(self.spec_storage())@ == final(old(self).spec_storage())@,
                self.wf(),
                other.wf(),
                self_channel < old(self).spec_channels(),
                self_skip + take <= old(self).spec_frames() <= usize::MAX,
                other_channel < other.spec_channels(),
                other_skip + take <= other.spec_frames() <= usize::MAX,
                i <= take,
                clipped <= i,
                self.spec_channels() == old(self).spec_channels(),
                self.spec_frames() == old(self).spec_frames(),
                forall|c: int, f: int, v: U::NumericType|
                    #![trigger self.spec_stored(c, f, v)]
                    #![trigger old(self).spec_stored(c, f, v)]
                    self.spec_stored(c, f, v) == old(self).spec_stored(c, f, v),
                forall|c: int, f: int, v: U::NumericType|
                    #![trigger self.spec_clips(c, f, v)]
                    #![trigger old(self).spec_clips(c, f, v)]
                    self.spec_clips(c, f, v) == old(self).spec_clips(c, f, v),
                forall|j: int|
                    0 <= j < i ==> #[trigger] self.spec_sample(self_channel as int, self_skip + j)
                        == old(self).spec_stored(
                        self_channel as int,
                        self_skip + j,
                        other.spec_sample(other_channel as int, other_skip + j),
                    ),
                forall|c: int, f: int|
                    #![trigger self.spec_sample(c, f)]
                    0 <= c < old(self).spec_channels() && 0 <= f < old(self).spec_frames() && !(c == self_channel && self_skip <= f < self_skip + i)
                        ==> self.spec_sample(c, f) == old(self).spec_sample(c, f),
                clipped == count_true(
                    i as int,
                    |j: int|
                        old(self).spec_clips(
                            self_channel as int,
                            self_skip + j,
                            other.spec_sample(other_channel as int, other_skip + j),
                        ),
                ),
            decreases take - i,
        {
            let value = other.read_sample_unchecked(other_channel, other_skip + i);
            let c = self.write_sample_unchecked(self_channel, self_skip + i, &value);
            if c {
                clipped += 1;
            }
            i += 1;
        }
        Some(clipped)
    }

    fn fill_channel_with(&mut self, channel: usize, value: &U::NumericType) -> (done: Option<()>)
        ensures
            final(final(self).spec_storage())@ == final(old(self).spec_storage())@,
    {
        if channel >= self.channels() {
            return None;
        }
        let frames = self.frames();
        let mut frame: usize = 0;
        while frame < frames
            invariant
                final(self.spec_storage())@ == final(old(self).spec_storage())@,
                self.wf(),
                channel < old(self).spec_channels(),
                frames == old(self).spec_frames(),
                frame <= frames,
                self.spec_channels() == old(self).spec_channels(),
                self.spec_frames() == old(self).spec_frames(),
                forall|c: int, f: int, v: U::NumericType|
                    #![trigger self.spec_stored(c, f, v)]
                    #![trigger old(self).spec_stored(c, f, v)]
                    self.spec_stored(c, f, v) == old(self).spec_stored(c, f, v),
                forall|c: int, f: int, v: U::NumericType|
                    #![trigger self.spec_clips(c, f, v)]
                    #![trigger old(self).spec_clips(c, f, v)]
                    self.spec_clips(c, f, v) == old(self).spec_clips(c, f, v),
                forall|f: int|
                    0 <= f < frame ==> #[trigger] self.spec_sample(channel as int, f)
                        == old(self).spec_stored(channel as int, f, *value),
                forall|c: int, f: int|
                    #![trigger self.spec_sample(c, f)]
                    0 <= c < old(self).spec_channels() && 0 <= f < old(self).spec_frames() && !(c == channel && f < frame)
                        ==> self.spec_sample(c, f) == old(self).spec_sample(c, f),
            decreases frames - frame,
        {
            self.write_sample_unchecked(channel, frame, value);
            frame += 1;
        }
        Some(())
    }

    fn fill_frame_with(&mut self, frame: usize, value: &U::NumericType) -> (done: Option<()>)
        ensures
            final(final(self).spec_storage())@ == final(old(self).spec_storage())@,
    {
        if frame >= self.frames() {
            return None;
        }
        let channels = self.channels();
        let mut channel: usize = 0;
        while channel < channels
            invariant
                final(self.spec_storage())@ == final(old(self).spec_storage())@,
                self.wf(),
                frame < old(self).spec_frames(),
                channels == old(self).spec_channels(),
                channel <= channels,
                self.spec_channels() == old(self).spec_channels(),
                self.spec_frames() == old(self).spec_frames(),
                forall|c: int, f: int, v: U::NumericType|
                    #![trigger self.spec_stored(c, f, v)]
                    #![trigger old(self).spec_stored(c, f, v)]
                    self.spec_stored(c, f, v) == old(self).spec_stored(c, f, v),
                forall|c: int, f: int, v: U::NumericType|
                    #![trigger self.spec_clips(c, f, v)]
                    #![trigger old(self).spec_clips(c, f, v)]
                    self.spec_clips(c, f, v) == old(self).spec_clips(c, f, v),
                forall|c: int|
                    0 <= c < channel ==> #[trigger] self.spec_sample(c, frame as int)
                        == old(self).spec_stored(c, frame as int, *value),
                forall|c: int, f: int|
                    #![trigger self.spec_sample(c, f)]
                    0 <= c < old(self).spec_channels() && 0 <= f < old(self).spec_frames() && !(f == frame && c < channel)
                        ==> self.spec_sample(c, f) == old(self).spec_sample(c, f),
            decreases channels - channel,
        {
            self.write_sample_unchecked(channel, frame, value);
            channel += 1;
        }
        Some(())
    }

    fn fill_frames_with(&mut self, start: usize, count: usize, value: &U::NumericType) -> (written: Option<
        usize,
    >)
        ensures
            final(final(self).spec_storage())@ == final(old(self).spec_storage())@,
    {
        if count > self.frames() || start > self.frames() - count {
            return None;
        }
        let channels = self.channels();
        let mut channel: usize = 0;
        while channel < channels
            invariant
                final(self.spec_storage())@ == final(old(self).spec_storage())@,
                self.wf(),
                start + count <= old(self).spec_frames() <= usize::MAX,
                channels == old(self).spec_channels(),
                channel <= channels,
                self.spec_channels() == old(self).spec_channels(),
                self.spec_frames() == old(self).spec_frames(),
                forall|c: int, f: int, v: U::NumericType|
                    #![trigger self.spec_stored(c, f, v)]
                    #![trigger old(self).spec_stored(c, f, v)]
                    self.spec_stored(c, f, v) == old(self).spec_stored(c, f, v),
                forall|c: int, f: int, v: U::NumericType|
                    #![trigger self.spec_clips(c, f, v)]
                    #![trigger old(self).spec_clips(c, f, v)]
                    self.spec_clips(c, f, v) == old(self).spec_clips(c, f, v),
                forall|c: int, f: int|
                    0 <= c < channel && start <= f < start + count ==> #[trigger] self.spec_sample(c, f)
                        == old(self).spec_stored(c, f, *value),
                forall|c: int, f: int|
                    #![trigger self.spec_sample(c, f)]
                    0 <= c < old(self).spec_channels() && 0 <= f < old(self).spec_frames() && !(c < channel && start <= f < start + count)
                        ==> self.spec_sample(c, f) == old(self).spec_sample(c, f),
            decreases channels - channel,
        {
            let mut frame: usize = start;
            while frame < start + count
                invariant
                    final(self.spec_storage())@ == final(old(self).spec_storage())@,
                    self.wf(),
                    start + count <= old(self).spec_frames() <= usize::MAX,
                    channels == old(self).spec_channels(),
                    channel < channels,
                    start <= frame <= start + count,
                    self.spec_channels() == old(self).spec_channels(),
                    self.spec_frames() == old(self).spec_frames(),
                    forall|c: int, f: int, v: U::NumericType|
                        #![trigger self.spec_stored(c, f, v)]
                        #![trigger old(self).spec_stored(c, f, v)]
                        self.spec_stored(c, f, v) == old(self).spec_stored(c, f, v),
                    forall|c: int, f: int, v: U::NumericType|
                        #![trigger self.spec_clips(c, f, v)]
                        #![trigger old(self).spec_clips(c, f, v)]
                        self.spec_clips(c, f, v) == old(self).spec_clips(c, f, v),
                    forall|c: int, f: int|
                        ((0 <= c < channel && start <= f < start + count) || (c == channel && start
                            <= f < frame)) ==> #[trigger] self.spec_sample(c, f)
                            == old(self).spec_stored(c, f, *value),
                    forall|c: int, f: int|
                        #![trigger self.spec_sample(c, f)]
                        0 <= c < old(self).spec_channels() && 0 <= f < old(self).spec_frames() && !((c < channel && start <= f < start + count) || (c == channel && start <= f < frame))
                            ==> self.spec_sample(c, f) == old(self).spec_sample(c, f),
                decreases start + count - frame,
            {
                self.write_sample_unchecked(channel, frame, value);
                frame += 1;
            }
            channel += 1;
        }
        Some(count)
    }

    fn fill_with(&mut self, value: &U::NumericType)
        ensures
            final(final(self).spec_storage())@ == final(old(self).spec_storage())@,
    {
        let channels = self.channels();
        let mut channel: usize = 0;
        while channel < channels
            invariant
                final(self.spec_storage())@ == final(old(self).spec_storage())@,
                self.wf(),
                channels == old(self).spec_channels(),
                channel <= channels,
                self.spec_channels() == old(self).spec_channels(),
                self.spec_frames() == old(self).spec_frames(),
                forall|c: int, f: int, v: U::NumericType|
                    #![trigger self.spec_stored(c, f, v)]
                    #![trigger old(self).spec_stored(c, f, v)]
                    self.spec_stored(c, f, v) == old(self).spec_stored(c, f, v),
                forall|c: int, f: int, v: U::NumericType|
                    #![trigger self.spec_clips(c, f, v)]
                    #![trigger old(self).spec_clips(c, f, v)]
                    self.spec_clips(c, f, v) == old(self).spec_clips(c, f, v),
                forall|c: int, f: int|
                    0 <= c < channel && 0 <= f < old(self).spec_frames() ==> #[trigger] self.spec_sample(c, f)
                        == old(self).spec_stored(c, f, *value),
            decreases channels - channel,
        {
            self.fill_channel_with(channel, value);
            channel += 1;
        }
    }

    fn copy_sample_within(
        &mut self,
        source_channel: usize,
        source_frame: usize,
        target_channel: usize,
        target_frame: usize,
    ) -> (copied: bool)
        ensures
            final(final(self).spec_storage())@ == final(old(self).spec_storage())@,
            copied <==> (source_channel < old(self).spec_channels() && source_frame
                < old(self).spec_frames() && target_channel < old(self).spec_channels() && target_frame
                < old(self).spec_frames()),
    {
        if let Some(value) = self.read_sample(source_channel, source_frame) {
            if self.write_sample(target_channel, target_frame, &value).is_some() {
                return true;
            }
        }
        false
    }

    fn swap_samples(
        &mut self,
        channel_a: usize,
        frame_a: usize,
        channel_b: usize,
        frame_b: usize,
    ) -> (swapped: bool)
        ensures
            final(final(self).spec_storage())@ == final(old(self).spec_storage())@,
            swapped <==> (channel_a < old(self).spec_channels() && frame_a < old(self).spec_frames()
                && channel_b < old(self).spec_channels() && frame_b < old(self).spec_frames()),
    {
        if let Some(value_a) = self.read_sample(channel_a, frame_a) {
            if let Some(value_b) = self.read_sample(channel_b, frame_b) {
                self.write_sample_unchecked(channel_b, frame_b, &value_a);
                self.write_sample_unchecked(channel_a, frame_a, &value_b);
                return true;
            }
        }
        false
    }

    fn copy_from_other(
        &mut self,
        other: &dyn Adapter<U::NumericType>,
        other_skip: usize,
        self_skip: usize,
        take: usize,
    ) -> (clipped: Option<usize>)
        ensures
            final(final(self).spec_storage())@ == final(old(self).spec_storage())@,
    {
        if other.channels() != self.channels() || take > self.frames() || self_skip > self.frames()
            - take || take > other.frames() || other_skip > other.frames() - take {
            return None;
        }
        let channels = self.channels();
        let mut clipped: usize = 0;
        let mut channel: usize = 0;
        while channel < channels
            invariant
                final(self.spec_storage())@ == final(old(self).spec_storage())@,
                self.wf(),
                other.wf(),
                channels == old(self).spec_channels(),
                other.spec_channels() == channels,
                self_skip + take <= old(self).spec_frames() <= usize::MAX,
                other_skip + take <= other.spec_frames() <= usize::MAX,
                channel <= channels,
                self.spec_channels() == old(self).spec_channels(),
                self.spec_frames() == old(self).spec_frames(),
                forall|c: int, f: int, v: U::NumericType|
                    #![trigger self.spec_stored(c, f, v)]
                    #![trigger old(self).spec_stored(c, f, v)]
                    self.spec_stored(c, f, v) == old(self).spec_stored(c, f, v),
                forall|c: int, f: int, v: U::NumericType|
                    #![trigger self.spec_clips(c, f, v)]
                    #![trigger old(self).spec_clips(c, f, v)]
                    self.spec_clips(c, f, v) == old(self).spec_clips(c, f, v),
                clipped == saturated(
                    sum_nat(
                        channel as int,
                        |c: int|
                            count_true(
                                take as int,
                                |j: int|
                                    old(self).spec_clips(c, self_skip + j, other.spec_sample(c, other_skip + j)),
                            ),
                    ),
                ),
                forall|c: int, f: int|
                    0 <= c < channel && self_skip <= f < self_skip + take ==> #[trigger] self.spec_sample(c, f)
                        == old(self).spec_stored(c, f, other.spec_sample(c, f - self_skip + other_skip)),
                forall|c: int, f: int|
                    #![trigger self.spec_sample(c, f)]
                    0 <= c < old(self).spec_channels() && 0 <= f < old(self).spec_frames() && !(c < channel && self_skip <= f < self_skip + take)
                        ==> self.spec_sample(c, f) == old(self).spec_sample(c, f),
            decreases channels - channel,
        {
            let ghost before = clipped;
            let mut frame: usize = 0;
            while frame < take
                invariant
                    final(self.spec_storage())@ == final(old(self).spec_storage())@,
                    self.wf(),
                    other.wf(),
                    channels == old(self).spec_channels(),
                    other.spec_channels() == channels,
                    self_skip + take <= old(self).spec_frames() <= usize::MAX,
                    other_skip + take <= other.spec_frames() <= usize::MAX,
                    channel < channels,
                    frame <= take,
                    before == saturated(
                        sum_nat(
                            channel as int,
                            |c: int|
                                count_true(
                                    take as int,
                                    |j: int|
                                        old(self).spec_clips(c, self_skip + j, other.spec_sample(c, other_skip + j)),
                                ),
                        ),
                    ),
                    clipped == saturated(
                        sum_nat(
                            channel as int,
                            |c: int|
                                count_true(
                                    take as int,
                                    |j: int|
                                        old(self).spec_clips(c, self_skip + j, other.spec_sample(c, other_skip + j)),
                                ),
                        ) + count_true(
                            frame as int,
                            |j: int|
                                old(self).spec_clips(channel as int, self_skip + j, other.spec_sample(channel as int, other_skip + j)),
                        ),
                    ),
                    self.spec_channels() == old(self).spec_channels(),
                    self.spec_frames() == old(self).spec_frames(),
                    forall|c: int, f: int, v: U::NumericType|
                        #![trigger self.spec_stored(c, f, v)]
                        #![trigger old(self).spec_stored(c, f, v)]
                        self.spec_stored(c, f, v) == old(self).spec_stored(c, f, v),
                    forall|c: int, f: int, v: U::NumericType|
                        #![trigger self.spec_clips(c, f, v)]
                        #![trigger old(self).spec_clips(c, f, v)]
                        self.spec_clips(c, f, v) == old(self).spec_clips(c, f, v),
                    forall|c: int, f: int|
                        ((0 <= c < channel && self_skip <= f < self_skip + take) || (c == channel
                            && self_skip <= f < self_skip + frame)) ==> #[trigger] self.spec_sample(c, f)
                            == old(self).spec_stored(c, f, other.spec_sample(c, f - self_skip + other_skip)),
                    forall|c: int, f: int|
                        #![trigger self.spec_sample(c, f)]
                        0 <= c < old(self).spec_channels() && 0 <= f < old(self).spec_frames() && !((c < channel && self_skip <= f < self_skip + take) || (c == channel && self_skip <= f < self_skip + frame))
                            ==> self.spec_sample(c, f) == old(self).spec_sample(c, f),
                decreases take - frame,
            {
                let value = other.read_sample_unchecked(channel, frame + other_skip);
                let c = self.write_sample_unchecked(channel, frame + self_skip, &value);
                if c && clipped < usize::MAX {
                    clipped += 1;
                }
                frame += 1;
            }
            channel += 1;
        }
        Some(clipped)
    }
}


/// A `InterleavedBytes` stores what its format encodes: a position reads back the number
/// that the bytes written for a value stand for, and no write clips.
pub proof fn law_interleaved_bytes_store<'a, U: BytesSample>(
    buffer: &InterleavedBytes<'a, U, &'a mut [u8]>,
    channel: int,
    frame: int,
    value: U::NumericType,
)
    ensures
        buffer.spec_stored(channel, frame, value) == U::spec_decode(U::spec_encode(value)),
        !buffer.spec_clips(channel, frame, value),
{
}


/// A `SequentialBytes` stores what its format encodes: a position reads back the number
/// that the bytes written for a value stand for, and no write clips.
pub proof fn law_sequential_bytes_store<'a, U: BytesSample>(
    buffer: &SequentialBytes<'a, U, &'a mut [u8]>,
    channel: int,
    frame: int,
    value: U::NumericType,
)
    ensures
        buffer.spec_stored(channel, frame, value) == U::spec_decode(U::spec_encode(value)),
        !buffer.spec_clips(channel, frame, value),
{
}

} // verus!

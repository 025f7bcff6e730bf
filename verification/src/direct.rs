//! Wrappers that give direct access to samples stored in slices and vectors.
//!
//! These wrap data structures where the samples are already stored in the
//! desired format, so values are read and written unchanged.
//! Each wrapper exists in an _interleaved_ and a _sequential_ version:
//! interleaved data stores all the samples of a frame together, one frame after
//! the other, sequential data stores all the samples of a channel together.
use vstd::prelude::*;

use crate::slicetools::copy_within_slice;
use crate::traits::{copy_span, count_true, lemma_count_true_none, saturated, sum_nat, Adapter, AdapterMut};
use crate::{check_total, saturating, SizeError};

verus! {

/// The position of element (`minor`, `major`) in a row-major grid with `minors`
/// elements per row lies inside the grid.
pub proof fn lemma_grid_index(minor: int, major: int, minors: int, majors: int)
    requires
        0 <= minor < minors,
        0 <= major < majors,
    ensures
        0 <= major * minors + minor < majors * minors,
        majors * minors == minors * majors,
{
    assert(major * minors + minor < majors * minors) by (nonlinear_arith)
        requires
            0 <= minor < minors,
            0 <= major < majors,
    ;
    assert(0 <= major * minors) by (nonlinear_arith)
        requires
            0 <= minors,
            0 <= major,
    ;
    assert(majors * minors == minors * majors) by (nonlinear_arith);
}

/// Two elements of a row-major grid share a position only if they are the same element.
pub proof fn lemma_grid_index_unique(minor1: int, major1: int, minor2: int, major2: int, minors: int)
    requires
        0 <= minor1 < minors,
        0 <= minor2 < minors,
        0 <= major1,
        0 <= major2,
        major1 * minors + minor1 == major2 * minors + minor2,
    ensures
        minor1 == minor2,
        major1 == major2,
{
    if major1 < major2 {
        assert(major1 * minors + minors <= major2 * minors) by (nonlinear_arith)
            requires
                major1 < major2,
                0 <= minors,
        ;
    } else if major2 < major1 {
        assert(major2 * minors + minors <= major1 * minors) by (nonlinear_arith)
            requires
                major2 < major1,
                0 <= minors,
        ;
    }
}

/// Moving whole rows in a row-major grid: element (`minor`, `major`) lies in the rows
/// `lo..lo + n` exactly when its position lies in the positions of those rows, and
/// shifting the rows from `lo` to `to` shifts its position by whole rows.
pub proof fn lemma_grid_rows(minor: int, major: int, minors: int, lo: int, n: int, to: int)
    requires
        0 <= minor < minors,
        0 <= major,
        0 <= lo,
        0 <= n,
    ensures
        (lo <= major < lo + n) <==> (lo * minors <= major * minors + minor < (lo + n) * minors),
        major * minors + minor - lo * minors + to * minors == (major - lo + to) * minors + minor,
{
    assert(major * minors + minor - lo * minors + to * minors == (major - lo + to) * minors + minor)
        by (nonlinear_arith);
    if lo <= major < lo + n {
        assert(lo * minors <= major * minors) by (nonlinear_arith)
            requires
                lo <= major,
                0 <= minors,
        ;
        assert(major * minors + minors <= (lo + n) * minors) by (nonlinear_arith)
            requires
                major + 1 <= lo + n,
                0 <= minors,
        ;
    } else if major < lo {
        assert(major * minors + minors <= lo * minors) by (nonlinear_arith)
            requires
                major + 1 <= lo,
                0 <= minors,
        ;
    } else {
        assert((lo + n) * minors <= major * minors) by (nonlinear_arith)
            requires
                lo + n <= major,
                0 <= minors,
        ;
    }
}

/// Wrapper for a slice of length `frames * channels`.
/// The samples are stored in _interleaved_ order,
/// where all the samples for one frame are stored consecutively,
/// followed by the samples for the next frame.
/// For a stereo buffer containing four frames, the order is
/// `L1, R1, L2, R2, L3, R3, L4, R4`
pub struct InterleavedSlice<U> {
    buf: U,
    frames: usize,
    channels: usize,
}

impl<U> InterleavedSlice<U> {
    fn calc_index(&self, channel: usize, frame: usize) -> (index: usize)
        requires
            channel < self.channels,
            frame < self.frames,
            self.frames * self.channels <= usize::MAX,
        ensures
            index == frame * self.channels + channel,
            index < self.frames * self.channels,
    {
        proof {
            lemma_grid_index(channel as int, frame as int, self.channels as int, self.frames as int);
        }
        frame * self.channels + channel
    }
}

impl<'a, T: Copy> InterleavedSlice<&'a [T]> {
    /// Create a new `InterleavedSlice` to wrap a slice.
    /// The slice length must be at least `frames*channels`.
    /// It is allowed to be longer than needed,
    /// but these extra values cannot be accessed via the trait methods.
    pub fn new(buf: &'a [T], channels: usize, frames: usize) -> (r: Result<Self, SizeError>)
        ensures
            r is Ok <==> channels * frames <= buf@.len(),
            r is Err ==> r == Err::<Self, SizeError>(
                SizeError::Total { actual: buf@.len() as usize, required: saturating(channels * frames) },
            ),
            r matches Ok(w) ==> {
                &&& w.wf()
                &&& w.spec_channels() == channels
                &&& w.spec_frames() == frames
                &&& forall|c: int, f: int|
                    0 <= c < channels && 0 <= f < frames ==> #[trigger] w.spec_sample(c, f)
                        == buf@[f * channels + c]
            },
    {
        match check_total(buf.len(), channels, frames, 1) {
            Ok(()) => {
                proof {
                    assert(channels * frames * 1 == frames * channels) by (nonlinear_arith);
                }
                Ok(Self { buf, frames, channels })
            },
            Err(e) => {
                proof {
                    assert(channels * frames * 1 == channels * frames) by (nonlinear_arith);
                }
                Err(e)
            },
        }
    }
}

impl<'a, T: Copy> Adapter<T> for InterleavedSlice<&'a [T]> {
    closed spec fn wf(&self) -> bool {
        self.frames * self.channels <= self.buf@.len() <= usize::MAX
    }

    closed spec fn spec_channels(&self) -> nat {
        self.channels as nat
    }

    closed spec fn spec_frames(&self) -> nat {
        self.frames as nat
    }

    closed spec fn spec_sample(&self, channel: int, frame: int) -> T {
        self.buf@[frame * self.channels + channel]
    }

    fn read_sample_unchecked(&self, channel: usize, frame: usize) -> (value: T) {
        let index = self.calc_index(channel, frame);
        self.buf[index]
    }

    fn channels(&self) -> (n: usize) {
        self.channels
    }

    fn frames(&self) -> (n: usize) {
        self.frames
    }
}

impl<'a, T: Copy> InterleavedSlice<&'a mut [T]> {
    /// The wrapped storage, through which the samples are written to the caller's buffer.
    pub closed spec fn spec_storage(&self) -> &'a mut [T] {
        self.buf
    }

    /// Once the wrapper is no longer used, the wrapped slice holds its samples
    /// frame by frame.
    pub proof fn lemma_storage(&self)
        requires
            self.wf(),
            has_resolved(*self),
        ensures
            forall|c: int, f: int|
                0 <= c < self.spec_channels() && 0 <= f < self.spec_frames() ==> final(self.spec_storage())@[f * self.spec_channels() + c] == #[trigger] self.spec_sample(c, f),
    {
    }

    /// Create a new `InterleavedSlice` to wrap a mutable slice.
    /// The slice length must be at least `frames*channels`.
    /// It is allowed to be longer than needed,
    /// but these extra values cannot be accessed via the trait methods.
    pub fn new_mut(buf: &'a mut [T], channels: usize, frames: usize) -> (r: Result<Self, SizeError>)
        ensures
            r is Ok <==> channels * frames <= old(buf)@.len(),
            r is Err ==> r == Err::<Self, SizeError>(
                SizeError::Total { actual: old(buf)@.len() as usize, required: saturating(channels * frames) },
            ),
            r is Err ==> final(buf)@ == old(buf)@,
            r matches Ok(w) ==> {
                &&& final(w.spec_storage())@ == final(buf)@
                &&& w.wf()
                &&& w.spec_channels() == channels
                &&& w.spec_frames() == frames
                &&& forall|c: int, f: int|
                    0 <= c < channels && 0 <= f < frames ==> #[trigger] w.spec_sample(c, f)
                        == old(buf)@[f * channels + c]
            },
    {
        match check_total(buf.len(), channels, frames, 1) {
            Ok(()) => {
                proof {
                    assert(channels * frames * 1 == frames * channels) by (nonlinear_arith);
                }
                Ok(Self { buf, frames, channels })
            },
            Err(e) => {
                proof {
                    assert(channels * frames * 1 == channels * frames) by (nonlinear_arith);
                }
                Err(e)
            },
        }
    }
}

impl<'a, T: Copy> Adapter<T> for InterleavedSlice<&'a mut [T]> {
    closed spec fn wf(&self) -> bool {
        self.frames * self.channels <= self.buf@.len() <= usize::MAX
    }

    closed spec fn spec_channels(&self) -> nat {
        self.channels as nat
    }

    closed spec fn spec_frames(&self) -> nat {
        self.frames as nat
    }

    closed spec fn spec_sample(&self, channel: int, frame: int) -> T {
        self.buf@[frame * self.channels + channel]
    }

    fn read_sample_unchecked(&self, channel: usize, frame: usize) -> (value: T) {
        let index = self.calc_index(channel, frame);
        self.buf[index]
    }

    fn channels(&self) -> (n: usize) {
        self.channels
    }

    fn frames(&self) -> (n: usize) {
        self.frames
    }
}

impl<'a, T: Copy> AdapterMut<T> for InterleavedSlice<&'a mut [T]> {
    open spec fn spec_stored(&self, channel: int, frame: int, value: T) -> T {
        value
    }

    open spec fn spec_clips(&self, channel: int, frame: int, value: T) -> bool {
        false
    }

    fn write_sample_unchecked(&mut self, channel: usize, frame: usize, value: &T) -> (clipped:
        bool)
        ensures
            final(final(self).spec_storage())@ == final(old(self).spec_storage())@,
    {
        let index = self.calc_index(channel, frame);
        self.buf[index] = *value;
        proof {
            assert forall|c: int, f: int|
                0 <= c < self.channels && 0 <= f < self.frames && !(c == channel && f == frame)
                    implies #[trigger] self.spec_sample(c, f) == old(self).spec_sample(c, f) by {
                lemma_grid_index(c, f, self.channels as int, self.frames as int);
                lemma_grid_index(f, c, self.frames as int, self.channels as int);
                if f * self.channels + c == index {
                    lemma_grid_index_unique(c, f, channel as int, frame as int, self.channels as int);
                }
            }
        }
        false
    }

    fn copy_frames_within(&mut self, src: usize, dest: usize, count: usize) -> (moved: Option<
        usize,
    >)
        ensures
            final(final(self).spec_storage())@ == final(old(self).spec_storage())@,
    {
        if count > self.frames || src > self.frames - count || dest > self.frames - count {
            return None;
        }
        proof {
            assert((src + count) * self.channels <= self.frames * self.channels) by (nonlinear_arith)
                requires
                    src + count <= self.frames,
            ;
            assert((dest + count) * self.channels <= self.frames * self.channels) by (nonlinear_arith)
                requires
                    dest + count <= self.frames,
            ;
            assert((src + count) * self.channels == src * self.channels + count * self.channels)
                by (nonlinear_arith);
            assert((dest + count) * self.channels == dest * self.channels + count * self.channels)
                by (nonlinear_arith);
        }
        copy_within_slice(
            self.buf,
            src * self.channels,
            dest * self.channels,
            count * self.channels,
        );
        proof {
            assert forall|c: int, f: int|
                0 <= c < self.channels && 0 <= f < self.frames implies #[trigger] self.spec_sample(c, f)
                    == (if src != dest && dest <= f < dest + count {
                    old(self).spec_sample(c, f - dest + src)
                } else {
                    old(self).spec_sample(c, f)
                }) by {
                lemma_grid_index(c, f, self.channels as int, self.frames as int);
                lemma_grid_rows(c, f, self.channels as int, dest as int, count as int, src as int);
                if dest <= f < dest + count {
                    lemma_grid_index(c, f - dest + src, self.channels as int, self.frames as int);
                }
            }
        }
        Some(count)
    }

    fn write_sample(&mut self, channel: usize, frame: usize, value: &T) -> (clipped: Option<bool>)
        ensures
            final(final(self).spec_storage())@ == final(old(self).spec_storage())@,
    {
        if channel >= self.channels() || frame >= self.frames() {
            return None;
        }
        Some(self.write_sample_unchecked(channel, frame, value))
    }

    fn copy_from_slice_to_channel(&mut self, channel: usize, skip: usize, slice: &[T]) -> (r: (
        usize,
        usize,
    ))
        ensures
            final(final(self).spec_storage())@ == final(old(self).spec_storage())@,
    {
        if channel >= self.channels() || skip >= self.frames() {
            return (0, 0);
        }
        let n = if self.frames() - skip < slice.len() {
            self.frames() - skip
        } else {
            slice.len()
        };
        let mut clipped: usize = 0;
        let mut i: usize = 0;
        while i < n
            invariant
                final(self.spec_storage())@ == final(old(self).spec_storage())@,
                self.wf(),
                channel < old(self).spec_channels(),
                skip + n <= old(self).spec_frames() <= usize::MAX,
                n <= slice@.len(),
                i <= n,
                clipped <= i,
                self.spec_channels() == old(self).spec_channels(),
                self.spec_frames() == old(self).spec_frames(),
                forall|c: int, f: int, v: T|
                    #![trigger self.spec_stored(c, f, v)]
                    #![trigger old(self).spec_stored(c, f, v)]
                    self.spec_stored(c, f, v) == old(self).spec_stored(c, f, v),
                forall|c: int, f: int, v: T|
                    #![trigger self.spec_clips(c, f, v)]
                    #![trigger old(self).spec_clips(c, f, v)]
                    self.spec_clips(c, f, v) == old(self).spec_clips(c, f, v),
                forall|j: int|
                    0 <= j < i ==> #[trigger] self.spec_sample(channel as int, skip + j) == old(self).spec_stored(
                        channel as int, skip + j,
                        slice@[j],
                    ),
                forall|c: int, f: int|
                    #![trigger self.spec_sample(c, f)]
                    0 <= c < old(self).spec_channels() && 0 <= f < old(self).spec_frames() && !(c == channel && skip <= f < skip + i)
                        ==> self.spec_sample(c, f) == old(self).spec_sample(c, f),
                clipped == count_true(i as int, |j: int| old(self).spec_clips(channel as int, skip + j, slice@[j])),
            decreases n - i,
        {
            let value = slice[i];
            let c = self.write_sample_unchecked(channel, skip + i, &value);
            if c {
                clipped += 1;
            }
            i += 1;
        }
        (n, clipped)
    }

    fn copy_from_slice_to_frame(&mut self, frame: usize, skip: usize, slice: &[T]) -> (r: (
        usize,
        usize,
    ))
        ensures
            final(final(self).spec_storage())@ == final(old(self).spec_storage())@,
    {
        if frame >= self.frames() || skip >= self.channels() {
            return (0, 0);
        }
        let n = if self.channels() - skip < slice.len() {
            self.channels() - skip
        } else {
            slice.len()
        };
        let mut clipped: usize = 0;
        let mut i: usize = 0;
        while i < n
            invariant
                final(self.spec_storage())@ == final(old(self).spec_storage())@,
                self.wf(),
                frame < old(self).spec_frames(),
                skip + n <= old(self).spec_channels() <= usize::MAX,
                n <= slice@.len(),
                i <= n,
                clipped <= i,
                self.spec_channels() == old(self).spec_channels(),
                self.spec_frames() == old(self).spec_frames(),
                forall|c: int, f: int, v: T|
                    #![trigger self.spec_stored(c, f, v)]
                    #![trigger old(self).spec_stored(c, f, v)]
                    self.spec_stored(c, f, v) == old(self).spec_stored(c, f, v),
                forall|c: int, f: int, v: T|
                    #![trigger self.spec_clips(c, f, v)]
                    #![trigger old(self).spec_clips(c, f, v)]
                    self.spec_clips(c, f, v) == old(self).spec_clips(c, f, v),
                forall|j: int|
                    0 <= j < i ==> #[trigger] self.spec_sample(skip + j, frame as int) == old(self).spec_stored(
                        skip + j, frame as int,
                        slice@[j],
                    ),
                forall|c: int, f: int|
                    #![trigger self.spec_sample(c, f)]
                    0 <= c < old(self).spec_channels() && 0 <= f < old(self).spec_frames() && !(f == frame && skip <= c < skip + i)
                        ==> self.spec_sample(c, f) == old(self).spec_sample(c, f),
                clipped == count_true(i as int, |j: int| old(self).spec_clips(skip + j, frame as int, slice@[j])),
            decreases n - i,
        {
            let value = slice[i];
            let c = self.write_sample_unchecked(skip + i, frame, &value);
            if c {
                clipped += 1;
            }
            i += 1;
        }
        (n, clipped)
    }

    fn copy_from_other_to_channel(
        &mut self,
        other: &dyn Adapter<T>,
        other_channel: usize,
        self_channel: usize,
        other_skip: usize,
        self_skip: usize,
        take: usize,
    ) -> (clipped: Option<usize>)
        ensures
            final(final(self).spec_storage())@ == final(old(self).spec_storage())@,
    {
        if self_channel >= self.channels() || take > self.frames() || self_skip > self.frames()
            - take || other_channel >= other.channels() || take > other.frames() || other_skip
            > other.frames() - take {
            return None;
        }
        let mut clipped: usize = 0;
        let mut i: usize = 0;
        while i < take
            invariant
                final(self.spec_storage())@ == final(old(self).spec_storage())@,
                self.wf(),
                other.wf(),
                self_channel < old(self).spec_channels(),
                self_skip + take <= old(self).spec_frames() <= usize::MAX,
                other_channel < other.spec_channels(),
                other_skip + take <= other.spec_frames() <= usize::MAX,
                i <= take,
                clipped <= i,
                self.spec_channels() == old(self).spec_channels(),
                self.spec_frames() == old(self).spec_frames(),
                forall|c: int, f: int, v: T|
                    #![trigger self.spec_stored(c, f, v)]
                    #![trigger old(self).spec_stored(c, f, v)]
                    self.spec_stored(c, f, v) == old(self).spec_stored(c, f, v),
                forall|c: int, f: int, v: T|
                    #![trigger self.spec_clips(c, f, v)]
                    #![trigger old(self).spec_clips(c, f, v)]
                    self.spec_clips(c, f, v) == old(self).spec_clips(c, f, v),
                forall|j: int|
                    0 <= j < i ==> #[trigger] self.spec_sample(self_channel as int, self_skip + j)
                        == old(self).spec_stored(
                        self_channel as int,
                        self_skip + j,
                        other.spec_sample(other_channel as int, other_skip + j),
                    ),
                forall|c: int, f: int|
                    #![trigger self.spec_sample(c, f)]
                    0 <= c < old(self).spec_channels() && 0 <= f < old(self).spec_frames() && !(c == self_channel && self_skip <= f < self_skip + i)
                        ==> self.spec_sample(c, f) == old(self).spec_sample(c, f),
                clipped == count_true(
                    i as int,
                    |j: int|
                        old(self).spec_clips(
                            self_channel as int,
                            self_skip + j,
                            other.spec_sample(other_channel as int, other_skip + j),
                        ),
                ),
            decreases take - i,
        {
            let value = other.read_sample_unchecked(other_channel, other_skip + i);
            let c = self.write_sample_unchecked(self_channel, self_skip + i, &value);
            if c {
                clipped += 1;
            }
            i += 1;
        }
        Some(clipped)
    }

    fn fill_channel_with(&mut self, channel: usize, value: &T) -> (done: Option<()>)
        ensures
            final(final(self).spec_storage())@ == final(old(self).spec_storage())@,
    {
        if channel >= self.channels() {
            return None;
        }
        let frames = self.frames();
        let mut frame: usize = 0;
        while frame < frames
            invariant
                final(self.spec_storage())@ == final(old(self).spec_storage())@,
                self.wf(),
                channel < old(self).spec_channels(),
                frames == old(self).spec_frames(),
                frame <= frames,
                self.spec_channels() == old(self).spec_channels(),
                self.spec_frames() == old(self).spec_frames(),
                forall|c: int, f: int, v: T|
                    #![trigger self.spec_stored(c, f, v)]
                    #![trigger old(self).spec_stored(c, f, v)]
                    self.spec_stored(c, f, v) == old(self).spec_stored(c, f, v),
                forall|c: int, f: int, v: T|
                    #![trigger self.spec_clips(c, f, v)]
                    #![trigger old(self).spec_clips(c, f, v)]
                    self.spec_clips(c, f, v) == old(self).spec_clips(c, f, v),
                forall|f: int|
                    0 <= f < frame ==> #[trigger] self.spec_sample(channel as int, f)
                        == old(self).spec_stored(channel as int, f, *value),
                forall|c: int, f: int|
                    #![trigger self.spec_sample(c, f)]
                    0 <= c < old(self).spec_channels() && 0 <= f < old(self).spec_frames() && !(c == channel && f < frame)
                        ==> self.spec_sample(c, f) == old(self).spec_sample(c, f),
            decreases frames - frame,
        {
            self.write_sample_unchecked(channel, frame, value);
            frame += 1;
        }
        Some(())
    }

    fn fill_frame_with(&mut self, frame: usize, value: &T) -> (done: Option<()>)
        ensures
            final(final(self).spec_storage())@ == final(old(self).spec_storage())@,
    {
        if frame >= self.frames() {
            return None;
        }
        let channels = self.channels();
        let mut channel: usize = 0;
        while channel < channels
            invariant
                final(self.spec_storage())@ == final(old(self).spec_storage())@,
                self.wf(),
                frame < old(self).spec_frames(),
                channels == old(self).spec_channels(),
                channel <= channels,
                self.spec_channels() == old(self).spec_channels(),
                self.spec_frames() == old(self).spec_frames(),
                forall|c: int, f: int, v: T|
                    #![trigger self.spec_stored(c, f, v)]
                    #![trigger old(self).spec_stored(c, f, v)]
                    self.spec_stored(c, f, v) == old(self).spec_stored(c, f, v),
                forall|c: int, f: int, v: T|
                    #![trigger self.spec_clips(c, f, v)]
                    #![trigger old(self).spec_clips(c, f, v)]
                    self.spec_clips(c, f, v) == old(self).spec_clips(c, f, v),
                forall|c: int|
                    0 <= c < channel ==> #[trigger] self.spec_sample(c, frame as int)
                        == old(self).spec_stored(c, frame as int, *value),
                forall|c: int, f: int|
                    #![trigger self.spec_sample(c, f)]
                    0 <= c < old(self).spec_channels() && 0 <= f < old(self).spec_frames() && !(f == frame && c < channel)
                        ==> self.spec_sample(c, f) == old(self).spec_sample(c, f),
            decreases channels - channel,
        {
            self.write_sample_unchecked(channel, frame, value);
            channel += 1;
        }
        Some(())
    }

    fn fill_frames_with(&mut self, start: usize, count: usize, value: &T) -> (written: Option<
        usize,
    >)
        ensures
            final(final(self).spec_storage())@ == final(old(self).spec_storage())@,
    {
        if count > self.frames() || start > self.frames() - count {
            return None;
        }
        let channels = self.channels();
        let mut channel: usize = 0;
        while channel < channels
            invariant
                final(self.spec_storage())@ == final(old(self).spec_storage())@,
                self.wf(),
                start + count <= old(self).spec_frames() <= usize::MAX,
                channels == old(self).spec_channels(),
                channel <= channels,
                self.spec_channels() == old(self).spec_channels(),
                self.spec_frames() == old(self).spec_frames(),
                forall|c: int, f: int, v: T|
                    #![trigger self.spec_stored(c, f, v)]
                    #![trigger old(self).spec_stored(c, f, v)]
                    self.spec_stored(c, f, v) == old(self).spec_stored(c, f, v),
                forall|c: int, f: int, v: T|
                    #![trigger self.spec_clips(c, f, v)]
                    #![trigger old(self).spec_clips(c, f, v)]
                    self.spec_clips(c, f, v) == old(self).spec_clips(c, f, v),
                forall|c: int, f: int|
                    0 <= c < channel && start <= f < start + count ==> #[trigger] self.spec_sample(c, f)
                        == old(self).spec_stored(c, f, *value),
                forall|c: int, f: int|
                    #![trigger self.spec_sample(c, f)]
                    0 <= c < old(self).spec_channels() && 0 <= f < old(self).spec_frames() && !(c < channel && start <= f < start + count)
                        ==> self.spec_sample(c, f) == old(self).spec_sample(c, f),
            decreases channels - channel,
        {
            let mut frame: usize = start;
            while frame < start + count
                invariant
                    final(self.spec_storage())@ == final(old(self).spec_storage())@,
                    self.wf(),
                    start + count <= old(self).spec_frames() <= usize::MAX,
                    channels == old(self).spec_channels(),
                    channel < channels,
                    start <= frame <= start + count,
                    self.spec_channels() == old(self).spec_channels(),
                    self.spec_frames() == old(self).spec_frames(),
                    forall|c: int, f: int, v: T|
                        #![trigger self.spec_stored(c, f, v)]
                        #![trigger old(self).spec_stored(c, f, v)]
                        self.spec_stored(c, f, v) == old(self).spec_stored(c, f, v),
                    forall|c: int, f: int, v: T|
                        #![trigger self.spec_clips(c, f, v)]
                        #![trigger old(self).spec_clips(c, f, v)]
                        self.spec_clips(c, f, v) == old(self).spec_clips(c, f, v),
                    forall|c: int, f: int|
                        ((0 <= c < channel && start <= f < start + count) || (c == channel && start
                            <= f < frame)) ==> #[trigger] self.spec_sample(c, f)
                            == old(self).spec_stored(c, f, *value),
                    forall|c: int, f: int|
                        #![trigger self.spec_sample(c, f)]
                        0 <= c < old(self).spec_channels() && 0 <= f < old(self).spec_frames() && !((c < channel && start <= f < start + count) || (c == channel && start <= f < frame))
                            ==> self.spec_sample(c, f) == old(self).spec_sample(c, f),
                decreases start + count - frame,
            {
                self.write_sample_unchecked(channel, frame, value);
                frame += 1;
            }
            channel += 1;
        }
        Some(count)
    }

    fn fill_with(&mut self, value: &T)
        ensures
            final(final(self).spec_storage())@ == final(old(self).spec_storage())@,
    {
        let channels = self.channels();
        let mut channel: usize = 0;
        while channel < channels
            invariant
                final(self.spec_storage())@ == final(old(self).spec_storage())@,
                self.wf(),
                channels == old(self).spec_channels(),
                channel <= channels,
                self.spec_channels() == old(self).spec_channels(),
                self.spec_frames() == old(self).spec_frames(),
                forall|c: int, f: int, v: T|
                    #![trigger self.spec_stored(c, f, v)]
                    #![trigger old(self).spec_stored(c, f, v)]
                    self.spec_stored(c, f, v) == old(self).spec_stored(c, f, v),
                forall|c: int, f: int, v: T|
                    #![trigger self.spec_clips(c, f, v)]
                    #![trigger old(self).spec_clips(c, f, v)]
                    self.spec_clips(c, f, v) == old(self).spec_clips(c, f, v),
                forall|c: int, f: int|
                    0 <= c < channel && 0 <= f < old(self).spec_frames() ==> #[trigger] self.spec_sample(c, f)
                        == old(self).spec_stored(c, f, *value),
            decreases channels - channel,
        {
            self.fill_channel_with(channel, value);
            channel += 1;
        }
    }

    fn copy_sample_within(
        &mut self,
        source_channel: usize,
        source_frame: usize,
        target_channel: usize,
        target_frame: usize,
    ) -> (copied: bool)
        ensures
            final(final(self).spec_storage())@ == final(old(self).spec_storage())@,
            copied <==> (source_channel < old(self).spec_channels() && source_frame
                < old(self).spec_frames() && target_channel < old(self).spec_channels() && target_frame
                < old(self).spec_frames()),
    {
        if let Some(value) = self.read_sample(source_channel, source_frame) {
            if self.write_sample(target_channel, target_frame, &value).is_some() {
                return true;
            }
        }
        false
    }

    fn swap_samples(
        &mut self,
        channel_a: usize,
        frame_a: usize,
        channel_b: usize,
        frame_b: usize,
    ) -> (swapped: bool)
        ensures
            final(final(self).spec_storage())@ == final(old(self).spec_storage())@,
            swapped <==> (channel_a < old(self).spec_channels() && frame_a < old(self).spec_frames()
                && channel_b < old(self).spec_channels() && frame_b < old(self).spec_frames()),
    {
        if let Some(value_a) = self.read_sample(channel_a, frame_a) {
            if let Some(value_b) = self.read_sample(channel_b, frame_b) {
                self.write_sample_unchecked(channel_b, frame_b, &value_a);
                self.write_sample_unchecked(channel_a, frame_a, &value_b);
                return true;
            }
        }
        false
    }

    fn copy_from_other(
        &mut self,
        other: &dyn Adapter<T>,
        other_skip: usize,
        self_skip: usize,
        take: usize,
    ) -> (clipped: Option<usize>)
        ensures
            final(final(self).spec_storage())@ == final(old(self).spec_storage())@,
    {
        if other.channels() != self.channels() || take > self.frames() || self_skip > self.frames()
            - take || take > other.frames() || other_skip > other.frames() - take {
            return None;
        }
        let channels = self.channels();
        let mut clipped: usize = 0;
        let mut channel: usize = 0;
        while channel < channels
            invariant
                final(self.spec_storage())@ == final(old(self).spec_storage())@,
                self.wf(),
                other.wf(),
                channels == old(self).spec_channels(),
                other.spec_channels() == channels,
                self_skip + take <= old(self).spec_frames() <= usize::MAX,
                other_skip + take <= other.spec_frames() <= usize::MAX,
                channel <= channels,
                self.spec_channels() == old(self).spec_channels(),
                self.spec_frames() == old(self).spec_frames(),
                forall|c: int, f: int, v: T|
                    #![trigger self.spec_stored(c, f, v)]
                    #![trigger old(self).spec_stored(c, f, v)]
                    self.spec_stored(c, f, v) == old(self).spec_stored(c, f, v),
                forall|c: int, f: int, v: T|
                    #![trigger self.spec_clips(c, f, v)]
                    #![trigger old(self).spec_clips(c, f, v)]
                    self.spec_clips(c, f, v) == old(self).spec_clips(c, f, v),
                clipped == saturated(
                    sum_nat(
                        channel as int,
                        |c: int|
                            count_true(
                                take as int,
                                |j: int|
                                    old(self).spec_clips(c, self_skip + j, other.spec_sample(c, other_skip + j)),
                            ),
                    ),
                ),
                forall|c: int, f: int|
                    0 <= c < channel && self_skip <= f < self_skip + take ==> #[trigger] self.spec_sample(c, f)
                        == old(self).spec_stored(c, f, other.spec_sample(c, f - self_skip + other_skip)),
                forall|c: int, f: int|
                    #![trigger self.spec_sample(c, f)]
                    0 <= c < old(self).spec_channels() && 0 <= f < old(self).spec_frames() && !(c < channel && self_skip <= f < self_skip + take)
                        ==> self.spec_sample(c, f) == old(self).spec_sample(c, f),
            decreases channels - channel,
        {
            let ghost before = clipped;
            let mut frame: usize = 0;
            while frame < take
                invariant
                    final(self.spec_storage())@ == final(old(self).spec_storage())@,
                    self.wf(),
                    other.wf(),
                    channels == old(self).spec_channels(),
                    other.spec_channels() == channels,
                    self_skip + take <= old(self).spec_frames() <= usize::MAX,
                    other_skip + take <= other.spec_frames() <= usize::MAX,
                    channel < channels,
                    frame <= take,
                    before == saturated(
                        sum_nat(
                            channel as int,
                            |c: int|
                                count_true(
                                    take as int,
                                    |j: int|
                                        old(self).spec_clips(c, self_skip + j, other.spec_sample(c, other_skip + j)),
                                ),
                        ),
                    ),
                    clipped == saturated(
                        sum_nat(
                            channel as int,
                            |c: int|
                                count_true(
                                    take as int,
                                    |j: int|
                                        old(self).spec_clips(c, self_skip + j, other.spec_sample(c, other_skip + j)),
                                ),
                        ) + count_true(
                            frame as int,
                            |j: int|
                                old(self).spec_clips(channel as int, self_skip + j, other.spec_sample(channel as int, other_skip + j)),
                        ),
                    ),
                    self.spec_channels() == old(self).spec_channels(),
                    self.spec_frames() == old(self).spec_frames(),
                    forall|c: int, f: int, v: T|
                        #![trigger self.spec_stored(c, f, v)]
                        #![trigger old(self).spec_stored(c, f, v)]
                        self.spec_stored(c, f, v) == old(self).spec_stored(c, f, v),
                    forall|c: int, f: int, v: T|
                        #![trigger self.spec_clips(c, f, v)]
                        #![trigger old(self).spec_clips(c, f, v)]
                        self.spec_clips(c, f, v) == old(self).spec_clips(c, f, v),
                    forall|c: int, f: int|
                        ((0 <= c < channel && self_skip <= f < self_skip + take) || (c == channel
                            && self_skip <= f < self_skip + frame)) ==> #[trigger] self.spec_sample(c, f)
                            == old(self).spec_stored(c, f, other.spec_sample(c, f - self_skip + other_skip)),
                    forall|c: int, f: int|
                        #![trigger self.spec_sample(c, f)]
                        0 <= c < old(self).spec_channels() && 0 <= f < old(self).spec_frames() && !((c < channel && self_skip <= f < self_skip + take) || (c == channel && self_skip <= f < self_skip + frame))
                            ==> self.spec_sample(c, f) == old(self).spec_sample(c, f),
                decreases take - frame,
            {
                let value = other.read_sample_unchecked(channel, frame + other_skip);
                let c = self.write_sample_unchecked(channel, frame + self_skip, &value);
                if c && clipped < usize::MAX {
                    clipped += 1;
                }
                frame += 1;
            }
            channel += 1;
        }
        Some(clipped)
    }
}

/// Wrapper for a slice of length `frames * channels`.
/// The samples are stored in _sequential_ order,
/// where all the samples for one channel are stored consecutively,
/// followed by the samples for the next channel.
/// For a stereo buffer containing four frames, the order is
/// `L1, L2, L3, L4, R1, R2, R3, R4`
pub struct SequentialSlice<U> {
    buf: U,
    frames: usize,
    channels: usize,
}

impl<U> SequentialSlice<U> {
    fn calc_index(&self, channel: usize, frame: usize) -> (index: usize)
        requires
            channel < self.channels,
            frame < self.frames,
            self.frames * self.channels <= usize::MAX,
        ensures
            index == channel * self.frames + frame,
            index < self.frames * self.channels,
    {
        proof {
            lemma_grid_index(frame as int, channel as int, self.frames as int, self.channels as int);
        }
        channel * self.frames + frame
    }
}

impl<'a, T: Copy> SequentialSlice<&'a [T]> {
    /// Create a new `SequentialSlice` to wrap a slice.
    /// The slice length must be at least `frames*channels`.
    /// It is allowed to be longer than needed,
    /// but these extra values cannot be accessed via the trait methods.
    pub fn new(buf: &'a [T], channels: usize, frames: usize) -> (r: Result<Self, SizeError>)
        ensures
            r is Ok <==> channels * frames <= buf@.len(),
            r is Err ==> r == Err::<Self, SizeError>(
                SizeError::Total { actual: buf@.len() as usize, required: saturating(channels * frames) },
            ),
            r matches Ok(w) ==> {
                &&& w.wf()
                &&& w.spec_channels() == channels
                &&& w.spec_frames() == frames
                &&& forall|c: int, f: int|
                    0 <= c < channels && 0 <= f < frames ==> #[trigger] w.spec_sample(c, f)
                        == buf@[c * frames + f]
            },
    {
        match check_total(buf.len(), channels, frames, 1) {
            Ok(()) => {
                proof {
                    assert(channels * frames * 1 == frames * channels) by (nonlinear_arith);
                }
                Ok(Self { buf, frames, channels })
            },
            Err(e) => {
                proof {
                    assert(channels * frames * 1 == channels * frames) by (nonlinear_arith);
                }
                Err(e)
            },
        }
    }
}

impl<'a, T: Copy> Adapter<T> for SequentialSlice<&'a [T]> {
    closed spec fn wf(&self) -> bool {
        self.frames * self.channels <= self.buf@.len() <= usize::MAX
    }

    closed spec fn spec_channels(&self) -> nat {
        self.channels as nat
    }

    closed spec fn spec_frames(&self) -> nat {
        self.frames as nat
    }

    closed spec fn spec_sample(&self, channel: int, frame: int) -> T {
        self.buf@[channel * self.frames + frame]
    }

    fn read_sample_unchecked(&self, channel: usize, frame: usize) -> (value: T) {
        let index = self.calc_index(channel, frame);
        self.buf[index]
    }

    fn channels(&self) -> (n: usize) {
        self.channels
    }

    fn frames(&self) -> (n: usize) {
        self.frames
    }
}

impl<'a, T: Copy> SequentialSlice<&'a mut [T]> {
    /// The wrapped storage, through which the samples are written to the caller's buffer.
    pub closed spec fn spec_storage(&self) -> &'a mut [T] {
        self.buf
    }

    /// Once the wrapper is no longer used, the wrapped slice holds its samples
    /// channel by channel.
    pub proof fn lemma_storage(&self)
        requires
            self.wf(),
            has_resolved(*self),
        ensures
            forall|c: int, f: int|
                0 <= c < self.spec_channels() && 0 <= f < self.spec_frames() ==> final(self.spec_storage())@[c * self.spec_frames() + f] == #[trigger] self.spec_sample(c, f),
    {
    }

    /// Create a new `SequentialSlice` to wrap a mutable slice.
    /// The slice length must be at least `frames*channels`.
    /// It is allowed to be longer than needed,
    /// but these extra values cannot be accessed via the trait methods.
    pub fn new_mut(buf: &'a mut [T], channels: usize, frames: usize) -> (r: Result<Self, SizeError>)
        ensures
            r is Ok <==> channels * frames <= old(buf)@.len(),
            r is Err ==> r == Err::<Self, SizeError>(
                SizeError::Total { actual: old(buf)@.len() as usize, required: saturating(channels * frames) },
            ),
            r is Err ==> final(buf)@ == old(buf)@,
            r matches Ok(w) ==> {
                &&& final(w.spec_storage())@ == final(buf)@
                &&& w.wf()
                &&& w.spec_channels() == channels
                &&& w.spec_frames() == frames
                &&& forall|c: int, f: int|
                    0 <= c < channels && 0 <= f < frames ==> #[trigger] w.spec_sample(c, f)
                        == old(buf)@[c * frames + f]
            },
    {
        match check_total(buf.len(), channels, frames, 1) {
            Ok(()) => {
                proof {
                    assert(channels * frames * 1 == frames * channels) by (nonlinear_arith);
                }
                Ok(Self { buf, frames, channels })
            },
            Err(e) => {
                proof {
                    assert(channels * frames * 1 == channels * frames) by (nonlinear_arith);
                }
                Err(e)
            },
        }
    }
}

impl<'a, T: Copy> Adapter<T> for SequentialSlice<&'a mut [T]> {
    closed spec fn wf(&self) -> bool {
        self.frames * self.channels <= self.buf@.len() <= usize::MAX
    }

    closed spec fn spec_channels(&self) -> nat {
        self.channels as nat
    }

    closed spec fn spec_frames(&self) -> nat {
        self.frames as nat
    }

    closed spec fn spec_sample(&self, channel: int, frame: int) -> T {
        self.buf@[channel * self.frames + frame]
    }

    fn read_sample_unchecked(&self, channel: usize, frame: usize) -> (value: T) {
        let index = self.calc_index(channel, frame);
        self.buf[index]
    }

    fn channels(&self) -> (n: usize) {
        self.channels
    }

    fn frames(&self) -> (n: usize) {
        self.frames
    }
}

impl<'a, T: Copy> AdapterMut<T> for SequentialSlice<&'a mut [T]> {
    open spec fn spec_stored(&self, channel: int, frame: int, value: T) -> T {
        value
    }

    open spec fn spec_clips(&self, channel: int, frame: int, value: T) -> bool {
        false
    }

    fn write_sample_unchecked(&mut self, channel: usize, frame: usize, value: &T) -> (clipped:
        bool)
        ensures
            final(final(self).spec_storage())@ == final(old(self).spec_storage())@,
    {
        let index = self.calc_index(channel, frame);
        self.buf[index] = *value;
        proof {
            assert forall|c: int, f: int|
                0 <= c < self.channels && 0 <= f < self.frames && !(c == channel && f == frame)
                    implies #[trigger] self.spec_sample(c, f) == old(self).spec_sample(c, f) by {
                lemma_grid_index(c, f, self.channels as int, self.frames as int);
                lemma_grid_index(f, c, self.frames as int, self.channels as int);
                if c * self.frames + f == index {
                    lemma_grid_index_unique(f, c, frame as int, channel as int, self.frames as int);
                }
            }
        }
        false
    }

    fn copy_frames_within(&mut self, src: usize, dest: usize, count: usize) -> (moved: Option<
        usize,
    >)
        ensures
            final(final(self).spec_storage())@ == final(old(self).spec_storage())@,
    {
        if count > self.frames || src > self.frames - count || dest > self.frames - count {
            return None;
        }

        let mut channel: usize = 0;
        while channel < self.channels
            invariant
                final(self.spec_storage())@ == final(old(self).spec_storage())@,
                self.frames * self.channels <= self.buf@.len() <= usize::MAX,
                self.frames == old(self).frames,
                self.channels == old(self).channels,
                self.buf@.len() == old(self).buf@.len(),
                src + count <= self.frames,
                dest + count <= self.frames,
                channel <= self.channels,
                forall|c: int, f: int|
                    0 <= c < self.channels && 0 <= f < self.frames ==> #[trigger] self.spec_sample(c, f)
                        == (if c < channel && dest <= f < dest + count {
                        old(self).spec_sample(c, f - dest + src)
                    } else {
                        old(self).spec_sample(c, f)
                    }),
            decreases self.channels - channel,
        {
            proof {
                assert(channel * self.frames + self.frames <= self.channels * self.frames) by (nonlinear_arith)
                    requires
                        channel < self.channels,
                ;
                assert(0 <= channel * self.frames) by (nonlinear_arith);
                assert(self.channels * self.frames == self.frames * self.channels) by (nonlinear_arith);
            }
            let offset = channel * self.frames;
            let ghost before = *self;
            copy_within_slice(self.buf, src + offset, dest + offset, count);
            proof {
                assert forall|c: int, f: int|
                    0 <= c < self.channels && 0 <= f < self.frames implies #[trigger] self.spec_sample(c, f)
                        == (if c < channel + 1 && dest <= f < dest + count {
                        old(self).spec_sample(c, f - dest + src)
                    } else {
                        old(self).spec_sample(c, f)
                    }) by {
                    lemma_grid_index(f, c, self.frames as int, self.channels as int);
                    assert(before.spec_sample(c, f) == before.buf@[c * self.frames + f]);
                    if c == channel && dest <= f < dest + count {
                        lemma_grid_index(f - dest + src, c, self.frames as int, self.channels as int);
                        assert(c * self.frames + f - (dest + offset) + (src + offset) == c * self.frames + (f - dest + src));
                        assert(self.buf@[c * self.frames + f] == before.buf@[c * self.frames + (f - dest + src)]);
                        assert(before.spec_sample(c, f - dest + src) == before.buf@[c * self.frames + (f - dest + src)]);
                    } else if c != channel {
                        if c < channel {
                            assert(c * self.frames + self.frames <= channel * self.frames) by (nonlinear_arith)
                                requires c + 1 <= channel;
                        } else {
                            assert(channel * self.frames + self.frames <= c * self.frames) by (nonlinear_arith)
                                requires channel + 1 <= c;
                        }
                        assert(self.buf@[c * self.frames + f] == before.buf@[c * self.frames + f]);
                    } else {
                        assert(self.buf@[c * self.frames + f] == before.buf@[c * self.frames + f]);
                    }
                }
            }
            channel += 1;
        }
        Some(count)
    }

    fn write_sample(&mut self, channel: usize, frame: usize, value: &T) -> (clipped: Option<bool>)
        ensures
            final(final(self).spec_storage())@ == final(old(self).spec_storage())@,
    {
        if channel >= self.channels() || frame >= self.frames() {
            return None;
        }
        Some(self.write_sample_unchecked(channel, frame, value))
    }

    fn copy_from_slice_to_channel(&mut self, channel: usize, skip: usize, slice: &[T]) -> (r: (
        usize,
        usize,
    ))
        ensures
            final(final(self).spec_storage())@ == final(old(self).spec_storage())@,
    {
        if channel >= self.channels() || skip >= self.frames() {
            return (0, 0);
        }
        let n = if self.frames() - skip < slice.len() {
            self.frames() - skip
        } else {
            slice.len()
        };
        let mut clipped: usize = 0;
        let mut i: usize = 0;
        while i < n
            invariant
                final(self.spec_storage())@ == final(old(self).spec_storage())@,
                self.wf(),
                channel < old(self).spec_channels(),
                skip + n <= old(self).spec_frames() <= usize::MAX,
                n <= slice@.len(),
                i <= n,
                clipped <= i,
                self.spec_channels() == old(self).spec_channels(),
                self.spec_frames() == old(self).spec_frames(),
                forall|c: int, f: int, v: T|
                    #![trigger self.spec_stored(c, f, v)]
                    #![trigger old(self).spec_stored(c, f, v)]
                    self.spec_stored(c, f, v) == old(self).spec_stored(c, f, v),
                forall|c: int, f: int, v: T|
                    #![trigger self.spec_clips(c, f, v)]
                    #![trigger old(self).spec_clips(c, f, v)]
                    self.spec_clips(c, f, v) == old(self).spec_clips(c, f, v),
                forall|j: int|
                    0 <= j < i ==> #[trigger] self.spec_sample(channel as int, skip + j) == old(self).spec_stored(
                        channel as int, skip + j,
                        slice@[j],
                    ),
                forall|c: int, f: int|
                    #![trigger self.spec_sample(c, f)]
                    0 <= c < old(self).spec_channels() && 0 <= f < old(self).spec_frames() && !(c == channel && skip <= f < skip + i)
                        ==> self.spec_sample(c, f) == old(self).spec_sample(c, f),
                clipped == count_true(i as int, |j: int| old(self).spec_clips(channel as int, skip + j, slice@[j])),
            decreases n - i,
        {
            let value = slice[i];
            let c = self.write_sample_unchecked(channel, skip + i, &value);
            if c {
                clipped += 1;
            }
            i += 1;
        }
        (n, clipped)
    }

    fn copy_from_slice_to_frame(&mut self, frame: usize, skip: usize, slice: &[T]) -> (r: (
        usize,
        usize,
    ))
        ensures
            final(final(self).spec_storage())@ == final(old(self).spec_storage())@,
    {
        if frame >= self.frames() || skip >= self.channels() {
            return (0, 0);
        }
        let n = if self.channels() - skip < slice.len() {
            self.channels() - skip
        } else {
            slice.len()
        };
        let mut clipped: usize = 0;
        let mut i: usize = 0;
        while i < n
            invariant
                final(self.spec_storage())@ == final(old(self).spec_storage())@,
                self.wf(),
                frame < old(self).spec_frames(),
                skip + n <= old(self).spec_channels() <= usize::MAX,
                n <= slice@.len(),
                i <= n,
                clipped <= i,
                self.spec_channels() == old(self).spec_channels(),
                self.spec_frames() == old(self).spec_frames(),
                forall|c: int, f: int, v: T|
                    #![trigger self.spec_stored(c, f, v)]
                    #![trigger old(self).spec_stored(c, f, v)]
                    self.spec_stored(c, f, v) == old(self).spec_stored(c, f, v),
                forall|c: int, f: int, v: T|
                    #![trigger self.spec_clips(c, f, v)]
                    #![trigger old(self).spec_clips(c, f, v)]
                    self.spec_clips(c, f, v) == old(self).spec_clips(c, f, v),
                forall|j: int|
                    0 <= j < i ==> #[trigger] self.spec_sample(skip + j, frame as int) == old(self).spec_stored(
                        skip + j, frame as int,
                        slice@[j],
                    ),
                forall|c: int, f: int|
                    #![trigger self.spec_sample(c, f)]
                    0 <= c < old(self).spec_channels() && 0 <= f < old(self).spec_frames() && !(f == frame && skip <= c < skip + i)
                        ==> self.spec_sample(c, f) == old(self).spec_sample(c, f),
                clipped == count_true(i as int, |j: int| old(self).spec_clips(skip + j, frame as int, slice@[j])),
            decreases n - i,
        {
            let value = slice[i];
            let c = self.write_sample_unchecked(skip + i, frame, &value);
            if c {
                clipped += 1;
            }
            i += 1;
        }
        (n, clipped)
    }

    fn copy_from_other_to_channel(
        &mut self,
        other: &dyn Adapter<T>,
        other_channel: usize,
        self_channel: usize,
        other_skip: usize,
        self_skip: usize,
        take: usize,
    ) -> (clipped: Option<usize>)
        ensures
            final(final(self).spec_storage())@ == final(old(self).spec_storage())@,
    {
        if self_channel >= self.channels() || take > self.frames() || self_skip > self.frames()
            - take || other_channel >= other.channels() || take > other.frames() || other_skip
            > other.frames() - take {
            return None;
        }
        let mut clipped: usize = 0;
        let mut i: usize = 0;
        while i < take
            invariant
                final(self.spec_storage())@ == final(old(self).spec_storage())@,
                self.wf(),
                other.wf(),
                self_channel < old(self).spec_channels(),
                self_skip + take <= old(self).spec_frames() <= usize::MAX,
                other_channel < other.spec_channels(),
                other_skip + take <= other.spec_frames() <= usize::MAX,
                i <= take,
                clipped <= i,
                self.spec_channels() == old(self).spec_channels(),
                self.spec_frames() == old(self).spec_frames(),
                forall|c: int, f: int, v: T|
                    #![trigger self.spec_stored(c, f, v)]
                    #![trigger old(self).spec_stored(c, f, v)]
                    self.spec_stored(c, f, v) == old(self).spec_stored(c, f, v),
                forall|c: int, f: int, v: T|
                    #![trigger self.spec_clips(c, f, v)]
                    #![trigger old(self).spec_clips(c, f, v)]
                    self.spec_clips(c, f, v) == old(self).spec_clips(c, f, v),
                forall|j: int|
                    0 <= j < i ==> #[trigger] self.spec_sample(self_channel as int, self_skip + j)
                        == old(self).spec_stored(
                        self_channel as int,
                        self_skip + j,
                        other.spec_sample(other_channel as int, other_skip + j),
                    ),
                forall|c: int, f: int|
                    #![trigger self.spec_sample(c, f)]
                    0 <= c < old(self).spec_channels() && 0 <= f < old(self).spec_frames() && !(c == self_channel && self_skip <= f < self_skip + i)
                        ==> self.spec_sample(c, f) == old(self).spec_sample(c, f),
                clipped == count_true(
                    i as int,
                    |j: int|
                        old(self).spec_clips(
                            self_channel as int,
                            self_skip + j,
                            other.spec_sample(other_channel as int, other_skip + j),
                        ),
                ),
            decreases take - i,
        {
            let value = other.read_sample_unchecked(other_channel, other_skip + i);
            let c = self.write_sample_unchecked(self_channel, self_skip + i, &value);
            if c {
                clipped += 1;
            }
            i += 1;
        }
        Some(clipped)
    }

    fn fill_channel_with(&mut self, channel: usize, value: &T) -> (done: Option<()>)
        ensures
            final(final(self).spec_storage())@ == final(old(self).spec_storage())@,
    {
        if channel >= self.channels() {
            return None;
        }
        let frames = self.frames();
        let mut frame: usize = 0;
        while frame < frames
            invariant
                final(self.spec_storage())@ == final(old(self).spec_storage())@,
                self.wf(),
                channel < old(self).spec_channels(),
                frames == old(self).spec_frames(),
                frame <= frames,
                self.spec_channels() == old(self).spec_channels(),
                self.spec_frames() == old(self).spec_frames(),
                forall|c: int, f: int, v: T|
                    #![trigger self.spec_stored(c, f, v)]
                    #![trigger old(self).spec_stored(c, f, v)]
                    self.spec_stored(c, f, v) == old(self).spec_stored(c, f, v),
                forall|c: int, f: int, v: T|
                    #![trigger self.spec_clips(c, f, v)]
                    #![trigger old(self).spec_clips(c, f, v)]
                    self.spec_clips(c, f, v) == old(self).spec_clips(c, f, v),
                forall|f: int|
                    0 <= f < frame ==> #[trigger] self.spec_sample(channel as int, f)
                        == old(self).spec_stored(channel as int, f, *value),
                forall|c: int, f: int|
                    #![trigger self.spec_sample(c, f)]
                    0 <= c < old(self).spec_channels() && 0 <= f < old(self).spec_frames() && !(c == channel && f < frame)
                        ==> self.spec_sample(c, f) == old(self).spec_sample(c, f),
            decreases frames - frame,
        {
            self.write_sample_unchecked(channel, frame, value);
            frame += 1;
        }
        Some(())
    }

    fn fill_frame_with(&mut self, frame: usize, value: &T) -> (done: Option<()>)
        ensures
            final(final(self).spec_storage())@ == final(old(self).spec_storage())@,
    {
        if frame >= self.frames() {
            return None;
        }
        let channels = self.channels();
        let mut channel: usize = 0;
        while channel < channels
            invariant
                final(self.spec_storage())@ == final(old(self).spec_storage())@,
                self.wf(),
                frame < old(self).spec_frames(),
                channels == old(self).spec_channels(),
                channel <= channels,
                self.spec_channels() == old(self).spec_channels(),
                self.spec_frames() == old(self).spec_frames(),
                forall|c: int, f: int, v: T|
                    #![trigger self.spec_stored(c, f, v)]
                    #![trigger old(self).spec_stored(c, f, v)]
                    self.spec_stored(c, f, v) == old(self).spec_stored(c, f, v),
                forall|c: int, f: int, v: T|
                    #![trigger self.spec_clips(c, f, v)]
                    #![trigger old(self).spec_clips(c, f, v)]
                    self.spec_clips(c, f, v) == old(self).spec_clips(c, f, v),
                forall|c: int|
                    0 <= c < channel ==> #[trigger] self.spec_sample(c, frame as int)
                        == old(self).spec_stored(c, frame as int, *value),
                forall|c: int, f: int|
                    #![trigger self.spec_sample(c, f)]
                    0 <= c < old(self).spec_channels() && 0 <= f < old(self).spec_frames() && !(f == frame && c < channel)
                        ==> self.spec_sample(c, f) == old(self).spec_sample(c, f),
            decreases channels - channel,
        {
            self.write_sample_unchecked(channel, frame, value);
            channel += 1;
        }
        Some(())
    }

    fn fill_frames_with(&mut self, start: usize, count: usize, value: &T) -> (written: Option<
        usize,
    >)
        ensures
            final(final(self).spec_storage())@ == final(old(self).spec_storage())@,
    {
        if count > self.frames() || start > self.frames() - count {
            return None;
        }
        let channels = self.channels();
        let mut channel: usize = 0;
        while channel < channels
            invariant
                final(self.spec_storage())@ == final(old(self).spec_storage())@,
                self.wf(),
                start + count <= old(self).spec_frames() <= usize::MAX,
                channels == old(self).spec_channels(),
                channel <= channels,
                self.spec_channels() == old(self).spec_channels(),
                self.spec_frames() == old(self).spec_frames(),
                forall|c: int, f: int, v: T|
                    #![trigger self.spec_stored(c, f, v)]
                    #![trigger old(self).spec_stored(c, f, v)]
                    self.spec_stored(c, f, v) == old(self).spec_stored(c, f, v),
                forall|c: int, f: int, v: T|
                    #![trigger self.spec_clips(c, f, v)]
                    #![trigger old(self).spec_clips(c, f, v)]
                    self.spec_clips(c, f, v) == old(self).spec_clips(c, f, v),
                forall|c: int, f: int|
                    0 <= c < channel && start <= f < start + count ==> #[trigger] self.spec_sample(c, f)
                        == old(self).spec_stored(c, f, *value),
                forall|c: int, f: int|
                    #![trigger self.spec_sample(c, f)]
                    0 <= c < old(self).spec_channels() && 0 <= f < old(self).spec_frames() && !(c < channel && start <= f < start + count)
                        ==> self.spec_sample(c, f) == old(self).spec_sample(c, f),
            decreases channels - channel,
        {
            let mut frame: usize = start;
            while frame < start + count
                invariant
                    final(self.spec_storage())@ == final(old(self).spec_storage())@,
                    self.wf(),
                    start + count <= old(self).spec_frames() <= usize::MAX,
                    channels == old(self).spec_channels(),
                    channel < channels,
                    start <= frame <= start + count,
                    self.spec_channels() == old(self).spec_channels(),
                    self.spec_frames() == old(self).spec_frames(),
                    forall|c: int, f: int, v: T|
                        #![trigger self.spec_stored(c, f, v)]
                        #![trigger old(self).spec_stored(c, f, v)]
                        self.spec_stored(c, f, v) == old(self).spec_stored(c, f, v),
                    forall|c: int, f: int, v: T|
                        #![trigger self.spec_clips(c, f, v)]
                        #![trigger old(self).spec_clips(c, f, v)]
                        self.spec_clips(c, f, v) == old(self).spec_clips(c, f, v),
                    forall|c: int, f: int|
                        ((0 <= c < channel && start <= f < start + count) || (c == channel && start
                            <= f < frame)) ==> #[trigger] self.spec_sample(c, f)
                            == old(self).spec_stored(c, f, *value),
                    forall|c: int, f: int|
                        #![trigger self.spec_sample(c, f)]
                        0 <= c < old(self).spec_channels() && 0 <= f < old(self).spec_frames() && !((c < channel && start <= f < start + count) || (c == channel && start <= f < frame))
                            ==> self.spec_sample(c, f) == old(self).spec_sample(c, f),
                decreases start + count - frame,
            {
                self.write_sample_unchecked(channel, frame, value);
                frame += 1;
            }
            channel += 1;
        }
        Some(count)
    }

    fn fill_with(&mut self, value: &T)
        ensures
            final(final(self).spec_storage())@ == final(old(self).spec_storage())@,
    {
        let channels = self.channels();
        let mut channel: usize = 0;
        while channel < channels
            invariant
                final(self.spec_storage())@ == final(old(self).spec_storage())@,
                self.wf(),
                channels == old(self).spec_channels(),
                channel <= channels,
                self.spec_channels() == old(self).spec_channels(),
                self.spec_frames() == old(self).spec_frames(),
                forall|c: int, f: int, v: T|
                    #![trigger self.spec_stored(c, f, v)]
                    #![trigger old(self).spec_stored(c, f, v)]
                    self.spec_stored(c, f, v) == old(self).spec_stored(c, f, v),
                forall|c: int, f: int, v: T|
                    #![trigger self.spec_clips(c, f, v)]
                    #![trigger old(self).spec_clips(c, f, v)]
                    self.spec_clips(c, f, v) == old(self).spec_clips(c, f, v),
                forall|c: int, f: int|
                    0 <= c < channel && 0 <= f < old(self).spec_frames() ==> #[trigger] self.spec_sample(c, f)
                        == old(self).spec_stored(c, f, *value),
            decreases channels - channel,
        {
            self.fill_channel_with(channel, value);
            channel += 1;
        }
    }

    fn copy_sample_within(
        &mut self,
        source_channel: usize,
        source_frame: usize,
        target_channel: usize,
        target_frame: usize,
    ) -> (copied: bool)
        ensures
            final(final(self).spec_storage())@ == final(old(self).spec_storage())@,
            copied <==> (source_channel < old(self).spec_channels() && source_frame
                < old(self).spec_frames() && target_channel < old(self).spec_channels() && target_frame
                < old(self).spec_frames()),
    {
        if let Some(value) = self.read_sample(source_channel, source_frame) {
            if self.write_sample(target_channel, target_frame, &value).is_some() {
                return true;
            }
        }
        false
    }

    fn swap_samples(
        &mut self,
        channel_a: usize,
        frame_a: usize,
        channel_b: usize,
        frame_b: usize,
    ) -> (swapped: bool)
        ensures
            final(final(self).spec_storage())@ == final(old(self).spec_storage())@,
            swapped <==> (channel_a < old(self).spec_channels() && frame_a < old(self).spec_frames()
                && channel_b < old(self).spec_channels() && frame_b < old(self).spec_frames()),
    {
        if let Some(value_a) = self.read_sample(channel_a, frame_a) {
            if let Some(value_b) = self.read_sample(channel_b, frame_b) {
                self.write_sample_unchecked(channel_b, frame_b, &value_a);
                self.write_sample_unchecked(channel_a, frame_a, &value_b);
                return true;
            }
        }
        false
    }

    fn copy_from_other(
        &mut self,
        other: &dyn Adapter<T>,
        other_skip: usize,
        self_skip: usize,
        take: usize,
    ) -> (clipped: Option<usize>)
        ensures
            final(final(self).spec_storage())@ == final(old(self).spec_storage())@,
    {
        if other.channels() != self.channels() || take > self.frames() || self_skip > self.frames()
            - take || take > other.frames() || other_skip > other.frames() - take {
            return None;
        }
        let channels = self.channels();
        let mut clipped: usize = 0;
        let mut channel: usize = 0;
        while channel < channels
            invariant
                final(self.spec_storage())@ == final(old(self).spec_storage())@,
                self.wf(),
                other.wf(),
                channels == old(self).spec_channels(),
                other.spec_channels() == channels,
                self_skip + take <= old(self).spec_frames() <= usize::MAX,
                other_skip + take <= other.spec_frames() <= usize::MAX,
                channel <= channels,
                self.spec_channels() == old(self).spec_channels(),
                self.spec_frames() == old(self).spec_frames(),
                forall|c: int, f: int, v: T|
                    #![trigger self.spec_stored(c, f, v)]
                    #![trigger old(self).spec_stored(c, f, v)]
                    self.spec_stored(c, f, v) == old(self).spec_stored(c, f, v),
                forall|c: int, f: int, v: T|
                    #![trigger self.spec_clips(c, f, v)]
                    #![trigger old(self).spec_clips(c, f, v)]
                    self.spec_clips(c, f, v) == old(self).spec_clips(c, f, v),
                clipped == saturated(
                    sum_nat(
                        channel as int,
                        |c: int|
                            count_true(
                                take as int,
                                |j: int|
                                    old(self).spec_clips(c, self_skip + j, other.spec_sample(c, other_skip + j)),
                            ),
                    ),
                ),
                forall|c: int, f: int|
                    0 <= c < channel && self_skip <= f < self_skip + take ==> #[trigger] self.spec_sample(c, f)
                        == old(self).spec_stored(c, f, other.spec_sample(c, f - self_skip + other_skip)),
                forall|c: int, f: int|
                    #![trigger self.spec_sample(c, f)]
                    0 <= c < old(self).spec_channels() && 0 <= f < old(self).spec_frames() && !(c < channel && self_skip <= f < self_skip + take)
                        ==> self.spec_sample(c, f) == old(self).spec_sample(c, f),
            decreases channels - channel,
        {
            let ghost before = clipped;
            let mut frame: usize = 0;
            while frame < take
                invariant
                    final(self.spec_storage())@ == final(old(self).spec_storage())@,
                    self.wf(),
                    other.wf(),
                    channels == old(self).spec_channels(),
                    other.spec_channels() == channels,
                    self_skip + take <= old(self).spec_frames() <= usize::MAX,
                    other_skip + take <= other.spec_frames() <= usize::MAX,
                    channel < channels,
                    frame <= take,
                    before == saturated(
                        sum_nat(
                            channel as int,
                            |c: int|
                                count_true(
                                    take as int,
                                    |j: int|
                                        old(self).spec_clips(c, self_skip + j, other.spec_sample(c, other_skip + j)),
                                ),
                        ),
                    ),
                    clipped == saturated(
                        sum_nat(
                            channel as int,
                            |c: int|
                                count_true(
                                    take as int,
                                    |j: int|
                                        old(self).spec_clips(c, self_skip + j, other.spec_sample(c, other_skip + j)),
                                ),
                        ) + count_true(
                            frame as int,
                            |j: int|
                                old(self).spec_clips(channel as int, self_skip + j, other.spec_sample(channel as int, other_skip + j)),
                        ),
                    ),
                    self.spec_channels() == old(self).spec_channels(),
                    self.spec_frames() == old(self).spec_frames(),
                    forall|c: int, f: int, v: T|
                        #![trigger self.spec_stored(c, f, v)]
                        #![trigger old(self).spec_stored(c, f, v)]
                        self.spec_stored(c, f, v) == old(self).spec_stored(c, f, v),
                    forall|c: int, f: int, v: T|
                        #![trigger self.spec_clips(c, f, v)]
                        #![trigger old(self).spec_clips(c, f, v)]
                        self.spec_clips(c, f, v) == old(self).spec_clips(c, f, v),
                    forall|c: int, f: int|
                        ((0 <= c < channel && self_skip <= f < self_skip + take) || (c == channel
                            && self_skip <= f < self_skip + frame)) ==> #[trigger] self.spec_sample(c, f)
                            == old(self).spec_stored(c, f, other.spec_sample(c, f - self_skip + other_skip)),
                    forall|c: int, f: int|
                        #![trigger self.spec_sample(c, f)]
                        0 <= c < old(self).spec_channels() && 0 <= f < old(self).spec_frames() && !((c < channel && self_skip <= f < self_skip + take) || (c == channel && self_skip <= f < self_skip + frame))
                            ==> self.spec_sample(c, f) == old(self).spec_sample(c, f),
                decreases take - frame,
            {
                let value = other.read_sample_unchecked(channel, frame + other_skip);
                let c = self.write_sample_unchecked(channel, frame + self_skip, &value);
                if c && clipped < usize::MAX {
                    clipped += 1;
                }
                frame += 1;
            }
            channel += 1;
        }
        Some(clipped)
    }
}

/// Wrapper for a slice of length `channels`, containing vectors of length `frames`.
/// Each vector contains the samples for all frames of one channel.
pub struct SequentialSliceOfVecs<U> {
    buf: U,
    frames: usize,
    channels: usize,
}

impl<'a, T: Copy> SequentialSliceOfVecs<&'a [Vec<T>]> {
    /// Create a new `SequentialSliceOfVecs` to wrap a slice of vectors.
    /// The slice must contain at least `channels` vectors,
    /// and each of them must be at least `frames` long.
    /// They are allowed to be longer than needed,
    /// but these extra values cannot be accessed via the trait methods.
    pub fn new(buf: &'a [Vec<T>], channels: usize, frames: usize) -> (r: Result<Self, SizeError>)
        ensures
            r is Ok <==> (channels <= buf@.len() && forall|i: int| 0 <= i < buf@.len() ==> frames <= #[trigger] buf@[i]@.len()),
            buf@.len() < channels ==> r == Err::<Self, SizeError>(
                SizeError::ChannelsContainer { actual: buf@.len() as usize, required: channels },
            ),
            r matches Err(SizeError::ChannelBuffer { index, actual, required }) ==> {
                &&& channels <= buf@.len()
                &&& index < buf@.len()
                &&& actual == buf@[index as int]@.len() < frames
                &&& required == frames
                &&& forall|j: int| 0 <= j < index ==> frames <= #[trigger] buf@[j]@.len()
            },
            r is Err ==> (r matches Err(SizeError::ChannelBuffer { .. }) || r matches Err(
                SizeError::ChannelsContainer { .. },
            )),
            r matches Err(SizeError::ChannelsContainer { .. }) ==> buf@.len() < channels,
            r matches Ok(w) ==> {
                &&& w.wf()
                &&& w.spec_channels() == channels
                &&& w.spec_frames() == frames
                &&& forall|c: int, f: int|
                    0 <= c < channels && 0 <= f < frames ==> #[trigger] w.spec_sample(c, f)
                        == buf@[c]@[f]
            },
    {
        if buf.len() < channels {
            return Err(SizeError::ChannelsContainer { actual: buf.len(), required: channels });
        }
        let mut idx: usize = 0;
        while idx < buf.len()
            invariant
                channels <= buf@.len(),
                idx <= buf.len(),
                forall|j: int| 0 <= j < idx ==> frames <= #[trigger] buf@[j]@.len(),
            decreases buf.len() - idx,
        {
            if buf[idx].len() < frames {
                return Err(SizeError::ChannelBuffer { index: idx, actual: buf[idx].len(), required: frames });
            }
            idx += 1;
        }
        Ok(Self { buf, frames, channels })
    }
}

impl<'a, T: Copy> Adapter<T> for SequentialSliceOfVecs<&'a [Vec<T>]> {
    closed spec fn wf(&self) -> bool {
        self.channels <= self.buf@.len() && forall|i: int|
            0 <= i < self.channels ==> self.frames <= #[trigger] self.buf@[i]@.len()
    }

    closed spec fn spec_channels(&self) -> nat {
        self.channels as nat
    }

    closed spec fn spec_frames(&self) -> nat {
        self.frames as nat
    }

    closed spec fn spec_sample(&self, channel: int, frame: int) -> T {
        self.buf@[channel]@[frame]
    }

    fn read_sample_unchecked(&self, channel: usize, frame: usize) -> (value: T) {
        self.buf[channel][frame]
    }

    fn channels(&self) -> (n: usize) {
        self.channels
    }

    fn frames(&self) -> (n: usize) {
        self.frames
    }
}

impl<'a, T: Copy> SequentialSliceOfVecs<&'a mut [Vec<T>]> {
    /// The wrapped storage, through which the samples are written to the caller's buffer.
    pub closed spec fn spec_storage(&self) -> &'a mut [Vec<T>] {
        self.buf
    }

    /// Once the wrapper is no longer used, the wrapped vectors hold its samples,
    /// one vector per channel.
    pub proof fn lemma_storage(&self)
        requires
            self.wf(),
            has_resolved(*self),
        ensures
            forall|c: int, f: int|
                0 <= c < self.spec_channels() && 0 <= f < self.spec_frames() ==> final(self.spec_storage())@[c]@[f] == #[trigger] self.spec_sample(c, f),
    {
    }

    /// Create a new `SequentialSliceOfVecs` to wrap a mutable slice of vectors.
    /// The slice must contain at least `channels` vectors,
    /// and each of them must be at least `frames` long.
    /// They are allowed to be longer than needed,
    /// but these extra values cannot be accessed via the trait methods.
    pub fn new_mut(buf: &'a mut [Vec<T>], channels: usize, frames: usize) -> (r: Result<Self, SizeError>)
        ensures
            r is Ok <==> (channels <= old(buf)@.len() && forall|i: int| 0 <= i < old(buf)@.len() ==> frames <= #[trigger] old(buf)@[i]@.len()),
            old(buf)@.len() < channels ==> r == Err::<Self, SizeError>(
                SizeError::ChannelsContainer { actual: old(buf)@.len() as usize, required: channels },
            ),
            r matches Err(SizeError::ChannelBuffer { index, actual, required }) ==> {
                &&& channels <= old(buf)@.len()
                &&& index < old(buf)@.len()
                &&& actual == old(buf)@[index as int]@.len() < frames
                &&& required == frames
                &&& forall|j: int| 0 <= j < index ==> frames <= #[trigger] old(buf)@[j]@.len()
            },
            r is Err ==> (r matches Err(SizeError::ChannelBuffer { .. }) || r matches Err(
                SizeError::ChannelsContainer { .. },
            )),
            r matches Err(SizeError::ChannelsContainer { .. }) ==> old(buf)@.len() < channels,
            r is Err ==> final(buf)@ == old(buf)@,
            r matches Ok(w) ==> {
                &&& final(w.spec_storage())@ == final(buf)@
                &&& w.wf()
                &&& w.spec_channels() == channels
                &&& w.spec_frames() == frames
                &&& forall|c: int, f: int|
                    0 <= c < channels && 0 <= f < frames ==> #[trigger] w.spec_sample(c, f)
                        == old(buf)@[c]@[f]
            },
    {
        if buf.len() < channels {
            return Err(SizeError::ChannelsContainer { actual: buf.len(), required: channels });
        }
        let mut idx: usize = 0;
        while idx < buf.len()
            invariant
                channels <= buf@.len(),
                buf@ == old(buf)@,
                idx <= buf.len(),
                forall|j: int| 0 <= j < idx ==> frames <= #[trigger] buf@[j]@.len(),
            decreases buf.len() - idx,
        {
            if buf[idx].len() < frames {
                return Err(SizeError::ChannelBuffer { index: idx, actual: buf[idx].len(), required: frames });
            }
            idx += 1;
        }
        Ok(Self { buf, frames, channels })
    }
}

impl<'a, T: Copy> Adapter<T> for SequentialSliceOfVecs<&'a mut [Vec<T>]> {
    closed spec fn wf(&self) -> bool {
        self.channels <= self.buf@.len() && forall|i: int|
            0 <= i < self.channels ==> self.frames <= #[trigger] self.buf@[i]@.len()
    }

    closed spec fn spec_channels(&self) -> nat {
        self.channels as nat
    }

    closed spec fn spec_frames(&self) -> nat {
        self.frames as nat
    }

    closed spec fn spec_sample(&self, channel: int, frame: int) -> T {
        self.buf@[channel]@[frame]
    }

    fn read_sample_unchecked(&self, channel: usize, frame: usize) -> (value: T) {
        self.buf[channel][frame]
    }

    fn channels(&self) -> (n: usize) {
        self.channels
    }

    fn frames(&self) -> (n: usize) {
        self.frames
    }
}

impl<'a, T: Copy> AdapterMut<T> for SequentialSliceOfVecs<&'a mut [Vec<T>]> {
    open spec fn spec_stored(&self, channel: int, frame: int, value: T) -> T {
        value
    }

    open spec fn spec_clips(&self, channel: int, frame: int, value: T) -> bool {
        false
    }

    fn write_sample_unchecked(&mut self, channel: usize, frame: usize, value: &T) -> (clipped:
        bool)
        ensures
            final(final(self).spec_storage())@ == final(old(self).spec_storage())@,
    {
        self.buf[channel][frame] = *value;
        false
    }

    fn write_sample(&mut self, channel: usize, frame: usize, value: &T) -> (clipped: Option<bool>)
        ensures
            final(final(self).spec_storage())@ == final(old(self).spec_storage())@,
    {
        if channel >= self.channels() || frame >= self.frames() {
            return None;
        }
        Some(self.write_sample_unchecked(channel, frame, value))
    }

    fn copy_from_slice_to_channel(&mut self, channel: usize, skip: usize, slice: &[T]) -> (r: (
        usize,
        usize,
    ))
        ensures
            final(final(self).spec_storage())@ == final(old(self).spec_storage())@,
    {
        if channel >= self.channels() || skip >= self.frames() {
            return (0, 0);
        }
        let n = if self.frames() - skip < slice.len() {
            self.frames() - skip
        } else {
            slice.len()
        };
        let mut clipped: usize = 0;
        let mut i: usize = 0;
        while i < n
            invariant
                final(self.spec_storage())@ == final(old(self).spec_storage())@,
                self.wf(),
                channel < old(self).spec_channels(),
                skip + n <= old(self).spec_frames() <= usize::MAX,
                n <= slice@.len(),
                i <= n,
                clipped <= i,
                self.spec_channels() == old(self).spec_channels(),
                self.spec_frames() == old(self).spec_frames(),
                forall|c: int, f: int, v: T|
                    #![trigger self.spec_stored(c, f, v)]
                    #![trigger old(self).spec_stored(c, f, v)]
                    self.spec_stored(c, f, v) == old(self).spec_stored(c, f, v),
                forall|c: int, f: int, v: T|
                    #![trigger self.spec_clips(c, f, v)]
                    #![trigger old(self).spec_clips(c, f, v)]
                    self.spec_clips(c, f, v) == old(self).spec_clips(c, f, v),
                forall|j: int|
                    0 <= j < i ==> #[trigger] self.spec_sample(channel as int, skip + j) == old(self).spec_stored(
                        channel as int, skip + j,
                        slice@[j],
                    ),
                forall|c: int, f: int|
                    #![trigger self.spec_sample(c, f)]
                    0 <= c < old(self).spec_channels() && 0 <= f < old(self).spec_frames() && !(c == channel && skip <= f < skip + i)
                        ==> self.spec_sample(c, f) == old(self).spec_sample(c, f),
                clipped == count_true(i as int, |j: int| old(self).spec_clips(channel as int, skip + j, slice@[j])),
            decreases n - i,
        {
            let value = slice[i];
            let c = self.write_sample_unchecked(channel, skip + i, &value);
            if c {
                clipped += 1;
            }
            i += 1;
        }
        (n, clipped)
    }

    fn copy_from_slice_to_frame(&mut self, frame: usize, skip: usize, slice: &[T]) -> (r: (
        usize,
        usize,
    ))
        ensures
            final(final(self).spec_storage())@ == final(old(self).spec_storage())@,
    {
        if frame >= self.frames() || skip >= self.channels() {
            return (0, 0);
        }
        let n = if self.channels() - skip < slice.len() {
            self.channels() - skip
        } else {
            slice.len()
        };
        let mut clipped: usize = 0;
        let mut i: usize = 0;
        while i < n
            invariant
                final(self.spec_storage())@ == final(old(self).spec_storage())@,
                self.wf(),
                frame < old(self).spec_frames(),
                skip + n <= old(self).spec_channels() <= usize::MAX,
                n <= slice@.len(),
                i <= n,
                clipped <= i,
                self.spec_channels() == old(self).spec_channels(),
                self.spec_frames() == old(self).spec_frames(),
                forall|c: int, f: int, v: T|
                    #![trigger self.spec_stored(c, f, v)]
                    #![trigger old(self).spec_stored(c, f, v)]
                    self.spec_stored(c, f, v) == old(self).spec_stored(c, f, v),
                forall|c: int, f: int, v: T|
                    #![trigger self.spec_clips(c, f, v)]
                    #![trigger old(self).spec_clips(c, f, v)]
                    self.spec_clips(c, f, v) == old(self).spec_clips(c, f, v),
                forall|j: int|
                    0 <= j < i ==> #[trigger] self.spec_sample(skip + j, frame as int) == old(self).spec_stored(
                        skip + j, frame as int,
                        slice@[j],
                    ),
                forall|c: int, f: int|
                    #![trigger self.spec_sample(c, f)]
                    0 <= c < old(self).spec_channels() && 0 <= f < old(self).spec_frames() && !(f == frame && skip <= c < skip + i)
                        ==> self.spec_sample(c, f) == old(self).spec_sample(c, f),
                clipped == count_true(i as int, |j: int| old(self).spec_clips(skip + j, frame as int, slice@[j])),
            decreases n - i,
        {
            let value = slice[i];
            let c = self.write_sample_unchecked(skip + i, frame, &value);
            if c {
                clipped += 1;
            }
            i += 1;
        }
        (n, clipped)
    }

    fn copy_from_other_to_channel(
        &mut self,
        other: &dyn Adapter<T>,
        other_channel: usize,
        self_channel: usize,
        other_skip: usize,
        self_skip: usize,
        take: usize,
    ) -> (clipped: Option<usize>)
        ensures
            final(final(self).spec_storage())@ == final(old(self).spec_storage())@,
    {
        if self_channel >= self.channels() || take > self.frames() || self_skip > self.frames()
            - take || other_channel >= other.channels() || take > other.frames() || other_skip
            > other.frames() - take {
            return None;
        }
        let mut clipped: usize = 0;
        let mut i: usize = 0;
        while i < take
            invariant
                final(self.spec_storage())@ == final(old(self).spec_storage())@,
                self.wf(),
                other.wf(),
                self_channel < old(self).spec_channels(),
                self_skip + take <= old(self).spec_frames() <= usize::MAX,
                other_channel < other.spec_channels(),
                other_skip + take <= other.spec_frames() <= usize::MAX,
                i <= take,
                clipped <= i,
                self.spec_channels() == old(self).spec_channels(),
                self.spec_frames() == old(self).spec_frames(),
                forall|c: int, f: int, v: T|
                    #![trigger self.spec_stored(c, f, v)]
                    #![trigger old(self).spec_stored(c, f, v)]
                    self.spec_stored(c, f, v) == old(self).spec_stored(c, f, v),
                forall|c: int, f: int, v: T|
                    #![trigger self.spec_clips(c, f, v)]
                    #![trigger old(self).spec_clips(c, f, v)]
                    self.spec_clips(c, f, v) == old(self).spec_clips(c, f, v),
                forall|j: int|
                    0 <= j < i ==> #[trigger] self.spec_sample(self_channel as int, self_skip + j)
                        == old(self).spec_stored(
                        self_channel as int,
                        self_skip + j,
                        other.spec_sample(other_channel as int, other_skip + j),
                    ),
                forall|c: int, f: int|
                    #![trigger self.spec_sample(c, f)]
                    0 <= c < old(self).spec_channels() && 0 <= f < old(self).spec_frames() && !(c == self_channel && self_skip <= f < self_skip + i)
                        ==> self.spec_sample(c, f) == old(self).spec_sample(c, f),
                clipped == count_true(
                    i as int,
                    |j: int|
                        old(self).spec_clips(
                            self_channel as int,
                            self_skip + j,
                            other.spec_sample(other_channel as int, other_skip + j),
                        ),
                ),
            decreases take - i,
        {
            let value = other.read_sample_unchecked(other_channel, other_skip + i);
            let c = self.write_sample_unchecked(self_channel, self_skip + i, &value);
            if c {
                clipped += 1;
            }
            i += 1;
        }
        Some(clipped)
    }

    fn fill_channel_with(&mut self, channel: usize, value: &T) -> (done: Option<()>)
        ensures
            final(final(self).spec_storage())@ == final(old(self).spec_storage())@,
    {
        if channel >= self.channels() {
            return None;
        }
        let frames = self.frames();
        let mut frame: usize = 0;
        while frame < frames
            invariant
                final(self.spec_storage())@ == final(old(self).spec_storage())@,
                self.wf(),
                channel < old(self).spec_channels(),
                frames == old(self).spec_frames(),
                frame <= frames,
                self.spec_channels() == old(self).spec_channels(),
                self.spec_frames() == old(self).spec_frames(),
                forall|c: int, f: int, v: T|
                    #![trigger self.spec_stored(c, f, v)]
                    #![trigger old(self).spec_stored(c, f, v)]
                    self.spec_stored(c, f, v) == old(self).spec_stored(c, f, v),
                forall|c: int, f: int, v: T|
                    #![trigger self.spec_clips(c, f, v)]
                    #![trigger old(self).spec_clips(c, f, v)]
                    self.spec_clips(c, f, v) == old(self).spec_clips(c, f, v),
                forall|f: int|
                    0 <= f < frame ==> #[trigger] self.spec_sample(channel as int, f)
                        == old(self).spec_stored(channel as int, f, *value),
                forall|c: int, f: int|
                    #![trigger self.spec_sample(c, f)]
                    0 <= c < old(self).spec_channels() && 0 <= f < old(self).spec_frames() && !(c == channel && f < frame)
                        ==> self.spec_sample(c, f) == old(self).spec_sample(c, f),
            decreases frames - frame,
        {
            self.write_sample_unchecked(channel, frame, value);
            frame += 1;
        }
        Some(())
    }

    fn fill_frame_with(&mut self, frame: usize, value: &T) -> (done: Option<()>)
        ensures
            final(final(self).spec_storage())@ == final(old(self).spec_storage())@,
    {
        if frame >= self.frames() {
            return None;
        }
        let channels = self.channels();
        let mut channel: usize = 0;
        while channel < channels
            invariant
                final(self.spec_storage())@ == final(old(self).spec_storage())@,
                self.wf(),
                frame < old(self).spec_frames(),
                channels == old(self).spec_channels(),
                channel <= channels,
                self.spec_channels() == old(self).spec_channels(),
                self.spec_frames() == old(self).spec_frames(),
                forall|c: int, f: int, v: T|
                    #![trigger self.spec_stored(c, f, v)]
                    #![trigger old(self).spec_stored(c, f, v)]
                    self.spec_stored(c, f, v) == old(self).spec_stored(c, f, v),
                forall|c: int, f: int, v: T|
                    #![trigger self.spec_clips(c, f, v)]
                    #![trigger old(self).spec_clips(c, f, v)]
                    self.spec_clips(c, f, v) == old(self).spec_clips(c, f, v),
                forall|c: int|
                    0 <= c < channel ==> #[trigger] self.spec_sample(c, frame as int)
                        == old(self).spec_stored(c, frame as int, *value),
                forall|c: int, f: int|
                    #![trigger self.spec_sample(c, f)]
                    0 <= c < old(self).spec_channels() && 0 <= f < old(self).spec_frames() && !(f == frame && c < channel)
                        ==> self.spec_sample(c, f) == old(self).spec_sample(c, f),
            decreases channels - channel,
        {
            self.write_sample_unchecked(channel, frame, value);
            channel += 1;
        }
        Some(())
    }

    fn fill_frames_with(&mut self, start: usize, count: usize, value: &T) -> (written: Option<
        usize,
    >)
        ensures
            final(final(self).spec_storage())@ == final(old(self).spec_storage())@,
    {
        if count > self.frames() || start > self.frames() - count {
            return None;
        }
        let channels = self.channels();
        let mut channel: usize = 0;
        while channel < channels
            invariant
                final(self.spec_storage())@ == final(old(self).spec_storage())@,
                self.wf(),
                start + count <= old(self).spec_frames() <= usize::MAX,
                channels == old(self).spec_channels(),
                channel <= channels,
                self.spec_channels() == old(self).spec_channels(),
                self.spec_frames() == old(self).spec_frames(),
                forall|c: int, f: int, v: T|
                    #![trigger self.spec_stored(c, f, v)]
                    #![trigger old(self).spec_stored(c, f, v)]
                    self.spec_stored(c, f, v) == old(self).spec_stored(c, f, v),
                forall|c: int, f: int, v: T|
                    #![trigger self.spec_clips(c, f, v)]
                    #![trigger old(self).spec_clips(c, f, v)]
                    self.spec_clips(c, f, v) == old(self).spec_clips(c, f, v),
                forall|c: int, f: int|
                    0 <= c < channel && start <= f < start + count ==> #[trigger] self.spec_sample(c, f)
                        == old(self).spec_stored(c, f, *value),
                forall|c: int, f: int|
                    #![trigger self.spec_sample(c, f)]
                    0 <= c < old(self).spec_channels() && 0 <= f < old(self).spec_frames() && !(c < channel && start <= f < start + count)
                        ==> self.spec_sample(c, f) == old(self).spec_sample(c, f),
            decreases channels - channel,
        {
            let mut frame: usize = start;
            while frame < start + count
                invariant
                    final(self.spec_storage())@ == final(old(self).spec_storage())@,
                    self.wf(),
                    start + count <= old(self).spec_frames() <= usize::MAX,
                    channels == old(self).spec_channels(),
                    channel < channels,
                    start <= frame <= start + count,
                    self.spec_channels() == old(self).spec_channels(),
                    self.spec_frames() == old(self).spec_frames(),
                    forall|c: int, f: int, v: T|
                        #![trigger self.spec_stored(c, f, v)]
                        #![trigger old(self).spec_stored(c, f, v)]
                        self.spec_stored(c, f, v) == old(self).spec_stored(c, f, v),
                    forall|c: int, f: int, v: T|
                        #![trigger self.spec_clips(c, f, v)]
                        #![trigger old(self).spec_clips(c, f, v)]
                        self.spec_clips(c, f, v) == old(self).spec_clips(c, f, v),
                    forall|c: int, f: int|
                        ((0 <= c < channel && start <= f < start + count) || (c == channel && start
                            <= f < frame)) ==> #[trigger] self.spec_sample(c, f)
                            == old(self).spec_stored(c, f, *value),
                    forall|c: int, f: int|
                        #![trigger self.spec_sample(c, f)]
                        0 <= c < old(self).spec_channels() && 0 <= f < old(self).spec_frames() && !((c < channel && start <= f < start + count) || (c == channel && start <= f < frame))
                            ==> self.spec_sample(c, f) == old(self).spec_sample(c, f),
                decreases start + count - frame,
            {
                self.write_sample_unchecked(channel, frame, value);
                frame += 1;
            }
            channel += 1;
        }
        Some(count)
    }

    fn fill_with(&mut self, value: &T)
        ensures
            final(final(self).spec_storage())@ == final(old(self).spec_storage())@,
    {
        let channels = self.channels();
        let mut channel: usize = 0;
        while channel < channels
            invariant
                final(self.spec_storage())@ == final(old(self).spec_storage())@,
                self.wf(),
                channels == old(self).spec_channels(),
                channel <= channels,
                self.spec_channels() == old(self).spec_channels(),
                self.spec_frames() == old(self).spec_frames(),
                forall|c: int, f: int, v: T|
                    #![trigger self.spec_stored(c, f, v)]
                    #![trigger old(self).spec_stored(c, f, v)]
                    self.spec_stored(c, f, v) == old(self).spec_stored(c, f, v),
                forall|c: int, f: int, v: T|
                    #![trigger self.spec_clips(c, f, v)]
                    #![trigger old(self).spec_clips(c, f, v)]
                    self.spec_clips(c, f, v) == old(self).spec_clips(c, f, v),
                forall|c: int, f: int|
                    0 <= c < channel && 0 <= f < old(self).spec_frames() ==> #[trigger] self.spec_sample(c, f)
                        == old(self).spec_stored(c, f, *value),
            decreases channels - channel,
        {
            self.fill_channel_with(channel, value);
            channel += 1;
        }
    }

    fn copy_sample_within(
        &mut self,
        source_channel: usize,
        source_frame: usize,
        target_channel: usize,
        target_frame: usize,
    ) -> (copied: bool)
        ensures
            final(final(self).spec_storage())@ == final(old(self).spec_storage())@,
            copied <==> (source_channel < old(self).spec_channels() && source_frame
                < old(self).spec_frames() && target_channel < old(self).spec_channels() && target_frame
                < old(self).spec_frames()),
    {
        if let Some(value) = self.read_sample(source_channel, source_frame) {
            if self.write_sample(target_channel, target_frame, &value).is_some() {
                return true;
            }
        }
        false
    }

    fn swap_samples(
        &mut self,
        channel_a: usize,
        frame_a: usize,
        channel_b: usize,
        frame_b: usize,
    ) -> (swapped: bool)
        ensures
            final(final(self).spec_storage())@ == final(old(self).spec_storage())@,
            swapped <==> (channel_a < old(self).spec_channels() && frame_a < old(self).spec_frames()
                && channel_b < old(self).spec_channels() && frame_b < old(self).spec_frames()),
    {
        if let Some(value_a) = self.read_sample(channel_a, frame_a) {
            if let Some(value_b) = self.read_sample(channel_b, frame_b) {
                self.write_sample_unchecked(channel_b, frame_b, &value_a);
                self.write_sample_unchecked(channel_a, frame_a, &value_b);
                return true;
            }
        }
        false
    }

    fn copy_from_other(
        &mut self,
        other: &dyn Adapter<T>,
        other_skip: usize,
        self_skip: usize,
        take: usize,
    ) -> (clipped: Option<usize>)
        ensures
            final(final(self).spec_storage())@ == final(old(self).spec_storage())@,
    {
        if other.channels() != self.channels() || take > self.frames() || self_skip > self.frames()
            - take || take > other.frames() || other_skip > other.frames() - take {
            return None;
        }
        let channels = self.channels();
        let mut clipped: usize = 0;
        let mut channel: usize = 0;
        while channel < channels
            invariant
                final(self.spec_storage())@ == final(old(self).spec_storage())@,
                self.wf(),
                other.wf(),
                channels == old(self).spec_channels(),
                other.spec_channels() == channels,
                self_skip + take <= old(self).spec_frames() <= usize::MAX,
                other_skip + take <= other.spec_frames() <= usize::MAX,
                channel <= channels,
                self.spec_channels() == old(self).spec_channels(),
                self.spec_frames() == old(self).spec_frames(),
                forall|c: int, f: int, v: T|
                    #![trigger self.spec_stored(c, f, v)]
                    #![trigger old(self).spec_stored(c, f, v)]
                    self.spec_stored(c, f, v) == old(self).spec_stored(c, f, v),
                forall|c: int, f: int, v: T|
                    #![trigger self.spec_clips(c, f, v)]
                    #![trigger old(self).spec_clips(c, f, v)]
                    self.spec_clips(c, f, v) == old(self).spec_clips(c, f, v),
                clipped == saturated(
                    sum_nat(
                        channel as int,
                        |c: int|
                            count_true(
                                take as int,
                                |j: int|
                                    old(self).spec_clips(c, self_skip + j, other.spec_sample(c, other_skip + j)),
                            ),
                    ),
                ),
                forall|c: int, f: int|
                    0 <= c < channel && self_skip <= f < self_skip + take ==> #[trigger] self.spec_sample(c, f)
                        == old(self).spec_stored(c, f, other.spec_sample(c, f - self_skip + other_skip)),
                forall|c: int, f: int|
                    #![trigger self.spec_sample(c, f)]
                    0 <= c < old(self).spec_channels() && 0 <= f < old(self).spec_frames() && !(c < channel && self_skip <= f < self_skip + take)
                        ==> self.spec_sample(c, f) == old(self).spec_sample(c, f),
            decreases channels - channel,
        {
            let ghost before = clipped;
            let mut frame: usize = 0;
            while frame < take
                invariant
                    final(self.spec_storage())@ == final(old(self).spec_storage())@,
                    self.wf(),
                    other.wf(),
                    channels == old(self).spec_channels(),
                    other.spec_channels() == channels,
                    self_skip + take <= old(self).spec_frames() <= usize::MAX,
                    other_skip + take <= other.spec_frames() <= usize::MAX,
                    channel < channels,
                    frame <= take,
                    before == saturated(
                        sum_nat(
                            channel as int,
                            |c: int|
                                count_true(
                                    take as int,
                                    |j: int|
                                        old(self).spec_clips(c, self_skip + j, other.spec_sample(c, other_skip + j)),
                                ),
                        ),
                    ),
                    clipped == saturated(
                        sum_nat(
                            channel as int,
                            |c: int|
                                count_true(
                                    take as int,
                                    |j: int|
                                        old(self).spec_clips(c, self_skip + j, other.spec_sample(c, other_skip + j)),
                                ),
                        ) + count_true(
                            frame as int,
                            |j: int|
                                old(self).spec_clips(channel as int, self_skip + j, other.spec_sample(channel as int, other_skip + j)),
                        ),
                    ),
                    self.spec_channels() == old(self).spec_channels(),
                    self.spec_frames() == old(self).spec_frames(),
                    forall|c: int, f: int, v: T|
                        #![trigger self.spec_stored(c, f, v)]
                        #![trigger old(self).spec_stored(c, f, v)]
                        self.spec_stored(c, f, v) == old(self).spec_stored(c, f, v),
                    forall|c: int, f: int, v: T|
                        #![trigger self.spec_clips(c, f, v)]
                        #![trigger old(self).spec_clips(c, f, v)]
                        self.spec_clips(c, f, v) == old(self).spec_clips(c, f, v),
                    forall|c: int, f: int|
                        ((0 <= c < channel && self_skip <= f < self_skip + take) || (c == channel
                            && self_skip <= f < self_skip + frame)) ==> #[trigger] self.spec_sample(c, f)
                            == old(self).spec_stored(c, f, other.spec_sample(c, f - self_skip + other_skip)),
                    forall|c: int, f: int|
                        #![trigger self.spec_sample(c, f)]
                        0 <= c < old(self).spec_channels() && 0 <= f < old(self).spec_frames() && !((c < channel && self_skip <= f < self_skip + take) || (c == channel && self_skip <= f < self_skip + frame))
                            ==> self.spec_sample(c, f) == old(self).spec_sample(c, f),
                decreases take - frame,
            {
                let value = other.read_sample_unchecked(channel, frame + other_skip);
                let c = self.write_sample_unchecked(channel, frame + self_skip, &value);
                if c && clipped < usize::MAX {
                    clipped += 1;
                }
                frame += 1;
            }
            channel += 1;
        }
        Some(clipped)
    }
}

/// Wrapper for a slice of length `channels`, containing vectors of length `frames`.
/// Each vector contains the samples for all frames of one channel.
/// Only the channels marked as active in a mask are stored:
/// the vectors of the other channels may be empty.
/// Reading from an unused channel returns `T::default()`, while writing to it does nothing.
pub struct SparseSequentialSliceOfVecs<'a, U: 'a, T> {
    buf: U,
    frames: usize,
    channels: usize,
    mask: &'a [bool],
    silence: T,
}

impl<'a, U: 'a, T: Copy> SparseSequentialSliceOfVecs<'a, U, T> {
    /// Whether a channel is marked as active, that is, stored.
    pub closed spec fn spec_active(&self, channel: int) -> bool {
        self.mask@[channel]
    }

    /// The value that reads of an unused channel return.
    pub closed spec fn spec_silence(&self) -> T {
        self.silence
    }
}

impl<'a, T: Copy + Default> SparseSequentialSliceOfVecs<'a, &'a [Vec<T>], T> {
    /// Create a new `SparseSequentialSliceOfVecs` to wrap a slice of vectors.
    /// The slice must contain at least `channels` vectors,
    /// the vectors of the channels that are marked as active must be at least `frames` long,
    /// and the mask must have one entry per channel.
    /// Vectors for unused channels are never accessed and can have any length.
    /// They are allowed to be longer than needed,
    /// but these extra values cannot be accessed via the trait methods.
    pub fn new(buf: &'a [Vec<T>], channels: usize, frames: usize, active_channels_mask: &'a [bool]) -> (r: Result<Self, SizeError>)
        ensures
            active_channels_mask@.len() != channels ==> r == Err::<Self, SizeError>(
                SizeError::Mask { actual: active_channels_mask@.len() as usize, required: channels },
            ),
            r is Ok <==> (active_channels_mask@.len() == channels && channels <= buf@.len() && forall|i: int| 0 <= i < channels && active_channels_mask@[i] ==> frames <= #[trigger] buf@[i]@.len()),
            active_channels_mask@.len() == channels && buf@.len() < channels ==> r == Err::<Self, SizeError>(
                SizeError::ChannelsContainer { actual: buf@.len() as usize, required: channels },
            ),
            r matches Err(SizeError::ChannelBuffer { index, actual, required }) ==> {
                &&& channels <= buf@.len()
                &&& index < buf@.len()
                &&& active_channels_mask@[index as int] && actual == buf@[index as int]@.len() < frames
                &&& required == frames
                &&& forall|j: int| 0 <= j < index ==> active_channels_mask@[j] ==> frames <= #[trigger] buf@[j]@.len()
            },
            r is Err ==> (r matches Err(SizeError::ChannelBuffer { .. }) || r matches Err(
                SizeError::ChannelsContainer { .. },
            ) || r matches Err(SizeError::Mask { .. })),
            r matches Err(SizeError::Mask { .. }) ==> active_channels_mask@.len() != channels,
            r matches Err(SizeError::ChannelsContainer { .. }) ==> active_channels_mask@.len() == channels && buf@.len() < channels,
            r matches Ok(w) ==> {
                &&& w.wf()
                &&& w.spec_channels() == channels
                &&& w.spec_frames() == frames
                &&& forall|c: int| 0 <= c < channels ==> #[trigger] w.spec_active(c) == active_channels_mask@[c]
                &&& call_ensures(T::default, (), w.spec_silence())
                &&& forall|c: int, f: int|
                    0 <= c < channels && 0 <= f < frames ==> #[trigger] w.spec_sample(c, f) == if active_channels_mask@[c] {
                        buf@[c]@[f]
                    } else {
                        w.spec_silence()
                    }
            },
    {
        if active_channels_mask.len() != channels {
            return Err(SizeError::Mask { actual: active_channels_mask.len(), required: channels });
        }
        if buf.len() < channels {
            return Err(SizeError::ChannelsContainer { actual: buf.len(), required: channels });
        }
        let mut idx: usize = 0;
        while idx < channels
            invariant
                channels <= buf@.len(),
                active_channels_mask@.len() == channels,
                idx <= channels,
                forall|j: int| 0 <= j < idx ==> active_channels_mask@[j] ==> frames <= #[trigger] buf@[j]@.len(),
            decreases channels - idx,
        {
            if active_channels_mask[idx] && buf[idx].len() < frames {
                return Err(SizeError::ChannelBuffer { index: idx, actual: buf[idx].len(), required: frames });
            }
            idx += 1;
        }
        let silence = T::default();
        Ok(Self { buf, frames, channels, mask: active_channels_mask, silence })
    }
}

impl<'a, T: Copy + Default> Adapter<T> for SparseSequentialSliceOfVecs<'a, &'a [Vec<T>], T> {
    closed spec fn wf(&self) -> bool {
        self.mask@.len() == self.channels && self.channels <= self.buf@.len() && forall|c: int|
            0 <= c < self.channels && self.mask@[c] ==> self.frames <= #[trigger] self.buf@[c]@.len()
    }

    closed spec fn spec_channels(&self) -> nat {
        self.channels as nat
    }

    closed spec fn spec_frames(&self) -> nat {
        self.frames as nat
    }

    closed spec fn spec_sample(&self, channel: int, frame: int) -> T {
        if self.mask@[channel] {
            self.buf@[channel]@[frame]
        } else {
            self.silence
        }
    }

    fn read_sample_unchecked(&self, channel: usize, frame: usize) -> (value: T) {
        if self.mask[channel] {
            self.buf[channel][frame]
        } else {
            self.silence
        }
    }

    fn channels(&self) -> (n: usize) {
        self.channels
    }

    fn frames(&self) -> (n: usize) {
        self.frames
    }

    /// A channel that is not stored reads as silence.
    fn copy_from_channel_to_slice(&self, channel: usize, skip: usize, slice: &mut [T]) -> (n: usize) {
        if channel >= self.channels || skip >= self.frames {
            return 0;
        }
        let n = if self.frames - skip < slice.len() {
            self.frames - skip
        } else {
            slice.len()
        };
        let mut i: usize = 0;
        while i < n
            invariant
                self.wf(),
                channel < self.channels,
                skip + n <= self.frames,
                n <= old(slice)@.len(),
                i <= n,
                slice@.len() == old(slice)@.len(),
                forall|j: int| 0 <= j < i ==> #[trigger] slice@[j] == self.spec_sample(channel as int, skip + j),
                forall|j: int| i <= j < old(slice)@.len() ==> #[trigger] slice@[j] == old(slice)@[j],
            decreases n - i,
        {
            slice[i] = if self.mask[channel] {
                self.buf[channel][skip + i]
            } else {
                self.silence
            };
            i += 1;
        }
        n
    }
}

impl<'a, T: Copy + Default> SparseSequentialSliceOfVecs<'a, &'a mut [Vec<T>], T> {
    /// The wrapped storage, through which the samples are written to the caller's buffer.
    pub closed spec fn spec_storage(&self) -> &'a mut [Vec<T>] {
        self.buf
    }

    /// Once the wrapper is no longer used, the vectors of the stored channels
    /// hold its samples.
    pub proof fn lemma_storage(&self)
        requires
            self.wf(),
            has_resolved(*self),
        ensures
            forall|c: int, f: int|
                0 <= c < self.spec_channels() && 0 <= f < self.spec_frames() && self.spec_active(c) ==> final(self.spec_storage())@[c]@[f] == #[trigger] self.spec_sample(c, f),
    {
    }

    /// Create a new `SparseSequentialSliceOfVecs` to wrap a mutable slice of vectors.
    /// The slice must contain at least `channels` vectors,
    /// the vectors of the channels that are marked as active must be at least `frames` long,
    /// and the mask must have one entry per channel.
    /// Vectors for unused channels are never accessed and can have any length.
    /// They are allowed to be longer than needed,
    /// but these extra values cannot be accessed via the trait methods.
    pub fn new_mut(buf: &'a mut [Vec<T>], channels: usize, frames: usize, active_channels_mask: &'a [bool]) -> (r: Result<Self, SizeError>)
        ensures
            active_channels_mask@.len() != channels ==> r == Err::<Self, SizeError>(
                SizeError::Mask { actual: active_channels_mask@.len() as usize, required: channels },
            ),
            r is Ok <==> (active_channels_mask@.len() == channels && channels <= old(buf)@.len() && forall|i: int| 0 <= i < channels && active_channels_mask@[i] ==> frames <= #[trigger] old(buf)@[i]@.len()),
            active_channels_mask@.len() == channels && old(buf)@.len() < channels ==> r == Err::<Self, SizeError>(
                SizeError::ChannelsContainer { actual: old(buf)@.len() as usize, required: channels },
            ),
            r matches Err(SizeError::ChannelBuffer { index, actual, required }) ==> {
                &&& channels <= old(buf)@.len()
                &&& index < old(buf)@.len()
                &&& active_channels_mask@[index as int] && actual == old(buf)@[index as int]@.len() < frames
                &&& required == frames
                &&& forall|j: int| 0 <= j < index ==> active_channels_mask@[j] ==> frames <= #[trigger] old(buf)@[j]@.len()
            },
            r is Err ==> (r matches Err(SizeError::ChannelBuffer { .. }) || r matches Err(
                SizeError::ChannelsContainer { .. },
            ) || r matches Err(SizeError::Mask { .. })),
            r matches Err(SizeError::Mask { .. }) ==> active_channels_mask@.len() != channels,
            r matches Err(SizeError::ChannelsContainer { .. }) ==> active_channels_mask@.len() == channels && old(buf)@.len() < channels,
            r is Err ==> final(buf)@ == old(buf)@,
            r matches Ok(w) ==> {
                &&& final(w.spec_storage())@ == final(buf)@
                &&& w.wf()
                &&& w.spec_channels() == channels
                &&& w.spec_frames() == frames
                &&& forall|c: int| 0 <= c < channels ==> #[trigger] w.spec_active(c) == active_channels_mask@[c]
                &&& call_ensures(T::default, (), w.spec_silence())
                &&& forall|c: int, f: int|
                    0 <= c < channels && 0 <= f < frames ==> #[trigger] w.spec_sample(c, f) == if active_channels_mask@[c] {
                        old(buf)@[c]@[f]
                    } else {
                        w.spec_silence()
                    }
            },
    {
        if active_channels_mask.len() != channels {
            return Err(SizeError::Mask { actual: active_channels_mask.len(), required: channels });
        }
        if buf.len() < channels {
            return Err(SizeError::ChannelsContainer { actual: buf.len(), required: channels });
        }
        let mut idx: usize = 0;
        while idx < channels
            invariant
                channels <= buf@.len(),
                active_channels_mask@.len() == channels,
                buf@ == old(buf)@,
                idx <= channels,
                forall|j: int| 0 <= j < idx ==> active_channels_mask@[j] ==> frames <= #[trigger] buf@[j]@.len(),
            decreases channels - idx,
        {
            if active_channels_mask[idx] && buf[idx].len() < frames {
                return Err(SizeError::ChannelBuffer { index: idx, actual: buf[idx].len(), required: frames });
            }
            idx += 1;
        }
        let silence = T::default();
        Ok(Self { buf, frames, channels, mask: active_channels_mask, silence })
    }
}

impl<'a, T: Copy + Default> Adapter<T> for SparseSequentialSliceOfVecs<'a, &'a mut [Vec<T>], T> {
    closed spec fn wf(&self) -> bool {
        self.mask@.len() == self.channels && self.channels <= self.buf@.len() && forall|c: int|
            0 <= c < self.channels && self.mask@[c] ==> self.frames <= #[trigger] self.buf@[c]@.len()
    }

    closed spec fn spec_channels(&self) -> nat {
        self.channels as nat
    }

    closed spec fn spec_frames(&self) -> nat {
        self.frames as nat
    }

    closed spec fn spec_sample(&self, channel: int, frame: int) -> T {
        if self.mask@[channel] {
            self.buf@[channel]@[frame]
        } else {
            self.silence
        }
    }

    fn read_sample_unchecked(&self, channel: usize, frame: usize) -> (value: T) {
        if self.mask[channel] {
            self.buf[channel][frame]
        } else {
            self.silence
        }
    }

    fn channels(&self) -> (n: usize) {
        self.channels
    }

    fn frames(&self) -> (n: usize) {
        self.frames
    }

    /// A channel that is not stored reads as silence.
    fn copy_from_channel_to_slice(&self, channel: usize, skip: usize, slice: &mut [T]) -> (n: usize) {
        if channel >= self.channels || skip >= self.frames {
            return 0;
        }
        let n = if self.frames - skip < slice.len() {
            self.frames - skip
        } else {
            slice.len()
        };
        let mut i: usize = 0;
        while i < n
            invariant
                self.wf(),
                channel < self.channels,
                skip + n <= self.frames,
                n <= old(slice)@.len(),
                i <= n,
                slice@.len() == old(slice)@.len(),
                forall|j: int| 0 <= j < i ==> #[trigger] slice@[j] == self.spec_sample(channel as int, skip + j),
                forall|j: int| i <= j < old(slice)@.len() ==> #[trigger] slice@[j] == old(slice)@[j],
            decreases n - i,
        {
            slice[i] = if self.mask[channel] {
                self.buf[channel][skip + i]
            } else {
                self.silence
            };
            i += 1;
        }
        n
    }
}

impl<'a, T: Copy + Default> AdapterMut<T> for SparseSequentialSliceOfVecs<'a, &'a mut [Vec<T>], T> {
    closed spec fn spec_stored(&self, channel: int, frame: int, value: T) -> T {
        if 0 <= channel < self.mask@.len() && self.mask@[channel] {
            value
        } else {
            self.silence
        }
    }

    open spec fn spec_clips(&self, channel: int, frame: int, value: T) -> bool {
        false
    }

    fn write_sample_unchecked(&mut self, channel: usize, frame: usize, value: &T) -> (clipped:
        bool)
        ensures
            final(final(self).spec_storage())@ == final(old(self).spec_storage())@,
    {
        if self.mask[channel] {
            self.buf[channel][frame] = *value;
        }
        false
    }

    /// Writes to a channel that is not stored are dropped: the values count as
    /// copied, and nothing changes.
    fn copy_from_slice_to_channel(&mut self, channel: usize, skip: usize, slice: &[T]) -> (r: (
        usize,
        usize,
    ))
        ensures
            final(final(self).spec_storage())@ == final(old(self).spec_storage())@,
    {
        if channel >= self.channels || skip >= self.frames {
            return (0, 0);
        }
        let n = if self.frames - skip < slice.len() {
            self.frames - skip
        } else {
            slice.len()
        };
        if !self.mask[channel] {
            proof {
                lemma_count_true_none(n as int, |j: int| old(self).spec_clips(channel as int, skip + j, slice@[j]));
            }
            return (n, 0);
        }
        let mut i: usize = 0;
        while i < n
            invariant
                final(self.spec_storage())@ == final(old(self).spec_storage())@,
                self.channels == old(self).channels,
                self.frames == old(self).frames,
                self.mask == old(self).mask,
                self.silence == old(self).silence,
                self.buf@.len() == old(self).buf@.len(),
                self.wf(),
                channel < self.channels,
                self.mask@[channel as int],
                skip + n <= self.frames,
                n <= slice@.len(),
                i <= n,
                forall|j: int|
                    0 <= j < i ==> #[trigger] self.spec_sample(channel as int, skip + j) == slice@[j],
                forall|c: int, f: int|
                    #![trigger self.spec_sample(c, f)]
                    0 <= c < self.channels && 0 <= f < self.frames && !(c == channel && skip <= f
                        < skip + i) ==> self.spec_sample(c, f) == old(self).spec_sample(c, f),
                0 == count_true(i as int, |j: int| old(self).spec_clips(channel as int, skip + j, slice@[j])),
            decreases n - i,
        {
            let ghost before = *self;
            self.buf[channel][skip + i] = slice[i];
            proof {
                assert forall|j: int| 0 <= j < i + 1 implies #[trigger] self.spec_sample(
                    channel as int,
                    skip + j,
                ) == slice@[j] by {
                    if j < i {
                        assert(before.spec_sample(channel as int, skip + j) == slice@[j]);
                    }
                }
                assert forall|c: int, f: int|
                    0 <= c < self.channels && 0 <= f < self.frames && !(c == channel && skip <= f
                        < skip + i + 1) implies #[trigger] self.spec_sample(c, f) == old(self).spec_sample(c, f) by {
                    assert(before.spec_sample(c, f) == old(self).spec_sample(c, f));
                }
            }
            i += 1;
        }
        (n, 0)
    }

    /// Declines, changing nothing, when either channel is not stored.
    fn copy_sample_within(
        &mut self,
        source_channel: usize,
        source_frame: usize,
        target_channel: usize,
        target_frame: usize,
    ) -> (copied: bool)
        ensures
            final(final(self).spec_storage())@ == final(old(self).spec_storage())@,
            copied <==> (source_channel < old(self).spec_channels() && source_frame
                < old(self).spec_frames() && target_channel < old(self).spec_channels()
                && target_frame < old(self).spec_frames() && old(self).spec_active(
                source_channel as int,
            ) && old(self).spec_active(target_channel as int)),
    {
        if source_channel >= self.channels || source_frame >= self.frames || target_channel
            >= self.channels || target_frame >= self.frames || !self.mask[source_channel]
            || !self.mask[target_channel] {
            return false;
        }
        let value = self.buf[source_channel][source_frame];
        self.buf[target_channel][target_frame] = value;
        true
    }

    /// Declines, changing nothing, when either channel is not stored.
    fn swap_samples(
        &mut self,
        channel_a: usize,
        frame_a: usize,
        channel_b: usize,
        frame_b: usize,
    ) -> (swapped: bool)
        ensures
            final(final(self).spec_storage())@ == final(old(self).spec_storage())@,
            swapped <==> (channel_a < old(self).spec_channels() && frame_a < old(self).spec_frames()
                && channel_b < old(self).spec_channels() && frame_b < old(self).spec_frames()
                && old(self).spec_active(channel_a as int) && old(self).spec_active(
                channel_b as int,
            )),
    {
        if channel_a >= self.channels || frame_a >= self.frames || channel_b >= self.channels
            || frame_b >= self.frames || !self.mask[channel_a] || !self.mask[channel_b] {
            return false;
        }
        let temp = self.buf[channel_a][frame_a];
        let other = self.buf[channel_b][frame_b];
        self.buf[channel_a][frame_a] = other;
        self.buf[channel_b][frame_b] = temp;
        true
    }

    fn write_sample(&mut self, channel: usize, frame: usize, value: &T) -> (clipped: Option<bool>)
        ensures
            final(final(self).spec_storage())@ == final(old(self).spec_storage())@,
    {
        if channel >= self.channels() || frame >= self.frames() {
            return None;
        }
        Some(self.write_sample_unchecked(channel, frame, value))
    }

    fn copy_from_slice_to_frame(&mut self, frame: usize, skip: usize, slice: &[T]) -> (r: (
        usize,
        usize,
    ))
        ensures
            final(final(self).spec_storage())@ == final(old(self).spec_storage())@,
    {
        if frame >= self.frames() || skip >= self.channels() {
            return (0, 0);
        }
        let n = if self.channels() - skip < slice.len() {
            self.channels() - skip
        } else {
            slice.len()
        };
        let mut clipped: usize = 0;
        let mut i: usize = 0;
        while i < n
            invariant
                final(self.spec_storage())@ == final(old(self).spec_storage())@,
                self.wf(),
                frame < old(self).spec_frames(),
                skip + n <= old(self).spec_channels() <= usize::MAX,
                n <= slice@.len(),
                i <= n,
                clipped <= i,
                self.spec_channels() == old(self).spec_channels(),
                self.spec_frames() == old(self).spec_frames(),
                forall|c: int, f: int, v: T|
                    #![trigger self.spec_stored(c, f, v)]
                    #![trigger old(self).spec_stored(c, f, v)]
                    self.spec_stored(c, f, v) == old(self).spec_stored(c, f, v),
                forall|c: int, f: int, v: T|
                    #![trigger self.spec_clips(c, f, v)]
                    #![trigger old(self).spec_clips(c, f, v)]
                    self.spec_clips(c, f, v) == old(self).spec_clips(c, f, v),
                forall|j: int|
                    0 <= j < i ==> #[trigger] self.spec_sample(skip + j, frame as int) == old(self).spec_stored(
                        skip + j, frame as int,
                        slice@[j],
                    ),
                forall|c: int, f: int|
                    #![trigger self.spec_sample(c, f)]
                    0 <= c < old(self).spec_channels() && 0 <= f < old(self).spec_frames() && !(f == frame && skip <= c < skip + i)
                        ==> self.spec_sample(c, f) == old(self).spec_sample(c, f),
                clipped == count_true(i as int, |j: int| old(self).spec_clips(skip + j, frame as int, slice@[j])),
            decreases n - i,
        {
            let value = slice[i];
            let c = self.write_sample_unchecked(skip + i, frame, &value);
            if c {
                clipped += 1;
            }
            i += 1;
        }
        (n, clipped)
    }

    fn copy_from_other_to_channel(
        &mut self,
        other: &dyn Adapter<T>,
        other_channel: usize,
        self_channel: usize,
        other_skip: usize,
        self_skip: usize,
        take: usize,
    ) -> (clipped: Option<usize>)
        ensures
            final(final(self).spec_storage())@ == final(old(self).spec_storage())@,
    {
        if self_channel >= self.channels() || take > self.frames() || self_skip > self.frames()
            - take || other_channel >= other.channels() || take > other.frames() || other_skip
            > other.frames() - take {
            return None;
        }
        let mut clipped: usize = 0;
        let mut i: usize = 0;
        while i < take
            invariant
                final(self.spec_storage())@ == final(old(self).spec_storage())@,
                self.wf(),
                other.wf(),
                self_channel < old(self).spec_channels(),
                self_skip + take <= old(self).spec_frames() <= usize::MAX,
                other_channel < other.spec_channels(),
                other_skip + take <= other.spec_frames() <= usize::MAX,
                i <= take,
                clipped <= i,
                self.spec_channels() == old(self).spec_channels(),
                self.spec_frames() == old(self).spec_frames(),
                forall|c: int, f: int, v: T|
                    #![trigger self.spec_stored(c, f, v)]
                    #![trigger old(self).spec_stored(c, f, v)]
                    self.spec_stored(c, f, v) == old(self).spec_stored(c, f, v),
                forall|c: int, f: int, v: T|
                    #![trigger self.spec_clips(c, f, v)]
                    #![trigger old(self).spec_clips(c, f, v)]
                    self.spec_clips(c, f, v) == old(self).spec_clips(c, f, v),
                forall|j: int|
                    0 <= j < i ==> #[trigger] self.spec_sample(self_channel as int, self_skip + j)
                        == old(self).spec_stored(
                        self_channel as int,
                        self_skip + j,
                        other.spec_sample(other_channel as int, other_skip + j),
                    ),
                forall|c: int, f: int|
                    #![trigger self.spec_sample(c, f)]
                    0 <= c < old(self).spec_channels() && 0 <= f < old(self).spec_frames() && !(c == self_channel && self_skip <= f < self_skip + i)
                        ==> self.spec_sample(c, f) == old(self).spec_sample(c, f),
                clipped == count_true(
                    i as int,
                    |j: int|
                        old(self).spec_clips(
                            self_channel as int,
                            self_skip + j,
                            other.spec_sample(other_channel as int, other_skip + j),
                        ),
                ),
            decreases take - i,
        {
            let value = other.read_sample_unchecked(other_channel, other_skip + i);
            let c = self.write_sample_unchecked(self_channel, self_skip + i, &value);
            if c {
                clipped += 1;
            }
            i += 1;
        }
        Some(clipped)
    }

    fn fill_channel_with(&mut self, channel: usize, value: &T) -> (done: Option<()>)
        ensures
            final(final(self).spec_storage())@ == final(old(self).spec_storage())@,
    {
        if channel >= self.channels() {
            return None;
        }
        let frames = self.frames();
        let mut frame: usize = 0;
        while frame < frames
            invariant
                final(self.spec_storage())@ == final(old(self).spec_storage())@,
                self.wf(),
                channel < old(self).spec_channels(),
                frames == old(self).spec_frames(),
                frame <= frames,
                self.spec_channels() == old(self).spec_channels(),
                self.spec_frames() == old(self).spec_frames(),
                forall|c: int, f: int, v: T|
                    #![trigger self.spec_stored(c, f, v)]
                    #![trigger old(self).spec_stored(c, f, v)]
                    self.spec_stored(c, f, v) == old(self).spec_stored(c, f, v),
                forall|c: int, f: int, v: T|
                    #![trigger self.spec_clips(c, f, v)]
                    #![trigger old(self).spec_clips(c, f, v)]
                    self.spec_clips(c, f, v) == old(self).spec_clips(c, f, v),
                forall|f: int|
                    0 <= f < frame ==> #[trigger] self.spec_sample(channel as int, f)
                        == old(self).spec_stored(channel as int, f, *value),
                forall|c: int, f: int|
                    #![trigger self.spec_sample(c, f)]
                    0 <= c < old(self).spec_channels() && 0 <= f < old(self).spec_frames() && !(c == channel && f < frame)
                        ==> self.spec_sample(c, f) == old(self).spec_sample(c, f),
            decreases frames - frame,
        {
            self.write_sample_unchecked(channel, frame, value);
            frame += 1;
        }
        Some(())
    }

    fn fill_frame_with(&mut self, frame: usize, value: &T) -> (done: Option<()>)
        ensures
            final(final(self).spec_storage())@ == final(old(self).spec_storage())@,
    {
        if frame >= self.frames() {
            return None;
        }
        let channels = self.channels();
        let mut channel: usize = 0;
        while channel < channels
            invariant
                final(self.spec_storage())@ == final(old(self).spec_storage())@,
                self.wf(),
                frame < old(self).spec_frames(),
                channels == old(self).spec_channels(),
                channel <= channels,
                self.spec_channels() == old(self).spec_channels(),
                self.spec_frames() == old(self).spec_frames(),
                forall|c: int, f: int, v: T|
                    #![trigger self.spec_stored(c, f, v)]
                    #![trigger old(self).spec_stored(c, f, v)]
                    self.spec_stored(c, f, v) == old(self).spec_stored(c, f, v),
                forall|c: int, f: int, v: T|
                    #![trigger self.spec_clips(c, f, v)]
                    #![trigger old(self).spec_clips(c, f, v)]
                    self.spec_clips(c, f, v) == old(self).spec_clips(c, f, v),
                forall|c: int|
                    0 <= c < channel ==> #[trigger] self.spec_sample(c, frame as int)
                        == old(self).spec_stored(c, frame as int, *value),
                forall|c: int, f: int|
                    #![trigger self.spec_sample(c, f)]
                    0 <= c < old(self).spec_channels() && 0 <= f < old(self).spec_frames() && !(f == frame && c < channel)
                        ==> self.spec_sample(c, f) == old(self).spec_sample(c, f),
            decreases channels - channel,
        {
            self.write_sample_unchecked(channel, frame, value);
            channel += 1;
        }
        Some(())
    }

    fn fill_frames_with(&mut self, start: usize, count: usize, value: &T) -> (written: Option<
        usize,
    >)
        ensures
            final(final(self).spec_storage())@ == final(old(self).spec_storage())@,
    {
        if count > self.frames() || start > self.frames() - count {
            return None;
        }
        let channels = self.channels();
        let mut channel: usize = 0;
        while channel < channels
            invariant
                final(self.spec_storage())@ == final(old(self).spec_storage())@,
                self.wf(),
                start + count <= old(self).spec_frames() <= usize::MAX,
                channels == old(self).spec_channels(),
                channel <= channels,
                self.spec_channels() == old(self).spec_channels(),
                self.spec_frames() == old(self).spec_frames(),
                forall|c: int, f: int, v: T|
                    #![trigger self.spec_stored(c, f, v)]
                    #![trigger old(self).spec_stored(c, f, v)]
                    self.spec_stored(c, f, v) == old(self).spec_stored(c, f, v),
                forall|c: int, f: int, v: T|
                    #![trigger self.spec_clips(c, f, v)]
                    #![trigger old(self).spec_clips(c, f, v)]
                    self.spec_clips(c, f, v) == old(self).spec_clips(c, f, v),
                forall|c: int, f: int|
                    0 <= c < channel && start <= f < start + count ==> #[trigger] self.spec_sample(c, f)
                        == old(self).spec_stored(c, f, *value),
                forall|c: int, f: int|
                    #![trigger self.spec_sample(c, f)]
                    0 <= c < old(self).spec_channels() && 0 <= f < old(self).spec_frames() && !(c < channel && start <= f < start + count)
                        ==> self.spec_sample(c, f) == old(self).spec_sample(c, f),
            decreases channels - channel,
        {
            let mut frame: usize = start;
            while frame < start + count
                invariant
                    final(self.spec_storage())@ == final(old(self).spec_storage())@,
                    self.wf(),
                    start + count <= old(self).spec_frames() <= usize::MAX,
                    channels == old(self).spec_channels(),
                    channel < channels,
                    start <= frame <= start + count,
                    self.spec_channels() == old(self).spec_channels(),
                    self.spec_frames() == old(self).spec_frames(),
                    forall|c: int, f: int, v: T|
                        #![trigger self.spec_stored(c, f, v)]
                        #![trigger old(self).spec_stored(c, f, v)]
                        self.spec_stored(c, f, v) == old(self).spec_stored(c, f, v),
                    forall|c: int, f: int, v: T|
                        #![trigger self.spec_clips(c, f, v)]
                        #![trigger old(self).spec_clips(c, f, v)]
                        self.spec_clips(c, f, v) == old(self).spec_clips(c, f, v),
                    forall|c: int, f: int|
                        ((0 <= c < channel && start <= f < start + count) || (c == channel && start
                            <= f < frame)) ==> #[trigger] self.spec_sample(c, f)
                            == old(self).spec_stored(c, f, *value),
                    forall|c: int, f: int|
                        #![trigger self.spec_sample(c, f)]
                        0 <= c < old(self).spec_channels() && 0 <= f < old(self).spec_frames() && !((c < channel && start <= f < start + count) || (c == channel && start <= f < frame))
                            ==> self.spec_sample(c, f) == old(self).spec_sample(c, f),
                decreases start + count - frame,
            {
                self.write_sample_unchecked(channel, frame, value);
                frame += 1;
            }
            channel += 1;
        }
        Some(count)
    }

    fn fill_with(&mut self, value: &T)
        ensures
            final(final(self).spec_storage())@ == final(old(self).spec_storage())@,
    {
        let channels = self.channels();
        let mut channel: usize = 0;
        while channel < channels
            invariant
                final(self.spec_storage())@ == final(old(self).spec_storage())@,
                self.wf(),
                channels == old(self).spec_channels(),
                channel <= channels,
                self.spec_channels() == old(self).spec_channels(),
                self.spec_frames() == old(self).spec_frames(),
                forall|c: int, f: int, v: T|
                    #![trigger self.spec_stored(c, f, v)]
                    #![trigger old(self).spec_stored(c, f, v)]
                    self.spec_stored(c, f, v) == old(self).spec_stored(c, f, v),
                forall|c: int, f: int, v: T|
                    #![trigger self.spec_clips(c, f, v)]
                    #![trigger old(self).spec_clips(c, f, v)]
                    self.spec_clips(c, f, v) == old(self).spec_clips(c, f, v),
                forall|c: int, f: int|
                    0 <= c < channel && 0 <= f < old(self).spec_frames() ==> #[trigger] self.spec_sample(c, f)
                        == old(self).spec_stored(c, f, *value),
            decreases channels - channel,
        {
            self.fill_channel_with(channel, value);
            channel += 1;
        }
    }

    fn copy_from_other(
        &mut self,
        other: &dyn Adapter<T>,
        other_skip: usize,
        self_skip: usize,
        take: usize,
    ) -> (clipped: Option<usize>)
        ensures
            final(final(self).spec_storage())@ == final(old(self).spec_storage())@,
    {
        if other.channels() != self.channels() || take > self.frames() || self_skip > self.frames()
            - take || take > other.frames() || other_skip > other.frames() - take {
            return None;
        }
        let channels = self.channels();
        let mut clipped: usize = 0;
        let mut channel: usize = 0;
        while channel < channels
            invariant
                final(self.spec_storage())@ == final(old(self).spec_storage())@,
                self.wf(),
                other.wf(),
                channels == old(self).spec_channels(),
                other.spec_channels() == channels,
                self_skip + take <= old(self).spec_frames() <= usize::MAX,
                other_skip + take <= other.spec_frames() <= usize::MAX,
                channel <= channels,
                self.spec_channels() == old(self).spec_channels(),
                self.spec_frames() == old(self).spec_frames(),
                forall|c: int, f: int, v: T|
                    #![trigger self.spec_stored(c, f, v)]
                    #![trigger old(self).spec_stored(c, f, v)]
                    self.spec_stored(c, f, v) == old(self).spec_stored(c, f, v),
                forall|c: int, f: int, v: T|
                    #![trigger self.spec_clips(c, f, v)]
                    #![trigger old(self).spec_clips(c, f, v)]
                    self.spec_clips(c, f, v) == old(self).spec_clips(c, f, v),
                clipped == saturated(
                    sum_nat(
                        channel as int,
                        |c: int|
                            count_true(
                                take as int,
                                |j: int|
                                    old(self).spec_clips(c, self_skip + j, other.spec_sample(c, other_skip + j)),
                            ),
                    ),
                ),
                forall|c: int, f: int|
                    0 <= c < channel && self_skip <= f < self_skip + take ==> #[trigger] self.spec_sample(c, f)
                        == old(self).spec_stored(c, f, other.spec_sample(c, f - self_skip + other_skip)),
                forall|c: int, f: int|
                    #![trigger self.spec_sample(c, f)]
                    0 <= c < old(self).spec_channels() && 0 <= f < old(self).spec_frames() && !(c < channel && self_skip <= f < self_skip + take)
                        ==> self.spec_sample(c, f) == old(self).spec_sample(c, f),
            decreases channels - channel,
        {
            let ghost before = clipped;
            let mut frame: usize = 0;
            while frame < take
                invariant
                    final(self.spec_storage())@ == final(old(self).spec_storage())@,
                    self.wf(),
                    other.wf(),
                    channels == old(self).spec_channels(),
                    other.spec_channels() == channels,
                    self_skip + take <= old(self).spec_frames() <= usize::MAX,
                    other_skip + take <= other.spec_frames() <= usize::MAX,
                    channel < channels,
                    frame <= take,
                    before == saturated(
                        sum_nat(
                            channel as int,
                            |c: int|
                                count_true(
                                    take as int,
                                    |j: int|
                                        old(self).spec_clips(c, self_skip + j, other.spec_sample(c, other_skip + j)),
                                ),
                        ),
                    ),
                    clipped == saturated(
                        sum_nat(
                            channel as int,
                            |c: int|
                                count_true(
                                    take as int,
                                    |j: int|
                                        old(self).spec_clips(c, self_skip + j, other.spec_sample(c, other_skip + j)),
                                ),
                        ) + count_true(
                            frame as int,
                            |j: int|
                                old(self).spec_clips(channel as int, self_skip + j, other.spec_sample(channel as int, other_skip + j)),
                        ),
                    ),
                    self.spec_channels() == old(self).spec_channels(),
                    self.spec_frames() == old(self).spec_frames(),
                    forall|c: int, f: int, v: T|
                        #![trigger self.spec_stored(c, f, v)]
                        #![trigger old(self).spec_stored(c, f, v)]
                        self.spec_stored(c, f, v) == old(self).spec_stored(c, f, v),
                    forall|c: int, f: int, v: T|
                        #![trigger self.spec_clips(c, f, v)]
                        #![trigger old(self).spec_clips(c, f, v)]
                        self.spec_clips(c, f, v) == old(self).spec_clips(c, f, v),
                    forall|c: int, f: int|
                        ((0 <= c < channel && self_skip <= f < self_skip + take) || (c == channel
                            && self_skip <= f < self_skip + frame)) ==> #[trigger] self.spec_sample(c, f)
                            == old(self).spec_stored(c, f, other.spec_sample(c, f - self_skip + other_skip)),
                    forall|c: int, f: int|
                        #![trigger self.spec_sample(c, f)]
                        0 <= c < old(self).spec_channels() && 0 <= f < old(self).spec_frames() && !((c < channel && self_skip <= f < self_skip + take) || (c == channel && self_skip <= f < self_skip + frame))
                            ==> self.spec_sample(c, f) == old(self).spec_sample(c, f),
                decreases take - frame,
            {
                let value = other.read_sample_unchecked(channel, frame + other_skip);
                let c = self.write_sample_unchecked(channel, frame + self_skip, &value);
                if c && clipped < usize::MAX {
                    clipped += 1;
                }
                frame += 1;
            }
            channel += 1;
        }
        Some(clipped)
    }
}

/// Wrapper for a slice of length `channels`, containing slices of length `frames`.
/// Each channel slice contains the samples for all frames of one channel.
pub struct SequentialSliceOfSlices<U> {
    buf: U,
    frames: usize,
    channels: usize,
}

impl<'a, T: Copy> SequentialSliceOfSlices<&'a [&'a [T]]> {
    /// Create a new `SequentialSliceOfSlices` to wrap a slice of slices.
    /// The slice must contain at least `channels` slices,
    /// and each of them must be at least `frames` long.
    /// They are allowed to be longer than needed,
    /// but these extra values cannot be accessed via the trait methods.
    pub fn new(buf: &'a [&'a [T]], channels: usize, frames: usize) -> (r: Result<Self, SizeError>)
        ensures
            r is Ok <==> (channels <= buf@.len() && forall|i: int| 0 <= i < buf@.len() ==> frames <= #[trigger] buf@[i]@.len()),
            buf@.len() < channels ==> r == Err::<Self, SizeError>(
                SizeError::ChannelsContainer { actual: buf@.len() as usize, required: channels },
            ),
            r matches Err(SizeError::ChannelBuffer { index, actual, required }) ==> {
                &&& channels <= buf@.len()
                &&& index < buf@.len()
                &&& actual == buf@[index as int]@.len() < frames
                &&& required == frames
                &&& forall|j: int| 0 <= j < index ==> frames <= #[trigger] buf@[j]@.len()
            },
            r is Err ==> (r matches Err(SizeError::ChannelBuffer { .. }) || r matches Err(
                SizeError::ChannelsContainer { .. },
            )),
            r matches Err(SizeError::ChannelsContainer { .. }) ==> buf@.len() < channels,
            r matches Ok(w) ==> {
                &&& w.wf()
                &&& w.spec_channels() == channels
                &&& w.spec_frames() == frames
                &&& forall|c: int, f: int|
                    0 <= c < channels && 0 <= f < frames ==> #[trigger] w.spec_sample(c, f)
                        == buf@[c]@[f]
            },
    {
        if buf.len() < channels {
            return Err(SizeError::ChannelsContainer { actual: buf.len(), required: channels });
        }
        let mut idx: usize = 0;
        while idx < buf.len()
            invariant
                channels <= buf@.len(),
                idx <= buf.len(),
                forall|j: int| 0 <= j < idx ==> frames <= #[trigger] buf@[j]@.len(),
            decreases buf.len() - idx,
        {
            if buf[idx].len() < frames {
                return Err(SizeError::ChannelBuffer { index: idx, actual: buf[idx].len(), required: frames });
            }
            idx += 1;
        }
        Ok(Self { buf, frames, channels })
    }
}

impl<'a, T: Copy> Adapter<T> for SequentialSliceOfSlices<&'a [&'a [T]]> {
    closed spec fn wf(&self) -> bool {
        self.channels <= self.buf@.len() && forall|i: int|
            0 <= i < self.channels ==> self.frames <= #[trigger] self.buf@[i]@.len()
    }

    closed spec fn spec_channels(&self) -> nat {
        self.channels as nat
    }

    closed spec fn spec_frames(&self) -> nat {
        self.frames as nat
    }

    closed spec fn spec_sample(&self, channel: int, frame: int) -> T {
        self.buf@[channel]@[frame]
    }

    fn read_sample_unchecked(&self, channel: usize, frame: usize) -> (value: T) {
        self.buf[channel][frame]
    }

    fn channels(&self) -> (n: usize) {
        self.channels
    }

    fn frames(&self) -> (n: usize) {
        self.frames
    }
}

impl<'a, T: Copy> SequentialSliceOfSlices<&'a mut [&'a mut [T]]> {
    /// The wrapped storage, through which the samples are written to the caller's buffer.
    pub closed spec fn spec_storage(&self) -> &'a mut [&'a mut [T]] {
        self.buf
    }

    /// Once the wrapper is no longer used, the wrapped slices hold its samples,
    /// one slice per channel.
    pub proof fn lemma_storage(&self)
        requires
            self.wf(),
            has_resolved(*self),
        ensures
            forall|c: int, f: int|
                0 <= c < self.spec_channels() && 0 <= f < self.spec_frames() ==> final(self.spec_storage())@[c]@[f] == #[trigger] self.spec_sample(c, f),
    {
    }

    /// Create a new `SequentialSliceOfSlices` to wrap a mutable slice of slices.
    /// The slice must contain at least `channels` slices,
    /// and each of them must be at least `frames` long.
    /// They are allowed to be longer than needed,
    /// but these extra values cannot be accessed via the trait methods.
    pub fn new_mut(buf: &'a mut [&'a mut [T]], channels: usize, frames: usize) -> (r: Result<Self, SizeError>)
        ensures
            r is Ok <==> (channels <= old(buf)@.len() && forall|i: int| 0 <= i < old(buf)@.len() ==> frames <= #[trigger] old(buf)@[i]@.len()),
            old(buf)@.len() < channels ==> r == Err::<Self, SizeError>(
                SizeError::ChannelsContainer { actual: old(buf)@.len() as usize, required: channels },
            ),
            r matches Err(SizeError::ChannelBuffer { index, actual, required }) ==> {
                &&& channels <= old(buf)@.len()
                &&& index < old(buf)@.len()
                &&& actual == old(buf)@[index as int]@.len() < frames
                &&& required == frames
                &&& forall|j: int| 0 <= j < index ==> frames <= #[trigger] old(buf)@[j]@.len()
            },
            r is Err ==> (r matches Err(SizeError::ChannelBuffer { .. }) || r matches Err(
                SizeError::ChannelsContainer { .. },
            )),
            r matches Err(SizeError::ChannelsContainer { .. }) ==> old(buf)@.len() < channels,
            r is Err ==> final(buf)@ == old(buf)@,
            r matches Ok(w) ==> {
                &&& final(w.spec_storage())@ == final(buf)@
                &&& w.wf()
                &&& w.spec_channels() == channels
                &&& w.spec_frames() == frames
                &&& forall|c: int, f: int|
                    0 <= c < channels && 0 <= f < frames ==> #[trigger] w.spec_sample(c, f)
                        == old(buf)@[c]@[f]
            },
    {
        if buf.len() < channels {
            return Err(SizeError::ChannelsContainer { actual: buf.len(), required: channels });
        }
        let mut idx: usize = 0;
        while idx < buf.len()
            invariant
                channels <= buf@.len(),
                buf@ == old(buf)@,
                idx <= buf.len(),
                forall|j: int| 0 <= j < idx ==> frames <= #[trigger] buf@[j]@.len(),
            decreases buf.len() - idx,
        {
            if buf[idx].len() < frames {
                return Err(SizeError::ChannelBuffer { index: idx, actual: buf[idx].len(), required: frames });
            }
            idx += 1;
        }
        Ok(Self { buf, frames, channels })
    }
}

impl<'a, T: Copy> Adapter<T> for SequentialSliceOfSlices<&'a mut [&'a mut [T]]> {
    closed spec fn wf(&self) -> bool {
        self.channels <= self.buf@.len() && forall|i: int|
            0 <= i < self.channels ==> self.frames <= #[trigger] self.buf@[i]@.len()
    }

    closed spec fn spec_channels(&self) -> nat {
        self.channels as nat
    }

    closed spec fn spec_frames(&self) -> nat {
        self.frames as nat
    }

    closed spec fn spec_sample(&self, channel: int, frame: int) -> T {
        self.buf@[channel]@[frame]
    }

    fn read_sample_unchecked(&self, channel: usize, frame: usize) -> (value: T) {
        self.buf[channel][frame]
    }

    fn channels(&self) -> (n: usize) {
        self.channels
    }

    fn frames(&self) -> (n: usize) {
        self.frames
    }
}

impl<'a, T: Copy> AdapterMut<T> for SequentialSliceOfSlices<&'a mut [&'a mut [T]]> {
    open spec fn spec_stored(&self, channel: int, frame: int, value: T) -> T {
        value
    }

    open spec fn spec_clips(&self, channel: int, frame: int, value: T) -> bool {
        false
    }

    fn write_sample_unchecked(&mut self, channel: usize, frame: usize, value: &T) -> (clipped:
        bool)
        ensures
            final(final(self).spec_storage())@ == final(old(self).spec_storage())@,
    {
        self.buf[channel][frame] = *value;
        false
    }

    fn write_sample(&mut self, channel: usize, frame: usize, value: &T) -> (clipped: Option<bool>)
        ensures
            final(final(self).spec_storage())@ == final(old(self).spec_storage())@,
    {
        if channel >= self.channels() || frame >= self.frames() {
            return None;
        }
        Some(self.write_sample_unchecked(channel, frame, value))
    }

    fn copy_from_slice_to_channel(&mut self, channel: usize, skip: usize, slice: &[T]) -> (r: (
        usize,
        usize,
    ))
        ensures
            final(final(self).spec_storage())@ == final(old(self).spec_storage())@,
    {
        if channel >= self.channels() || skip >= self.frames() {
            return (0, 0);
        }
        let n = if self.frames() - skip < slice.len() {
            self.frames() - skip
        } else {
            slice.len()
        };
        let mut clipped: usize = 0;
        let mut i: usize = 0;
        while i < n
            invariant
                final(self.spec_storage())@ == final(old(self).spec_storage())@,
                self.wf(),
                channel < old(self).spec_channels(),
                skip + n <= old(self).spec_frames() <= usize::MAX,
                n <= slice@.len(),
                i <= n,
                clipped <= i,
                self.spec_channels() == old(self).spec_channels(),
                self.spec_frames() == old(self).spec_frames(),
                forall|c: int, f: int, v: T|
                    #![trigger self.spec_stored(c, f, v)]
                    #![trigger old(self).spec_stored(c, f, v)]
                    self.spec_stored(c, f, v) == old(self).spec_stored(c, f, v),
                forall|c: int, f: int, v: T|
                    #![trigger self.spec_clips(c, f, v)]
                    #![trigger old(self).spec_clips(c, f, v)]
                    self.spec_clips(c, f, v) == old(self).spec_clips(c, f, v),
                forall|j: int|
                    0 <= j < i ==> #[trigger] self.spec_sample(channel as int, skip + j) == old(self).spec_stored(
                        channel as int, skip + j,
                        slice@[j],
                    ),
                forall|c: int, f: int|
                    #![trigger self.spec_sample(c, f)]
                    0 <= c < old(self).spec_channels() && 0 <= f < old(self).spec_frames() && !(c == channel && skip <= f < skip + i)
                        ==> self.spec_sample(c, f) == old(self).spec_sample(c, f),
                clipped == count_true(i as int, |j: int| old(self).spec_clips(channel as int, skip + j, slice@[j])),
            decreases n - i,
        {
            let value = slice[i];
            let c = self.write_sample_unchecked(channel, skip + i, &value);
            if c {
                clipped += 1;
            }
            i += 1;
        }
        (n, clipped)
    }

    fn copy_from_slice_to_frame(&mut self, frame: usize, skip: usize, slice: &[T]) -> (r: (
        usize,
        usize,
    ))
        ensures
            final(final(self).spec_storage())@ == final(old(self).spec_storage())@,
    {
        if frame >= self.frames() || skip >= self.channels() {
            return (0, 0);
        }
        let n = if self.channels() - skip < slice.len() {
            self.channels() - skip
        } else {
            slice.len()
        };
        let mut clipped: usize = 0;
        let mut i: usize = 0;
        while i < n
            invariant
                final(self.spec_storage())@ == final(old(self).spec_storage())@,
                self.wf(),
                frame < old(self).spec_frames(),
                skip + n <= old(self).spec_channels() <= usize::MAX,
                n <= slice@.len(),
                i <= n,
                clipped <= i,
                self.spec_channels() == old(self).spec_channels(),
                self.spec_frames() == old(self).spec_frames(),
                forall|c: int, f: int, v: T|
                    #![trigger self.spec_stored(c, f, v)]
                    #![trigger old(self).spec_stored(c, f, v)]
                    self.spec_stored(c, f, v) == old(self).spec_stored(c, f, v),
                forall|c: int, f: int, v: T|
                    #![trigger self.spec_clips(c, f, v)]
                    #![trigger old(self).spec_clips(c, f, v)]
                    self.spec_clips(c, f, v) == old(self).spec_clips(c, f, v),
                forall|j: int|
                    0 <= j < i ==> #[trigger] self.spec_sample(skip + j, frame as int) == old(self).spec_stored(
                        skip + j, frame as int,
                        slice@[j],
                    ),
                forall|c: int, f: int|
                    #![trigger self.spec_sample(c, f)]
                    0 <= c < old(self).spec_channels() && 0 <= f < old(self).spec_frames() && !(f == frame && skip <= c < skip + i)
                        ==> self.spec_sample(c, f) == old(self).spec_sample(c, f),
                clipped == count_true(i as int, |j: int| old(self).spec_clips(skip + j, frame as int, slice@[j])),
            decreases n - i,
        {
            let value = slice[i];
            let c = self.write_sample_unchecked(skip + i, frame, &value);
            if c {
                clipped += 1;
            }
            i += 1;
        }
        (n, clipped)
    }

    fn copy_from_other_to_channel(
        &mut self,
        other: &dyn Adapter<T>,
        other_channel: usize,
        self_channel: usize,
        other_skip: usize,
        self_skip: usize,
        take: usize,
    ) -> (clipped: Option<usize>)
        ensures
            final(final(self).spec_storage())@ == final(old(self).spec_storage())@,
    {
        if self_channel >= self.channels() || take > self.frames() || self_skip > self.frames()
            - take || other_channel >= other.channels() || take > other.frames() || other_skip
            > other.frames() - take {
            return None;
        }
        let mut clipped: usize = 0;
        let mut i: usize = 0;
        while i < take
            invariant
                final(self.spec_storage())@ == final(old(self).spec_storage())@,
                self.wf(),
                other.wf(),
                self_channel < old(self).spec_channels(),
                self_skip + take <= old(self).spec_frames() <= usize::MAX,
                other_channel < other.spec_channels(),
                other_skip + take <= other.spec_frames() <= usize::MAX,
                i <= take,
                clipped <= i,
                self.spec_channels() == old(self).spec_channels(),
                self.spec_frames() == old(self).spec_frames(),
                forall|c: int, f: int, v: T|
                    #![trigger self.spec_stored(c, f, v)]
                    #![trigger old(self).spec_stored(c, f, v)]
                    self.spec_stored(c, f, v) == old(self).spec_stored(c, f, v),
                forall|c: int, f: int, v: T|
                    #![trigger self.spec_clips(c, f, v)]
                    #![trigger old(self).spec_clips(c, f, v)]
                    self.spec_clips(c, f, v) == old(self).spec_clips(c, f, v),
                forall|j: int|
                    0 <= j < i ==> #[trigger] self.spec_sample(self_channel as int, self_skip + j)
                        == old(self).spec_stored(
                        self_channel as int,
                        self_skip + j,
                        other.spec_sample(other_channel as int, other_skip + j),
                    ),
                forall|c: int, f: int|
                    #![trigger self.spec_sample(c, f)]
                    0 <= c < old(self).spec_channels() && 0 <= f < old(self).spec_frames() && !(c == self_channel && self_skip <= f < self_skip + i)
                        ==> self.spec_sample(c, f) == old(self).spec_sample(c, f),
                clipped == count_true(
                    i as int,
                    |j: int|
                        old(self).spec_clips(
                            self_channel as int,
                            self_skip + j,
                            other.spec_sample(other_channel as int, other_skip + j),
                        ),
                ),
            decreases take - i,
        {
            let value = other.read_sample_unchecked(other_channel, other_skip + i);
            let c = self.write_sample_unchecked(self_channel, self_skip + i, &value);
            if c {
                clipped += 1;
            }
            i += 1;
        }
        Some(clipped)
    }

    fn fill_channel_with(&mut self, channel: usize, value: &T) -> (done: Option<()>)
        ensures
            final(final(self).spec_storage())@ == final(old(self).spec_storage())@,
    {
        if channel >= self.channels() {
            return None;
        }
        let frames = self.frames();
        let mut frame: usize = 0;
        while frame < frames
            invariant
                final(self.spec_storage())@ == final(old(self).spec_storage())@,
                self.wf(),
                channel < old(self).spec_channels(),
                frames == old(self).spec_frames(),
                frame <= frames,
                self.spec_channels() == old(self).spec_channels(),
                self.spec_frames() == old(self).spec_frames(),
                forall|c: int, f: int, v: T|
                    #![trigger self.spec_stored(c, f, v)]
                    #![trigger old(self).spec_stored(c, f, v)]
                    self.spec_stored(c, f, v) == old(self).spec_stored(c, f, v),
                forall|c: int, f: int, v: T|
                    #![trigger self.spec_clips(c, f, v)]
                    #![trigger old(self).spec_clips(c, f, v)]
                    self.spec_clips(c, f, v) == old(self).spec_clips(c, f, v),
                forall|f: int|
                    0 <= f < frame ==> #[trigger] self.spec_sample(channel as int, f)
                        == old(self).spec_stored(channel as int, f, *value),
                forall|c: int, f: int|
                    #![trigger self.spec_sample(c, f)]
                    0 <= c < old(self).spec_channels() && 0 <= f < old(self).spec_frames() && !(c == channel && f < frame)
                        ==> self.spec_sample(c, f) == old(self).spec_sample(c, f),
            decreases frames - frame,
        {
            self.write_sample_unchecked(channel, frame, value);
            frame += 1;
        }
        Some(())
    }

    fn fill_frame_with(&mut self, frame: usize, value: &T) -> (done: Option<()>)
        ensures
            final(final(self).spec_storage())@ == final(old(self).spec_storage())@,
    {
        if frame >= self.frames() {
            return None;
        }
        let channels = self.channels();
        let mut channel: usize = 0;
        while channel < channels
            invariant
                final(self.spec_storage())@ == final(old(self).spec_storage())@,
                self.wf(),
                frame < old(self).spec_frames(),
                channels == old(self).spec_channels(),
                channel <= channels,
                self.spec_channels() == old(self).spec_channels(),
                self.spec_frames() == old(self).spec_frames(),
                forall|c: int, f: int, v: T|
                    #![trigger self.spec_stored(c, f, v)]
                    #![trigger old(self).spec_stored(c, f, v)]
                    self.spec_stored(c, f, v) == old(self).spec_stored(c, f, v),
                forall|c: int, f: int, v: T|
                    #![trigger self.spec_clips(c, f, v)]
                    #![trigger old(self).spec_clips(c, f, v)]
                    self.spec_clips(c, f, v) == old(self).spec_clips(c, f, v),
                forall|c: int|
                    0 <= c < channel ==> #[trigger] self.spec_sample(c, frame as int)
                        == old(self).spec_stored(c, frame as int, *value),
                forall|c: int, f: int|
                    #![trigger self.spec_sample(c, f)]
                    0 <= c < old(self).spec_channels() && 0 <= f < old(self).spec_frames() && !(f == frame && c < channel)
                        ==> self.spec_sample(c, f) == old(self).spec_sample(c, f),
            decreases channels - channel,
        {
            self.write_sample_unchecked(channel, frame, value);
            channel += 1;
        }
        Some(())
    }

    fn fill_frames_with(&mut self, start: usize, count: usize, value: &T) -> (written: Option<
        usize,
    >)
        ensures
            final(final(self).spec_storage())@ == final(old(self).spec_storage())@,
    {
        if count > self.frames() || start > self.frames() - count {
            return None;
        }
        let channels = self.channels();
        let mut channel: usize = 0;
        while channel < channels
            invariant
                final(self.spec_storage())@ == final(old(self).spec_storage())@,
                self.wf(),
                start + count <= old(self).spec_frames() <= usize::MAX,
                channels == old(self).spec_channels(),
                channel <= channels,
                self.spec_channels() == old(self).spec_channels(),
                self.spec_frames() == old(self).spec_frames(),
                forall|c: int, f: int, v: T|
                    #![trigger self.spec_stored(c, f, v)]
                    #![trigger old(self).spec_stored(c, f, v)]
                    self.spec_stored(c, f, v) == old(self).spec_stored(c, f, v),
                forall|c: int, f: int, v: T|
                    #![trigger self.spec_clips(c, f, v)]
                    #![trigger old(self).spec_clips(c, f, v)]
                    self.spec_clips(c, f, v) == old(self).spec_clips(c, f, v),
                forall|c: int, f: int|
                    0 <= c < channel && start <= f < start + count ==> #[trigger] self.spec_sample(c, f)
                        == old(self).spec_stored(c, f, *value),
                forall|c: int, f: int|
                    #![trigger self.spec_sample(c, f)]
                    0 <= c < old(self).spec_channels() && 0 <= f < old(self).spec_frames() && !(c < channel && start <= f < start + count)
                        ==> self.spec_sample(c, f) == old(self).spec_sample(c, f),
            decreases channels - channel,
        {
            let mut frame: usize = start;
            while frame < start + count
                invariant
                    final(self.spec_storage())@ == final(old(self).spec_storage())@,
                    self.wf(),
                    start + count <= old(self).spec_frames() <= usize::MAX,
                    channels == old(self).spec_channels(),
                    channel < channels,
                    start <= frame <= start + count,
                    self.spec_channels() == old(self).spec_channels(),
                    self.spec_frames() == old(self).spec_frames(),
                    forall|c: int, f: int, v: T|
                        #![trigger self.spec_stored(c, f, v)]
                        #![trigger old(self).spec_stored(c, f, v)]
                        self.spec_stored(c, f, v) == old(self).spec_stored(c, f, v),
                    forall|c: int, f: int, v: T|
                        #![trigger self.spec_clips(c, f, v)]
                        #![trigger old(self).spec_clips(c, f, v)]
                        self.spec_clips(c, f, v) == old(self).spec_clips(c, f, v),
                    forall|c: int, f: int|
                        ((0 <= c < channel && start <= f < start + count) || (c == channel && start
                            <= f < frame)) ==> #[trigger] self.spec_sample(c, f)
                            == old(self).spec_stored(c, f, *value),
                    forall|c: int, f: int|
                        #![trigger self.spec_sample(c, f)]
                        0 <= c < old(self).spec_channels() && 0 <= f < old(self).spec_frames() && !((c < channel && start <= f < start + count) || (c == channel && start <= f < frame))
                            ==> self.spec_sample(c, f) == old(self).spec_sample(c, f),
                decreases start + count - frame,
            {
                self.write_sample_unchecked(channel, frame, value);
                frame += 1;
            }
            channel += 1;
        }
        Some(count)
    }

    fn fill_with(&mut self, value: &T)
        ensures
            final(final(self).spec_storage())@ == final(old(self).spec_storage())@,
    {
        let channels = self.channels();
        let mut channel: usize = 0;
        while channel < channels
            invariant
                final(self.spec_storage())@ == final(old(self).spec_storage())@,
                self.wf(),
                channels == old(self).spec_channels(),
                channel <= channels,
                self.spec_channels() == old(self).spec_channels(),
                self.spec_frames() == old(self).spec_frames(),
                forall|c: int, f: int, v: T|
                    #![trigger self.spec_stored(c, f, v)]
                    #![trigger old(self).spec_stored(c, f, v)]
                    self.spec_stored(c, f, v) == old(self).spec_stored(c, f, v),
                forall|c: int, f: int, v: T|
                    #![trigger self.spec_clips(c, f, v)]
                    #![trigger old(self).spec_clips(c, f, v)]
                    self.spec_clips(c, f, v) == old(self).spec_clips(c, f, v),
                forall|c: int, f: int|
                    0 <= c < channel && 0 <= f < old(self).spec_frames() ==> #[trigger] self.spec_sample(c, f)
                        == old(self).spec_stored(c, f, *value),
            decreases channels - channel,
        {
            self.fill_channel_with(channel, value);
            channel += 1;
        }
    }

    fn copy_sample_within(
        &mut self,
        source_channel: usize,
        source_frame: usize,
        target_channel: usize,
        target_frame: usize,
    ) -> (copied: bool)
        ensures
            final(final(self).spec_storage())@ == final(old(self).spec_storage())@,
            copied <==> (source_channel < old(self).spec_channels() && source_frame
                < old(self).spec_frames() && target_channel < old(self).spec_channels() && target_frame
                < old(self).spec_frames()),
    {
        if let Some(value) = self.read_sample(source_channel, source_frame) {
            if self.write_sample(target_channel, target_frame, &value).is_some() {
                return true;
            }
        }
        false
    }

    fn swap_samples(
        &mut self,
        channel_a: usize,
        frame_a: usize,
        channel_b: usize,
        frame_b: usize,
    ) -> (swapped: bool)
        ensures
            final(final(self).spec_storage())@ == final(old(self).spec_storage())@,
            swapped <==> (channel_a < old(self).spec_channels() && frame_a < old(self).spec_frames()
                && channel_b < old(self).spec_channels() && frame_b < old(self).spec_frames()),
    {
        if let Some(value_a) = self.read_sample(channel_a, frame_a) {
            if let Some(value_b) = self.read_sample(channel_b, frame_b) {
                self.write_sample_unchecked(channel_b, frame_b, &value_a);
                self.write_sample_unchecked(channel_a, frame_a, &value_b);
                return true;
            }
        }
        false
    }

    fn copy_from_other(
        &mut self,
        other: &dyn Adapter<T>,
        other_skip: usize,
        self_skip: usize,
        take: usize,
    ) -> (clipped: Option<usize>)
        ensures
            final(final(self).spec_storage())@ == final(old(self).spec_storage())@,
    {
        if other.channels() != self.channels() || take > self.frames() || self_skip > self.frames()
            - take || take > other.frames() || other_skip > other.frames() - take {
            return None;
        }
        let channels = self.channels();
        let mut clipped: usize = 0;
        let mut channel: usize = 0;
        while channel < channels
            invariant
                final(self.spec_storage())@ == final(old(self).spec_storage())@,
                self.wf(),
                other.wf(),
                channels == old(self).spec_channels(),
                other.spec_channels() == channels,
                self_skip + take <= old(self).spec_frames() <= usize::MAX,
                other_skip + take <= other.spec_frames() <= usize::MAX,
                channel <= channels,
                self.spec_channels() == old(self).spec_channels(),
                self.spec_frames() == old(self).spec_frames(),
                forall|c: int, f: int, v: T|
                    #![trigger self.spec_stored(c, f, v)]
                    #![trigger old(self).spec_stored(c, f, v)]
                    self.spec_stored(c, f, v) == old(self).spec_stored(c, f, v),
                forall|c: int, f: int, v: T|
                    #![trigger self.spec_clips(c, f, v)]
                    #![trigger old(self).spec_clips(c, f, v)]
                    self.spec_clips(c, f, v) == old(self).spec_clips(c, f, v),
                clipped == saturated(
                    sum_nat(
                        channel as int,
                        |c: int|
                            count_true(
                                take as int,
                                |j: int|
                                    old(self).spec_clips(c, self_skip + j, other.spec_sample(c, other_skip + j)),
                            ),
                    ),
                ),
                forall|c: int, f: int|
                    0 <= c < channel && self_skip <= f < self_skip + take ==> #[trigger] self.spec_sample(c, f)
                        == old(self).spec_stored(c, f, other.spec_sample(c, f - self_skip + other_skip)),
                forall|c: int, f: int|
                    #![trigger self.spec_sample(c, f)]
                    0 <= c < old(self).spec_channels() && 0 <= f < old(self).spec_frames() && !(c < channel && self_skip <= f < self_skip + take)
                        ==> self.spec_sample(c, f) == old(self).spec_sample(c, f),
            decreases channels - channel,
        {
            let ghost before = clipped;
            let mut frame: usize = 0;
            while frame < take
                invariant
                    final(self.spec_storage())@ == final(old(self).spec_storage())@,
                    self.wf(),
                    other.wf(),
                    channels == old(self).spec_channels(),
                    other.spec_channels() == channels,
                    self_skip + take <= old(self).spec_frames() <= usize::MAX,
                    other_skip + take <= other.spec_frames() <= usize::MAX,
                    channel < channels,
                    frame <= take,
                    before == saturated(
                        sum_nat(
                            channel as int,
                            |c: int|
                                count_true(
                                    take as int,
                                    |j: int|
                                        old(self).spec_clips(c, self_skip + j, other.spec_sample(c, other_skip + j)),
                                ),
                        ),
                    ),
                    clipped == saturated(
                        sum_nat(
                            channel as int,
                            |c: int|
                                count_true(
                                    take as int,
                                    |j: int|
                                        old(self).spec_clips(c, self_skip + j, other.spec_sample(c, other_skip + j)),
                                ),
                        ) + count_true(
                            frame as int,
                            |j: int|
                                old(self).spec_clips(channel as int, self_skip + j, other.spec_sample(channel as int, other_skip + j)),
                        ),
                    ),
                    self.spec_channels() == old(self).spec_channels(),
                    self.spec_frames() == old(self).spec_frames(),
                    forall|c: int, f: int, v: T|
                        #![trigger self.spec_stored(c, f, v)]
                        #![trigger old(self).spec_stored(c, f, v)]
                        self.spec_stored(c, f, v) == old(self).spec_stored(c, f, v),
                    forall|c: int, f: int, v: T|
                        #![trigger self.spec_clips(c, f, v)]
                        #![trigger old(self).spec_clips(c, f, v)]
                        self.spec_clips(c, f, v) == old(self).spec_clips(c, f, v),
                    forall|c: int, f: int|
                        ((0 <= c < channel && self_skip <= f < self_skip + take) || (c == channel
                            && self_skip <= f < self_skip + frame)) ==> #[trigger] self.spec_sample(c, f)
                            == old(self).spec_stored(c, f, other.spec_sample(c, f - self_skip + other_skip)),
                    forall|c: int, f: int|
                        #![trigger self.spec_sample(c, f)]
                        0 <= c < old(self).spec_channels() && 0 <= f < old(self).spec_frames() && !((c < channel && self_skip <= f < self_skip + take) || (c == channel && self_skip <= f < self_skip + frame))
                            ==> self.spec_sample(c, f) == old(self).spec_sample(c, f),
                decreases take - frame,
            {
                let value = other.read_sample_unchecked(channel, frame + other_skip);
                let c = self.write_sample_unchecked(channel, frame + self_skip, &value);
                if c && clipped < usize::MAX {
                    clipped += 1;
                }
                frame += 1;
            }
            channel += 1;
        }
        Some(clipped)
    }
}

/// Wrapper for a slice of length `channels`, containing slices of length `frames`.
/// Each channel slice contains the samples for all frames of one channel.
/// Only the channels marked as active in a mask are stored:
/// the slices of the other channels may be empty.
/// Reading from an unused channel returns `T::default()`, while writing to it does nothing.
pub struct SparseSequentialSliceOfSlices<'a, U: 'a, T> {
    buf: U,
    frames: usize,
    channels: usize,
    mask: &'a [bool],
    silence: T,
}

impl<'a, U: 'a, T: Copy> SparseSequentialSliceOfSlices<'a, U, T> {
    /// Whether a channel is marked as active, that is, stored.
    pub closed spec fn spec_active(&self, channel: int) -> bool {
        self.mask@[channel]
    }

    /// The value that reads of an unused channel return.
    pub closed spec fn spec_silence(&self) -> T {
        self.silence
    }
}

impl<'a, T: Copy + Default> SparseSequentialSliceOfSlices<'a, &'a [&'a [T]], T> {
    /// Create a new `SparseSequentialSliceOfSlices` to wrap a slice of slices.
    /// The slice must contain at least `channels` slices,
    /// the slices of the channels that are marked as active must be at least `frames` long,
    /// and the mask must have one entry per channel.
    /// Slices for unused channels are never accessed and can have any length.
    /// They are allowed to be longer than needed,
    /// but these extra values cannot be accessed via the trait methods.
    pub fn new(buf: &'a [&'a [T]], channels: usize, frames: usize, active_channels_mask: &'a [bool]) -> (r: Result<Self, SizeError>)
        ensures
            active_channels_mask@.len() != channels ==> r == Err::<Self, SizeError>(
                SizeError::Mask { actual: active_channels_mask@.len() as usize, required: channels },
            ),
            r is Ok <==> (active_channels_mask@.len() == channels && channels <= buf@.len() && forall|i: int| 0 <= i < channels && active_channels_mask@[i] ==> frames <= #[trigger] buf@[i]@.len()),
            active_channels_mask@.len() == channels && buf@.len() < channels ==> r == Err::<Self, SizeError>(
                SizeError::ChannelsContainer { actual: buf@.len() as usize, required: channels },
            ),
            r matches Err(SizeError::ChannelBuffer { index, actual, required }) ==> {
                &&& channels <= buf@.len()
                &&& index < buf@.len()
                &&& active_channels_mask@[index as int] && actual == buf@[index as int]@.len() < frames
                &&& required == frames
                &&& forall|j: int| 0 <= j < index ==> active_channels_mask@[j] ==> frames <= #[trigger] buf@[j]@.len()
            },
            r is Err ==> (r matches Err(SizeError::ChannelBuffer { .. }) || r matches Err(
                SizeError::ChannelsContainer { .. },
            ) || r matches Err(SizeError::Mask { .. })),
            r matches Err(SizeError::Mask { .. }) ==> active_channels_mask@.len() != channels,
            r matches Err(SizeError::ChannelsContainer { .. }) ==> active_channels_mask@.len() == channels && buf@.len() < channels,
            r matches Ok(w) ==> {
                &&& w.wf()
                &&& w.spec_channels() == channels
                &&& w.spec_frames() == frames
                &&& forall|c: int| 0 <= c < channels ==> #[trigger] w.spec_active(c) == active_channels_mask@[c]
                &&& call_ensures(T::default, (), w.spec_silence())
                &&& forall|c: int, f: int|
                    0 <= c < channels && 0 <= f < frames ==> #[trigger] w.spec_sample(c, f) == if active_channels_mask@[c] {
                        buf@[c]@[f]
                    } else {
                        w.spec_silence()
                    }
            },
    {
        if active_channels_mask.len() != channels {
            return Err(SizeError::Mask { actual: active_channels_mask.len(), required: channels });
        }
        if buf.len() < channels {
            return Err(SizeError::ChannelsContainer { actual: buf.len(), required: channels });
        }
        let mut idx: usize = 0;
        while idx < channels
            invariant
                channels <= buf@.len(),
                active_channels_mask@.len() == channels,
                idx <= channels,
                forall|j: int| 0 <= j < idx ==> active_channels_mask@[j] ==> frames <= #[trigger] buf@[j]@.len(),
            decreases channels - idx,
        {
            if active_channels_mask[idx] && buf[idx].len() < frames {
                return Err(SizeError::ChannelBuffer { index: idx, actual: buf[idx].len(), required: frames });
            }
            idx += 1;
        }
        let silence = T::default();
        Ok(Self { buf, frames, channels, mask: active_channels_mask, silence })
    }
}

impl<'a, T: Copy + Default> Adapter<T> for SparseSequentialSliceOfSlices<'a, &'a [&'a [T]], T> {
    closed spec fn wf(&self) -> bool {
        self.mask@.len() == self.channels && self.channels <= self.buf@.len() && forall|c: int|
            0 <= c < self.channels && self.mask@[c] ==> self.frames <= #[trigger] self.buf@[c]@.len()
    }

    closed spec fn spec_channels(&self) -> nat {
        self.channels as nat
    }

    closed spec fn spec_frames(&self) -> nat {
        self.frames as nat
    }

    closed spec fn spec_sample(&self, channel: int, frame: int) -> T {
        if self.mask@[channel] {
            self.buf@[channel]@[frame]
        } else {
            self.silence
        }
    }

    fn read_sample_unchecked(&self, channel: usize, frame: usize) -> (value: T) {
        if self.mask[channel] {
            self.buf[channel][frame]
        } else {
            self.silence
        }
    }

    fn channels(&self) -> (n: usize) {
        self.channels
    }

    fn frames(&self) -> (n: usize) {
        self.frames
    }

    /// A channel that is not stored reads as silence.
    fn copy_from_channel_to_slice(&self, channel: usize, skip: usize, slice: &mut [T]) -> (n: usize) {
        if channel >= self.channels || skip >= self.frames {
            return 0;
        }
        let n = if self.frames - skip < slice.len() {
            self.frames - skip
        } else {
            slice.len()
        };
        let mut i: usize = 0;
        while i < n
            invariant
                self.wf(),
                channel < self.channels,
                skip + n <= self.frames,
                n <= old(slice)@.len(),
                i <= n,
                slice@.len() == old(slice)@.len(),
                forall|j: int| 0 <= j < i ==> #[trigger] slice@[j] == self.spec_sample(channel as int, skip + j),
                forall|j: int| i <= j < old(slice)@.len() ==> #[trigger] slice@[j] == old(slice)@[j],
            decreases n - i,
        {
            slice[i] = if self.mask[channel] {
                self.buf[channel][skip + i]
            } else {
                self.silence
            };
            i += 1;
        }
        n
    }
}

impl<'a, T: Copy + Default> SparseSequentialSliceOfSlices<'a, &'a mut [&'a mut [T]], T> {
    /// The wrapped storage, through which the samples are written to the caller's buffer.
    pub closed spec fn spec_storage(&self) -> &'a mut [&'a mut [T]] {
        self.buf
    }

    /// Once the wrapper is no longer used, the slices of the stored channels hold
    /// its samples.
    pub proof fn lemma_storage(&self)
        requires
            self.wf(),
            has_resolved(*self),
        ensures
            forall|c: int, f: int|
                0 <= c < self.spec_channels() && 0 <= f < self.spec_frames() && self.spec_active(c) ==> final(self.spec_storage())@[c]@[f] == #[trigger] self.spec_sample(c, f),
    {
    }

    /// Create a new `SparseSequentialSliceOfSlices` to wrap a mutable slice of slices.
    /// The slice must contain at least `channels` slices,
    /// the slices of the channels that are marked as active must be at least `frames` long,
    /// and the mask must have one entry per channel.
    /// Slices for unused channels are never accessed and can have any length.
    /// They are allowed to be longer than needed,
    /// but these extra values cannot be accessed via the trait methods.
    pub fn new_mut(buf: &'a mut [&'a mut [T]], channels: usize, frames: usize, active_channels_mask: &'a [bool]) -> (r: Result<Self, SizeError>)
        ensures
            active_channels_mask@.len() != channels ==> r == Err::<Self, SizeError>(
                SizeError::Mask { actual: active_channels_mask@.len() as usize, required: channels },
            ),
            r is Ok <==> (active_channels_mask@.len() == channels && channels <= old(buf)@.len() && forall|i: int| 0 <= i < channels && active_channels_mask@[i] ==> frames <= #[trigger] old(buf)@[i]@.len()),
            active_channels_mask@.len() == channels && old(buf)@.len() < channels ==> r == Err::<Self, SizeError>(
                SizeError::ChannelsContainer { actual: old(buf)@.len() as usize, required: channels },
            ),
            r matches Err(SizeError::ChannelBuffer { index, actual, required }) ==> {
                &&& channels <= old(buf)@.len()
                &&& index < old(buf)@.len()
                &&& active_channels_mask@[index as int] && actual == old(buf)@[index as int]@.len() < frames
                &&& required == frames
                &&& forall|j: int| 0 <= j < index ==> active_channels_mask@[j] ==> frames <= #[trigger] old(buf)@[j]@.len()
            },
            r is Err ==> (r matches Err(SizeError::ChannelBuffer { .. }) || r matches Err(
                SizeError::ChannelsContainer { .. },
            ) || r matches Err(SizeError::Mask { .. })),
            r matches Err(SizeError::Mask { .. }) ==> active_channels_mask@.len() != channels,
            r matches Err(SizeError::ChannelsContainer { .. }) ==> active_channels_mask@.len() == channels && old(buf)@.len() < channels,
            r is Err ==> final(buf)@ == old(buf)@,
            r matches Ok(w) ==> {
                &&& final(w.spec_storage())@ == final(buf)@
                &&& w.wf()
                &&& w.spec_channels() == channels
                &&& w.spec_frames() == frames
                &&& forall|c: int| 0 <= c < channels ==> #[trigger] w.spec_active(c) == active_channels_mask@[c]
                &&& call_ensures(T::default, (), w.spec_silence())
                &&& forall|c: int, f: int|
                    0 <= c < channels && 0 <= f < frames ==> #[trigger] w.spec_sample(c, f) == if active_channels_mask@[c] {
                        old(buf)@[c]@[f]
                    } else {
                        w.spec_silence()
                    }
            },
    {
        if active_channels_mask.len() != channels {
            return Err(SizeError::Mask { actual: active_channels_mask.len(), required: channels });
        }
        if buf.len() < channels {
            return Err(SizeError::ChannelsContainer { actual: buf.len(), required: channels });
        }
        let mut idx: usize = 0;
        while idx < channels
            invariant
                channels <= buf@.len(),
                active_channels_mask@.len() == channels,
                buf@ == old(buf)@,
                idx <= channels,
                forall|j: int| 0 <= j < idx ==> active_channels_mask@[j] ==> frames <= #[trigger] buf@[j]@.len(),
            decreases channels - idx,
        {
            if active_channels_mask[idx] && buf[idx].len() < frames {
                return Err(SizeError::ChannelBuffer { index: idx, actual: buf[idx].len(), required: frames });
            }
            idx += 1;
        }
        let silence = T::default();
        Ok(Self { buf, frames, channels, mask: active_channels_mask, silence })
    }
}

impl<'a, T: Copy + Default> Adapter<T> for SparseSequentialSliceOfSlices<'a, &'a mut [&'a mut [T]], T> {
    closed spec fn wf(&self) -> bool {
        self.mask@.len() == self.channels && self.channels <= self.buf@.len() && forall|c: int|
            0 <= c < self.channels && self.mask@[c] ==> self.frames <= #[trigger] self.buf@[c]@.len()
    }

    closed spec fn spec_channels(&self) -> nat {
        self.channels as nat
    }

    closed spec fn spec_frames(&self) -> nat {
        self.frames as nat
    }

    closed spec fn spec_sample(&self, channel: int, frame: int) -> T {
        if self.mask@[channel] {
            self.buf@[channel]@[frame]
        } else {
            self.silence
        }
    }

    fn read_sample_unchecked(&self, channel: usize, frame: usize) -> (value: T) {
        if self.mask[channel] {
            self.buf[channel][frame]
        } else {
            self.silence
        }
    }

    fn channels(&self) -> (n: usize) {
        self.channels
    }

    fn frames(&self) -> (n: usize) {
        self.frames
    }

    /// A channel that is not stored reads as silence.
    fn copy_from_channel_to_slice(&self, channel: usize, skip: usize, slice: &mut [T]) -> (n: usize) {
        if channel >= self.channels || skip >= self.frames {
            return 0;
        }
        let n = if self.frames - skip < slice.len() {
            self.frames - skip
        } else {
            slice.len()
        };
        let mut i: usize = 0;
        while i < n
            invariant
                self.wf(),
                channel < self.channels,
                skip + n <= self.frames,
                n <= old(slice)@.len(),
                i <= n,
                slice@.len() == old(slice)@.len(),
                forall|j: int| 0 <= j < i ==> #[trigger] slice@[j] == self.spec_sample(channel as int, skip + j),
                forall|j: int| i <= j < old(slice)@.len() ==> #[trigger] slice@[j] == old(slice)@[j],
            decreases n - i,
        {
            slice[i] = if self.mask[channel] {
                self.buf[channel][skip + i]
            } else {
                self.silence
            };
            i += 1;
        }
        n
    }
}

impl<'a, T: Copy + Default> AdapterMut<T> for SparseSequentialSliceOfSlices<'a, &'a mut [&'a mut [T]], T> {
    closed spec fn spec_stored(&self, channel: int, frame: int, value: T) -> T {
        if 0 <= channel < self.mask@.len() && self.mask@[channel] {
            value
        } else {
            self.silence
        }
    }

    open spec fn spec_clips(&self, channel: int, frame: int, value: T) -> bool {
        false
    }

    fn write_sample_unchecked(&mut self, channel: usize, frame: usize, value: &T) -> (clipped:
        bool)
        ensures
            final(final(self).spec_storage())@ == final(old(self).spec_storage())@,
    {
        if self.mask[channel] {
            self.buf[channel][frame] = *value;
        }
        false
    }

    /// Writes to a channel that is not stored are dropped: the values count as
    /// copied, and nothing changes.
    fn copy_from_slice_to_channel(&mut self, channel: usize, skip: usize, slice: &[T]) -> (r: (
        usize,
        usize,
    ))
        ensures
            final(final(self).spec_storage())@ == final(old(self).spec_storage())@,
    {
        if channel >= self.channels || skip >= self.frames {
            return (0, 0);
        }
        let n = if self.frames - skip < slice.len() {
            self.frames - skip
        } else {
            slice.len()
        };
        if !self.mask[channel] {
            proof {
                lemma_count_true_none(n as int, |j: int| old(self).spec_clips(channel as int, skip + j, slice@[j]));
            }
            return (n, 0);
        }
        let mut i: usize = 0;
        while i < n
            invariant
                final(self.spec_storage())@ == final(old(self).spec_storage())@,
                self.channels == old(self).channels,
                self.frames == old(self).frames,
                self.mask == old(self).mask,
                self.silence == old(self).silence,
                self.buf@.len() == old(self).buf@.len(),
                self.wf(),
                channel < self.channels,
                self.mask@[channel as int],
                skip + n <= self.frames,
                n <= slice@.len(),
                i <= n,
                forall|j: int|
                    0 <= j < i ==> #[trigger] self.spec_sample(channel as int, skip + j) == slice@[j],
                forall|c: int, f: int|
                    #![trigger self.spec_sample(c, f)]
                    0 <= c < self.channels && 0 <= f < self.frames && !(c == channel && skip <= f
                        < skip + i) ==> self.spec_sample(c, f) == old(self).spec_sample(c, f),
                0 == count_true(i as int, |j: int| old(self).spec_clips(channel as int, skip + j, slice@[j])),
            decreases n - i,
        {
            let ghost before = *self;
            self.buf[channel][skip + i] = slice[i];
            proof {
                assert forall|j: int| 0 <= j < i + 1 implies #[trigger] self.spec_sample(
                    channel as int,
                    skip + j,
                ) == slice@[j] by {
                    if j < i {
                        assert(before.spec_sample(channel as int, skip + j) == slice@[j]);
                    }
                }
                assert forall|c: int, f: int|
                    0 <= c < self.channels && 0 <= f < self.frames && !(c == channel && skip <= f
                        < skip + i + 1) implies #[trigger] self.spec_sample(c, f) == old(self).spec_sample(c, f) by {
                    assert(before.spec_sample(c, f) == old(self).spec_sample(c, f));
                }
            }
            i += 1;
        }
        (n, 0)
    }

    /// Declines, changing nothing, when either channel is not stored.
    fn copy_sample_within(
        &mut self,
        source_channel: usize,
        source_frame: usize,
        target_channel: usize,
        target_frame: usize,
    ) -> (copied: bool)
        ensures
            final(final(self).spec_storage())@ == final(old(self).spec_storage())@,
            copied <==> (source_channel < old(self).spec_channels() && source_frame
                < old(self).spec_frames() && target_channel < old(self).spec_channels()
                && target_frame < old(self).spec_frames() && old(self).spec_active(
                source_channel as int,
            ) && old(self).spec_active(target_channel as int)),
    {
        if source_channel >= self.channels || source_frame >= self.frames || target_channel
            >= self.channels || target_frame >= self.frames || !self.mask[source_channel]
            || !self.mask[target_channel] {
            return false;
        }
        let value = self.buf[source_channel][source_frame];
        self.buf[target_channel][target_frame] = value;
        true
    }

    /// Declines, changing nothing, when either channel is not stored.
    fn swap_samples(
        &mut self,
        channel_a: usize,
        frame_a: usize,
        channel_b: usize,
        frame_b: usize,
    ) -> (swapped: bool)
        ensures
            final(final(self).spec_storage())@ == final(old(self).spec_storage())@,
            swapped <==> (channel_a < old(self).spec_channels() && frame_a < old(self).spec_frames()
                && channel_b < old(self).spec_channels() && frame_b < old(self).spec_frames()
                && old(self).spec_active(channel_a as int) && old(self).spec_active(
                channel_b as int,
            )),
    {
        if channel_a >= self.channels || frame_a >= self.frames || channel_b >= self.channels
            || frame_b >= self.frames || !self.mask[channel_a] || !self.mask[channel_b] {
            return false;
        }
        let temp = self.buf[channel_a][frame_a];
        let other = self.buf[channel_b][frame_b];
        self.buf[channel_a][frame_a] = other;
        self.buf[channel_b][frame_b] = temp;
        true
    }

    fn write_sample(&mut self, channel: usize, frame: usize, value: &T) -> (clipped: Option<bool>)
        ensures
            final(final(self).spec_storage())@ == final(old(self).spec_storage())@,
    {
        if channel >= self.channels() || frame >= self.frames() {
            return None;
        }
        Some(self.write_sample_unchecked(channel, frame, value))
    }

    fn copy_from_slice_to_frame(&mut self, frame: usize, skip: usize, slice: &[T]) -> (r: (
        usize,
        usize,
    ))
        ensures
            final(final(self).spec_storage())@ == final(old(self).spec_storage())@,
    {
        if frame >= self.frames() || skip >= self.channels() {
            return (0, 0);
        }
        let n = if self.channels() - skip < slice.len() {
            self.channels() - skip
        } else {
            slice.len()
        };
        let mut clipped: usize = 0;
        let mut i: usize = 0;
        while i < n
            invariant
                final(self.spec_storage())@ == final(old(self).spec_storage())@,
                self.wf(),
                frame < old(self).spec_frames(),
                skip + n <= old(self).spec_channels() <= usize::MAX,
                n <= slice@.len(),
                i <= n,
                clipped <= i,
                self.spec_channels() == old(self).spec_channels(),
                self.spec_frames() == old(self).spec_frames(),
                forall|c: int, f: int, v: T|
                    #![trigger self.spec_stored(c, f, v)]
                    #![trigger old(self).spec_stored(c, f, v)]
                    self.spec_stored(c, f, v) == old(self).spec_stored(c, f, v),
                forall|c: int, f: int, v: T|
                    #![trigger self.spec_clips(c, f, v)]
                    #![trigger old(self).spec_clips(c, f, v)]
                    self.spec_clips(c, f, v) == old(self).spec_clips(c, f, v),
                forall|j: int|
                    0 <= j < i ==> #[trigger] self.spec_sample(skip + j, frame as int) == old(self).spec_stored(
                        skip + j, frame as int,
                        slice@[j],
                    ),
                forall|c: int, f: int|
                    #![trigger self.spec_sample(c, f)]
                    0 <= c < old(self).spec_channels() && 0 <= f < old(self).spec_frames() && !(f == frame && skip <= c < skip + i)
                        ==> self.spec_sample(c, f) == old(self).spec_sample(c, f),
                clipped == count_true(i as int, |j: int| old(self).spec_clips(skip + j, frame as int, slice@[j])),
            decreases n - i,
        {
            let value = slice[i];
            let c = self.write_sample_unchecked(skip + i, frame, &value);
            if c {
                clipped += 1;
            }
            i += 1;
        }
        (n, clipped)
    }

    fn copy_from_other_to_channel(
        &mut self,
        other: &dyn Adapter<T>,
        other_channel: usize,
        self_channel: usize,
        other_skip: usize,
        self_skip: usize,
        take: usize,
    ) -> (clipped: Option<usize>)
        ensures
            final(final(self).spec_storage())@ == final(old(self).spec_storage())@,
    {
        if self_channel >= self.channels() || take > self.frames() || self_skip > self.frames()
            - take || other_channel >= other.channels() || take > other.frames() || other_skip
            > other.frames() - take {
            return None;
        }
        let mut clipped: usize = 0;
        let mut i: usize = 0;
        while i < take
            invariant
                final(self.spec_storage())@ == final(old(self).spec_storage())@,
                self.wf(),
                other.wf(),
                self_channel < old(self).spec_channels(),
                self_skip + take <= old(self).spec_frames() <= usize::MAX,
                other_channel < other.spec_channels(),
                other_skip + take <= other.spec_frames() <= usize::MAX,
                i <= take,
                clipped <= i,
                self.spec_channels() == old(self).spec_channels(),
                self.spec_frames() == old(self).spec_frames(),
                forall|c: int, f: int, v: T|
                    #![trigger self.spec_stored(c, f, v)]
                    #![trigger old(self).spec_stored(c, f, v)]
                    self.spec_stored(c, f, v) == old(self).spec_stored(c, f, v),
                forall|c: int, f: int, v: T|
                    #![trigger self.spec_clips(c, f, v)]
                    #![trigger old(self).spec_clips(c, f, v)]
                    self.spec_clips(c, f, v) == old(self).spec_clips(c, f, v),
                forall|j: int|
                    0 <= j < i ==> #[trigger] self.spec_sample(self_channel as int, self_skip + j)
                        == old(self).spec_stored(
                        self_channel as int,
                        self_skip + j,
                        other.spec_sample(other_channel as int, other_skip + j),
                    ),
                forall|c: int, f: int|
                    #![trigger self.spec_sample(c, f)]
                    0 <= c < old(self).spec_channels() && 0 <= f < old(self).spec_frames() && !(c == self_channel && self_skip <= f < self_skip + i)
                        ==> self.spec_sample(c, f) == old(self).spec_sample(c, f),
                clipped == count_true(
                    i as int,
                    |j: int|
                        old(self).spec_clips(
                            self_channel as int,
                            self_skip + j,
                            other.spec_sample(other_channel as int, other_skip + j),
                        ),
                ),
            decreases take - i,
        {
            let value = other.read_sample_unchecked(other_channel, other_skip + i);
            let c = self.write_sample_unchecked(self_channel, self_skip + i, &value);
            if c {
                clipped += 1;
            }
            i += 1;
        }
        Some(clipped)
    }

    fn fill_channel_with(&mut self, channel: usize, value: &T) -> (done: Option<()>)
        ensures
            final(final(self).spec_storage())@ == final(old(self).spec_storage())@,
    {
        if channel >= self.channels() {
            return None;
        }
        let frames = self.frames();
        let mut frame: usize = 0;
        while frame < frames
            invariant
                final(self.spec_storage())@ == final(old(self).spec_storage())@,
                self.wf(),
                channel < old(self).spec_channels(),
                frames == old(self).spec_frames(),
                frame <= frames,
                self.spec_channels() == old(self).spec_channels(),
                self.spec_frames() == old(self).spec_frames(),
                forall|c: int, f: int, v: T|
                    #![trigger self.spec_stored(c, f, v)]
                    #![trigger old(self).spec_stored(c, f, v)]
                    self.spec_stored(c, f, v) == old(self).spec_stored(c, f, v),
                forall|c: int, f: int, v: T|
                    #![trigger self.spec_clips(c, f, v)]
                    #![trigger old(self).spec_clips(c, f, v)]
                    self.spec_clips(c, f, v) == old(self).spec_clips(c, f, v),
                forall|f: int|
                    0 <= f < frame ==> #[trigger] self.spec_sample(channel as int, f)
                        == old(self).spec_stored(channel as int, f, *value),
                forall|c: int, f: int|
                    #![trigger self.spec_sample(c, f)]
                    0 <= c < old(self).spec_channels() && 0 <= f < old(self).spec_frames() && !(c == channel && f < frame)
                        ==> self.spec_sample(c, f) == old(self).spec_sample(c, f),
            decreases frames - frame,
        {
            self.write_sample_unchecked(channel, frame, value);
            frame += 1;
        }
        Some(())
    }

    fn fill_frame_with(&mut self, frame: usize, value: &T) -> (done: Option<()>)
        ensures
            final(final(self).spec_storage())@ == final(old(self).spec_storage())@,
    {
        if frame >= self.frames() {
            return None;
        }
        let channels = self.channels();
        let mut channel: usize = 0;
        while channel < channels
            invariant
                final(self.spec_storage())@ == final(old(self).spec_storage())@,
                self.wf(),
                frame < old(self).spec_frames(),
                channels == old(self).spec_channels(),
                channel <= channels,
                self.spec_channels() == old(self).spec_channels(),
                self.spec_frames() == old(self).spec_frames(),
                forall|c: int, f: int, v: T|
                    #![trigger self.spec_stored(c, f, v)]
                    #![trigger old(self).spec_stored(c, f, v)]
                    self.spec_stored(c, f, v) == old(self).spec_stored(c, f, v),
                forall|c: int, f: int, v: T|
                    #![trigger self.spec_clips(c, f, v)]
                    #![trigger old(self).spec_clips(c, f, v)]
                    self.spec_clips(c, f, v) == old(self).spec_clips(c, f, v),
                forall|c: int|
                    0 <= c < channel ==> #[trigger] self.spec_sample(c, frame as int)
                        == old(self).spec_stored(c, frame as int, *value),
                forall|c: int, f: int|
                    #![trigger self.spec_sample(c, f)]
                    0 <= c < old(self).spec_channels() && 0 <= f < old(self).spec_frames() && !(f == frame && c < channel)
                        ==> self.spec_sample(c, f) == old(self).spec_sample(c, f),
            decreases channels - channel,
        {
            self.write_sample_unchecked(channel, frame, value);
            channel += 1;
        }
        Some(())
    }

    fn fill_frames_with(&mut self, start: usize, count: usize, value: &T) -> (written: Option<
        usize,
    >)
        ensures
            final(final(self).spec_storage())@ == final(old(self).spec_storage())@,
    {
        if count > self.frames() || start > self.frames() - count {
            return None;
        }
        let channels = self.channels();
        let mut channel: usize = 0;
        while channel < channels
            invariant
                final(self.spec_storage())@ == final(old(self).spec_storage())@,
                self.wf(),
                start + count <= old(self).spec_frames() <= usize::MAX,
                channels == old(self).spec_channels(),
                channel <= channels,
                self.spec_channels() == old(self).spec_channels(),
                self.spec_frames() == old(self).spec_frames(),
                forall|c: int, f: int, v: T|
                    #![trigger self.spec_stored(c, f, v)]
                    #![trigger old(self).spec_stored(c, f, v)]
                    self.spec_stored(c, f, v) == old(self).spec_stored(c, f, v),
                forall|c: int, f: int, v: T|
                    #![trigger self.spec_clips(c, f, v)]
                    #![trigger old(self).spec_clips(c, f, v)]
                    self.spec_clips(c, f, v) == old(self).spec_clips(c, f, v),
                forall|c: int, f: int|
                    0 <= c < channel && start <= f < start + count ==> #[trigger] self.spec_sample(c, f)
                        == old(self).spec_stored(c, f, *value),
                forall|c: int, f: int|
                    #![trigger self.spec_sample(c, f)]
                    0 <= c < old(self).spec_channels() && 0 <= f < old(self).spec_frames() && !(c < channel && start <= f < start + count)
                        ==> self.spec_sample(c, f) == old(self).spec_sample(c, f),
            decreases channels - channel,
        {
            let mut frame: usize = start;
            while frame < start + count
                invariant
                    final(self.spec_storage())@ == final(old(self).spec_storage())@,
                    self.wf(),
                    start + count <= old(self).spec_frames() <= usize::MAX,
                    channels == old(self).spec_channels(),
                    channel < channels,
                    start <= frame <= start + count,
                    self.spec_channels() == old(self).spec_channels(),
                    self.spec_frames() == old(self).spec_frames(),
                    forall|c: int, f: int, v: T|
                        #![trigger self.spec_stored(c, f, v)]
                        #![trigger old(self).spec_stored(c, f, v)]
                        self.spec_stored(c, f, v) == old(self).spec_stored(c, f, v),
                    forall|c: int, f: int, v: T|
                        #![trigger self.spec_clips(c, f, v)]
                        #![trigger old(self).spec_clips(c, f, v)]
                        self.spec_clips(c, f, v) == old(self).spec_clips(c, f, v),
                    forall|c: int, f: int|
                        ((0 <= c < channel && start <= f < start + count) || (c == channel && start
                            <= f < frame)) ==> #[trigger] self.spec_sample(c, f)
                            == old(self).spec_stored(c, f, *value),
                    forall|c: int, f: int|
                        #![trigger self.spec_sample(c, f)]
                        0 <= c < old(self).spec_channels() && 0 <= f < old(self).spec_frames() && !((c < channel && start <= f < start + count) || (c == channel && start <= f < frame))
                            ==> self.spec_sample(c, f) == old(self).spec_sample(c, f),
                decreases start + count - frame,
            {
                self.write_sample_unchecked(channel, frame, value);
                frame += 1;
            }
            channel += 1;
        }
        Some(count)
    }

    fn fill_with(&mut self, value: &T)
        ensures
            final(final(self).spec_storage())@ == final(old(self).spec_storage())@,
    {
        let channels = self.channels();
        let mut channel: usize = 0;
        while channel < channels
            invariant
                final(self.spec_storage())@ == final(old(self).spec_storage())@,
                self.wf(),
                channels == old(self).spec_channels(),
                channel <= channels,
                self.spec_channels() == old(self).spec_channels(),
                self.spec_frames() == old(self).spec_frames(),
                forall|c: int, f: int, v: T|
                    #![trigger self.spec_stored(c, f, v)]
                    #![trigger old(self).spec_stored(c, f, v)]
                    self.spec_stored(c, f, v) == old(self).spec_stored(c, f, v),
                forall|c: int, f: int, v: T|
                    #![trigger self.spec_clips(c, f, v)]
                    #![trigger old(self).spec_clips(c, f, v)]
                    self.spec_clips(c, f, v) == old(self).spec_clips(c, f, v),
                forall|c: int, f: int|
                    0 <= c < channel && 0 <= f < old(self).spec_frames() ==> #[trigger] self.spec_sample(c, f)
                        == old(self).spec_stored(c, f, *value),
            decreases channels - channel,
        {
            self.fill_channel_with(channel, value);
            channel += 1;
        }
    }

    fn copy_from_other(
        &mut self,
        other: &dyn Adapter<T>,
        other_skip: usize,
        self_skip: usize,
        take: usize,
    ) -> (clipped: Option<usize>)
        ensures
            final(final(self).spec_storage())@ == final(old(self).spec_storage())@,
    {
        if other.channels() != self.channels() || take > self.frames() || self_skip > self.frames()
            - take || take > other.frames() || other_skip > other.frames() - take {
            return None;
        }
        let channels = self.channels();
        let mut clipped: usize = 0;
        let mut channel: usize = 0;
        while channel < channels
            invariant
                final(self.spec_storage())@ == final(old(self).spec_storage())@,
                self.wf(),
                other.wf(),
                channels == old(self).spec_channels(),
                other.spec_channels() == channels,
                self_skip + take <= old(self).spec_frames() <= usize::MAX,
                other_skip + take <= other.spec_frames() <= usize::MAX,
                channel <= channels,
                self.spec_channels() == old(self).spec_channels(),
                self.spec_frames() == old(self).spec_frames(),
                forall|c: int, f: int, v: T|
                    #![trigger self.spec_stored(c, f, v)]
                    #![trigger old(self).spec_stored(c, f, v)]
                    self.spec_stored(c, f, v) == old(self).spec_stored(c, f, v),
                forall|c: int, f: int, v: T|
                    #![trigger self.spec_clips(c, f, v)]
                    #![trigger old(self).spec_clips(c, f, v)]
                    self.spec_clips(c, f, v) == old(self).spec_clips(c, f, v),
                clipped == saturated(
                    sum_nat(
                        channel as int,
                        |c: int|
                            count_true(
                                take as int,
                                |j: int|
                                    old(self).spec_clips(c, self_skip + j, other.spec_sample(c, other_skip + j)),
                            ),
                    ),
                ),
                forall|c: int, f: int|
                    0 <= c < channel && self_skip <= f < self_skip + take ==> #[trigger] self.spec_sample(c, f)
                        == old(self).spec_stored(c, f, other.spec_sample(c, f - self_skip + other_skip)),
                forall|c: int, f: int|
                    #![trigger self.spec_sample(c, f)]
                    0 <= c < old(self).spec_channels() && 0 <= f < old(self).spec_frames() && !(c < channel && self_skip <= f < self_skip + take)
                        ==> self.spec_sample(c, f) == old(self).spec_sample(c, f),
            decreases channels - channel,
        {
            let ghost before = clipped;
            let mut frame: usize = 0;
            while frame < take
                invariant
                    final(self.spec_storage())@ == final(old(self).spec_storage())@,
                    self.wf(),
                    other.wf(),
                    channels == old(self).spec_channels(),
                    other.spec_channels() == channels,
                    self_skip + take <= old(self).spec_frames() <= usize::MAX,
                    other_skip + take <= other.spec_frames() <= usize::MAX,
                    channel < channels,
                    frame <= take,
                    before == saturated(
                        sum_nat(
                            channel as int,
                            |c: int|
                                count_true(
                                    take as int,
                                    |j: int|
                                        old(self).spec_clips(c, self_skip + j, other.spec_sample(c, other_skip + j)),
                                ),
                        ),
                    ),
                    clipped == saturated(
                        sum_nat(
                            channel as int,
                            |c: int|
                                count_true(
                                    take as int,
                                    |j: int|
                                        old(self).spec_clips(c, self_skip + j, other.spec_sample(c, other_skip + j)),
                                ),
                        ) + count_true(
                            frame as int,
                            |j: int|
                                old(self).spec_clips(channel as int, self_skip + j, other.spec_sample(channel as int, other_skip + j)),
                        ),
                    ),
                    self.spec_channels() == old(self).spec_channels(),
                    self.spec_frames() == old(self).spec_frames(),
                    forall|c: int, f: int, v: T|
                        #![trigger self.spec_stored(c, f, v)]
                        #![trigger old(self).spec_stored(c, f, v)]
                        self.spec_stored(c, f, v) == old(self).spec_stored(c, f, v),
                    forall|c: int, f: int, v: T|
                        #![trigger self.spec_clips(c, f, v)]
                        #![trigger old(self).spec_clips(c, f, v)]
                        self.spec_clips(c, f, v) == old(self).spec_clips(c, f, v),
                    forall|c: int, f: int|
                        ((0 <= c < channel && self_skip <= f < self_skip + take) || (c == channel
                            && self_skip <= f < self_skip + frame)) ==> #[trigger] self.spec_sample(c, f)
                            == old(self).spec_stored(c, f, other.spec_sample(c, f - self_skip + other_skip)),
                    forall|c: int, f: int|
                        #![trigger self.spec_sample(c, f)]
                        0 <= c < old(self).spec_channels() && 0 <= f < old(self).spec_frames() && !((c < channel && self_skip <= f < self_skip + take) || (c == channel && self_skip <= f < self_skip + frame))
                            ==> self.spec_sample(c, f) == old(self).spec_sample(c, f),
                decreases take - frame,
            {
                let value = other.read_sample_unchecked(channel, frame + other_skip);
                let c = self.write_sample_unchecked(channel, frame + self_skip, &value);
                if c && clipped < usize::MAX {
                    clipped += 1;
                }
                frame += 1;
            }
            channel += 1;
        }
        Some(clipped)
    }
}

/// Wrapper for a slice of length `frames`, containing vectors of length `channels`.
/// Each vector contains the samples for all channels of one frame.
pub struct InterleavedSliceOfVecs<U> {
    buf: U,
    frames: usize,
    channels: usize,
}

impl<'a, T: Copy> InterleavedSliceOfVecs<&'a [Vec<T>]> {
    /// Create a new `InterleavedSliceOfVecs` to wrap a slice of vectors.
    /// The slice must contain at least `frames` vectors,
    /// and each of them must be at least `channels` long.
    /// They are allowed to be longer than needed,
    /// but these extra values cannot be accessed via the trait methods.
    pub fn new(buf: &'a [Vec<T>], channels: usize, frames: usize) -> (r: Result<Self, SizeError>)
        ensures
            r is Ok <==> (frames <= buf@.len() && forall|i: int| 0 <= i < buf@.len() ==> channels <= #[trigger] buf@[i]@.len()),
            buf@.len() < frames ==> r == Err::<Self, SizeError>(
                SizeError::FramesContainer { actual: buf@.len() as usize, required: frames },
            ),
            r matches Err(SizeError::FrameBuffer { index, actual, required }) ==> {
                &&& frames <= buf@.len()
                &&& index < buf@.len()
                &&& actual == buf@[index as int]@.len() < channels
                &&& required == channels
                &&& forall|j: int| 0 <= j < index ==> channels <= #[trigger] buf@[j]@.len()
            },
            r is Err ==> (r matches Err(SizeError::FrameBuffer { .. }) || r matches Err(
                SizeError::FramesContainer { .. },
            )),
            r matches Err(SizeError::FramesContainer { .. }) ==> buf@.len() < frames,
            r matches Ok(w) ==> {
                &&& w.wf()
                &&& w.spec_channels() == channels
                &&& w.spec_frames() == frames
                &&& forall|c: int, f: int|
                    0 <= c < channels && 0 <= f < frames ==> #[trigger] w.spec_sample(c, f)
                        == buf@[f]@[c]
            },
    {
        if buf.len() < frames {
            return Err(SizeError::FramesContainer { actual: buf.len(), required: frames });
        }
        let mut idx: usize = 0;
        while idx < buf.len()
            invariant
                frames <= buf@.len(),
                idx <= buf.len(),
                forall|j: int| 0 <= j < idx ==> channels <= #[trigger] buf@[j]@.len(),
            decreases buf.len() - idx,
        {
            if buf[idx].len() < channels {
                return Err(SizeError::FrameBuffer { index: idx, actual: buf[idx].len(), required: channels });
            }
            idx += 1;
        }
        Ok(Self { buf, frames, channels })
    }
}

impl<'a, T: Copy> Adapter<T> for InterleavedSliceOfVecs<&'a [Vec<T>]> {
    closed spec fn wf(&self) -> bool {
        self.frames <= self.buf@.len() && forall|i: int|
            0 <= i < self.frames ==> self.channels <= #[trigger] self.buf@[i]@.len()
    }

    closed spec fn spec_channels(&self) -> nat {
        self.channels as nat
    }

    closed spec fn spec_frames(&self) -> nat {
        self.frames as nat
    }

    closed spec fn spec_sample(&self, channel: int, frame: int) -> T {
        self.buf@[frame]@[channel]
    }

    fn read_sample_unchecked(&self, channel: usize, frame: usize) -> (value: T) {
        self.buf[frame][channel]
    }

    fn channels(&self) -> (n: usize) {
        self.channels
    }

    fn frames(&self) -> (n: usize) {
        self.frames
    }
}

impl<'a, T: Copy> InterleavedSliceOfVecs<&'a mut [Vec<T>]> {
    /// The wrapped storage, through which the samples are written to the caller's buffer.
    pub closed spec fn spec_storage(&self) -> &'a mut [Vec<T>] {
        self.buf
    }

    /// Once the wrapper is no longer used, the wrapped vectors hold its samples,
    /// one vector per frame.
    pub proof fn lemma_storage(&self)
        requires
            self.wf(),
            has_resolved(*self),
        ensures
            forall|c: int, f: int|
                0 <= c < self.spec_channels() && 0 <= f < self.spec_frames() ==> final(self.spec_storage())@[f]@[c] == #[trigger] self.spec_sample(c, f),
    {
    }

    /// Create a new `InterleavedSliceOfVecs` to wrap a mutable slice of vectors.
    /// The slice must contain at least `frames` vectors,
    /// and each of them must be at least `channels` long.
    /// They are allowed to be longer than needed,
    /// but these extra values cannot be accessed via the trait methods.
    pub fn new_mut(buf: &'a mut [Vec<T>], channels: usize, frames: usize) -> (r: Result<Self, SizeError>)
        ensures
            r is Ok <==> (frames <= old(buf)@.len() && forall|i: int| 0 <= i < old(buf)@.len() ==> channels <= #[trigger] old(buf)@[i]@.len()),
            old(buf)@.len() < frames ==> r == Err::<Self, SizeError>(
                SizeError::FramesContainer { actual: old(buf)@.len() as usize, required: frames },
            ),
            r matches Err(SizeError::FrameBuffer { index, actual, required }) ==> {
                &&& frames <= old(buf)@.len()
                &&& index < old(buf)@.len()
                &&& actual == old(buf)@[index as int]@.len() < channels
                &&& required == channels
                &&& forall|j: int| 0 <= j < index ==> channels <= #[trigger] old(buf)@[j]@.len()
            },
            r is Err ==> (r matches Err(SizeError::FrameBuffer { .. }) || r matches Err(
                SizeError::FramesContainer { .. },
            )),
            r matches Err(SizeError::FramesContainer { .. }) ==> old(buf)@.len() < frames,
            r is Err ==> final(buf)@ == old(buf)@,
            r matches Ok(w) ==> {
                &&& final(w.spec_storage())@ == final(buf)@
                &&& w.wf()
                &&& w.spec_channels() == channels
                &&& w.spec_frames() == frames
                &&& forall|c: int, f: int|
                    0 <= c < channels && 0 <= f < frames ==> #[trigger] w.spec_sample(c, f)
                        == old(buf)@[f]@[c]
            },
    {
        if buf.len() < frames {
            return Err(SizeError::FramesContainer { actual: buf.len(), required: frames });
        }
        let mut idx: usize = 0;
        while idx < buf.len()
            invariant
                frames <= buf@.len(),
                buf@ == old(buf)@,
                idx <= buf.len(),
                forall|j: int| 0 <= j < idx ==> channels <= #[trigger] buf@[j]@.len(),
            decreases buf.len() - idx,
        {
            if buf[idx].len() < channels {
                return Err(SizeError::FrameBuffer { index: idx, actual: buf[idx].len(), required: channels });
            }
            idx += 1;
        }
        Ok(Self { buf, frames, channels })
    }
}

impl<'a, T: Copy> Adapter<T> for InterleavedSliceOfVecs<&'a mut [Vec<T>]> {
    closed spec fn wf(&self) -> bool {
        self.frames <= self.buf@.len() && forall|i: int|
            0 <= i < self.frames ==> self.channels <= #[trigger] self.buf@[i]@.len()
    }

    closed spec fn spec_channels(&self) -> nat {
        self.channels as nat
    }

    closed spec fn spec_frames(&self) -> nat {
        self.frames as nat
    }

    closed spec fn spec_sample(&self, channel: int, frame: int) -> T {
        self.buf@[frame]@[channel]
    }

    fn read_sample_unchecked(&self, channel: usize, frame: usize) -> (value: T) {
        self.buf[frame][channel]
    }

    fn channels(&self) -> (n: usize) {
        self.channels
    }

    fn frames(&self) -> (n: usize) {
        self.frames
    }
}

impl<'a, T: Copy> AdapterMut<T> for InterleavedSliceOfVecs<&'a mut [Vec<T>]> {
    open spec fn spec_stored(&self, channel: int, frame: int, value: T) -> T {
        value
    }

    open spec fn spec_clips(&self, channel: int, frame: int, value: T) -> bool {
        false
    }

    fn write_sample_unchecked(&mut self, channel: usize, frame: usize, value: &T) -> (clipped:
        bool)
        ensures
            final(final(self).spec_storage())@ == final(old(self).spec_storage())@,
    {
        self.buf[frame][channel] = *value;
        false
    }

    fn write_sample(&mut self, channel: usize, frame: usize, value: &T) -> (clipped: Option<bool>)
        ensures
            final(final(self).spec_storage())@ == final(old(self).spec_storage())@,
    {
        if channel >= self.channels() || frame >= self.frames() {
            return None;
        }
        Some(self.write_sample_unchecked(channel, frame, value))
    }

    fn copy_from_slice_to_channel(&mut self, channel: usize, skip: usize, slice: &[T]) -> (r: (
        usize,
        usize,
    ))
        ensures
            final(final(self).spec_storage())@ == final(old(self).spec_storage())@,
    {
        if channel >= self.channels() || skip >= self.frames() {
            return (0, 0);
        }
        let n = if self.frames() - skip < slice.len() {
            self.frames() - skip
        } else {
            slice.len()
        };
        let mut clipped: usize = 0;
        let mut i: usize = 0;
        while i < n
            invariant
                final(self.spec_storage())@ == final(old(self).spec_storage())@,
                self.wf(),
                channel < old(self).spec_channels(),
                skip + n <= old(self).spec_frames() <= usize::MAX,
                n <= slice@.len(),
                i <= n,
                clipped <= i,
                self.spec_channels() == old(self).spec_channels(),
                self.spec_frames() == old(self).spec_frames(),
                forall|c: int, f: int, v: T|
                    #![trigger self.spec_stored(c, f, v)]
                    #![trigger old(self).spec_stored(c, f, v)]
                    self.spec_stored(c, f, v) == old(self).spec_stored(c, f, v),
                forall|c: int, f: int, v: T|
                    #![trigger self.spec_clips(c, f, v)]
                    #![trigger old(self).spec_clips(c, f, v)]
                    self.spec_clips(c, f, v) == old(self).spec_clips(c, f, v),
                forall|j: int|
                    0 <= j < i ==> #[trigger] self.spec_sample(channel as int, skip + j) == old(self).spec_stored(
                        channel as int, skip + j,
                        slice@[j],
                    ),
                forall|c: int, f: int|
                    #![trigger self.spec_sample(c, f)]
                    0 <= c < old(self).spec_channels() && 0 <= f < old(self).spec_frames() && !(c == channel && skip <= f < skip + i)
                        ==> self.spec_sample(c, f) == old(self).spec_sample(c, f),
                clipped == count_true(i as int, |j: int| old(self).spec_clips(channel as int, skip + j, slice@[j])),
            decreases n - i,
        {
            let value = slice[i];
            let c = self.write_sample_unchecked(channel, skip + i, &value);
            if c {
                clipped += 1;
            }
            i += 1;
        }
        (n, clipped)
    }

    fn copy_from_slice_to_frame(&mut self, frame: usize, skip: usize, slice: &[T]) -> (r: (
        usize,
        usize,
    ))
        ensures
            final(final(self).spec_storage())@ == final(old(self).spec_storage())@,
    {
        if frame >= self.frames() || skip >= self.channels() {
            return (0, 0);
        }
        let n = if self.channels() - skip < slice.len() {
            self.channels() - skip
        } else {
            slice.len()
        };
        let mut clipped: usize = 0;
        let mut i: usize = 0;
        while i < n
            invariant
                final(self.spec_storage())@ == final(old(self).spec_storage())@,
                self.wf(),
                frame < old(self).spec_frames(),
                skip + n <= old(self).spec_channels() <= usize::MAX,
                n <= slice@.len(),
                i <= n,
                clipped <= i,
                self.spec_channels() == old(self).spec_channels(),
                self.spec_frames() == old(self).spec_frames(),
                forall|c: int, f: int, v: T|
                    #![trigger self.spec_stored(c, f, v)]
                    #![trigger old(self).spec_stored(c, f, v)]
                    self.spec_stored(c, f, v) == old(self).spec_stored(c, f, v),
                forall|c: int, f: int, v: T|
                    #![trigger self.spec_clips(c, f, v)]
                    #![trigger old(self).spec_clips(c, f, v)]
                    self.spec_clips(c, f, v) == old(self).spec_clips(c, f, v),
                forall|j: int|
                    0 <= j < i ==> #[trigger] self.spec_sample(skip + j, frame as int) == old(self).spec_stored(
                        skip + j, frame as int,
                        slice@[j],
                    ),
                forall|c: int, f: int|
                    #![trigger self.spec_sample(c, f)]
                    0 <= c < old(self).spec_channels() && 0 <= f < old(self).spec_frames() && !(f == frame && skip <= c < skip + i)
                        ==> self.spec_sample(c, f) == old(self).spec_sample(c, f),
                clipped == count_true(i as int, |j: int| old(self).spec_clips(skip + j, frame as int, slice@[j])),
            decreases n - i,
        {
            let value = slice[i];
            let c = self.write_sample_unchecked(skip + i, frame, &value);
            if c {
                clipped += 1;
            }
            i += 1;
        }
        (n, clipped)
    }

    fn copy_from_other_to_channel(
        &mut self,
        other: &dyn Adapter<T>,
        other_channel: usize,
        self_channel: usize,
        other_skip: usize,
        self_skip: usize,
        take: usize,
    ) -> (clipped: Option<usize>)
        ensures
            final(final(self).spec_storage())@ == final(old(self).spec_storage())@,
    {
        if self_channel >= self.channels() || take > self.frames() || self_skip > self.frames()
            - take || other_channel >= other.channels() || take > other.frames() || other_skip
            > other.frames() - take {
            return None;
        }
        let mut clipped: usize = 0;
        let mut i: usize = 0;
        while i < take
            invariant
                final(self.spec_storage())@ == final(old(self).spec_storage())@,
                self.wf(),
                other.wf(),
                self_channel < old(self).spec_channels(),
                self_skip + take <= old(self).spec_frames() <= usize::MAX,
                other_channel < other.spec_channels(),
                other_skip + take <= other.spec_frames() <= usize::MAX,
                i <= take,
                clipped <= i,
                self.spec_channels() == old(self).spec_channels(),
                self.spec_frames() == old(self).spec_frames(),
                forall|c: int, f: int, v: T|
                    #![trigger self.spec_stored(c, f, v)]
                    #![trigger old(self).spec_stored(c, f, v)]
                    self.spec_stored(c, f, v) == old(self).spec_stored(c, f, v),
                forall|c: int, f: int, v: T|
                    #![trigger self.spec_clips(c, f, v)]
                    #![trigger old(self).spec_clips(c, f, v)]
                    self.spec_clips(c, f, v) == old(self).spec_clips(c, f, v),
                forall|j: int|
                    0 <= j < i ==> #[trigger] self.spec_sample(self_channel as int, self_skip + j)
                        == old(self).spec_stored(
                        self_channel as int,
                        self_skip + j,
                        other.spec_sample(other_channel as int, other_skip + j),
                    ),
                forall|c: int, f: int|
                    #![trigger self.spec_sample(c, f)]
                    0 <= c < old(self).spec_channels() && 0 <= f < old(self).spec_frames() && !(c == self_channel && self_skip <= f < self_skip + i)
                        ==> self.spec_sample(c, f) == old(self).spec_sample(c, f),
                clipped == count_true(
                    i as int,
                    |j: int|
                        old(self).spec_clips(
                            self_channel as int,
                            self_skip + j,
                            other.spec_sample(other_channel as int, other_skip + j),
                        ),
                ),
            decreases take - i,
        {
            let value = other.read_sample_unchecked(other_channel, other_skip + i);
            let c = self.write_sample_unchecked(self_channel, self_skip + i, &value);
            if c {
                clipped += 1;
            }
            i += 1;
        }
        Some(clipped)
    }

    fn fill_channel_with(&mut self, channel: usize, value: &T) -> (done: Option<()>)
        ensures
            final(final(self).spec_storage())@ == final(old(self).spec_storage())@,
    {
        if channel >= self.channels() {
            return None;
        }
        let frames = self.frames();
        let mut frame: usize = 0;
        while frame < frames
            invariant
                final(self.spec_storage())@ == final(old(self).spec_storage())@,
                self.wf(),
                channel < old(self).spec_channels(),
                frames == old(self).spec_frames(),
                frame <= frames,
                self.spec_channels() == old(self).spec_channels(),
                self.spec_frames() == old(self).spec_frames(),
                forall|c: int, f: int, v: T|
                    #![trigger self.spec_stored(c, f, v)]
                    #![trigger old(self).spec_stored(c, f, v)]
                    self.spec_stored(c, f, v) == old(self).spec_stored(c, f, v),
                forall|c: int, f: int, v: T|
                    #![trigger self.spec_clips(c, f, v)]
                    #![trigger old(self).spec_clips(c, f, v)]
                    self.spec_clips(c, f, v) == old(self).spec_clips(c, f, v),
                forall|f: int|
                    0 <= f < frame ==> #[trigger] self.spec_sample(channel as int, f)
                        == old(self).spec_stored(channel as int, f, *value),
                forall|c: int, f: int|
                    #![trigger self.spec_sample(c, f)]
                    0 <= c < old(self).spec_channels() && 0 <= f < old(self).spec_frames() && !(c == channel && f < frame)
                        ==> self.spec_sample(c, f) == old(self).spec_sample(c, f),
            decreases frames - frame,
        {
            self.write_sample_unchecked(channel, frame, value);
            frame += 1;
        }
        Some(())
    }

    fn fill_frame_with(&mut self, frame: usize, value: &T) -> (done: Option<()>)
        ensures
            final(final(self).spec_storage())@ == final(old(self).spec_storage())@,
    {
        if frame >= self.frames() {
            return None;
        }
        let channels = self.channels();
        let mut channel: usize = 0;
        while channel < channels
            invariant
                final(self.spec_storage())@ == final(old(self).spec_storage())@,
                self.wf(),
                frame < old(self).spec_frames(),
                channels == old(self).spec_channels(),
                channel <= channels,
                self.spec_channels() == old(self).spec_channels(),
                self.spec_frames() == old(self).spec_frames(),
                forall|c: int, f: int, v: T|
                    #![trigger self.spec_stored(c, f, v)]
                    #![trigger old(self).spec_stored(c, f, v)]
                    self.spec_stored(c, f, v) == old(self).spec_stored(c, f, v),
                forall|c: int, f: int, v: T|
                    #![trigger self.spec_clips(c, f, v)]
                    #![trigger old(self).spec_clips(c, f, v)]
                    self.spec_clips(c, f, v) == old(self).spec_clips(c, f, v),
                forall|c: int|
                    0 <= c < channel ==> #[trigger] self.spec_sample(c, frame as int)
                        == old(self).spec_stored(c, frame as int, *value),
                forall|c: int, f: int|
                    #![trigger self.spec_sample(c, f)]
                    0 <= c < old(self).spec_channels() && 0 <= f < old(self).spec_frames() && !(f == frame && c < channel)
                        ==> self.spec_sample(c, f) == old(self).spec_sample(c, f),
            decreases channels - channel,
        {
            self.write_sample_unchecked(channel, frame, value);
            channel += 1;
        }
        Some(())
    }

    fn fill_frames_with(&mut self, start: usize, count: usize, value: &T) -> (written: Option<
        usize,
    >)
        ensures
            final(final(self).spec_storage())@ == final(old(self).spec_storage())@,
    {
        if count > self.frames() || start > self.frames() - count {
            return None;
        }
        let channels = self.channels();
        let mut channel: usize = 0;
        while channel < channels
            invariant
                final(self.spec_storage())@ == final(old(self).spec_storage())@,
                self.wf(),
                start + count <= old(self).spec_frames() <= usize::MAX,
                channels == old(self).spec_channels(),
                channel <= channels,
                self.spec_channels() == old(self).spec_channels(),
                self.spec_frames() == old(self).spec_frames(),
                forall|c: int, f: int, v: T|
                    #![trigger self.spec_stored(c, f, v)]
                    #![trigger old(self).spec_stored(c, f, v)]
                    self.spec_stored(c, f, v) == old(self).spec_stored(c, f, v),
                forall|c: int, f: int, v: T|
                    #![trigger self.spec_clips(c, f, v)]
                    #![trigger old(self).spec_clips(c, f, v)]
                    self.spec_clips(c, f, v) == old(self).spec_clips(c, f, v),
                forall|c: int, f: int|
                    0 <= c < channel && start <= f < start + count ==> #[trigger] self.spec_sample(c, f)
                        == old(self).spec_stored(c, f, *value),
                forall|c: int, f: int|
                    #![trigger self.spec_sample(c, f)]
                    0 <= c < old(self).spec_channels() && 0 <= f < old(self).spec_frames() && !(c < channel && start <= f < start + count)
                        ==> self.spec_sample(c, f) == old(self).spec_sample(c, f),
            decreases channels - channel,
        {
            let mut frame: usize = start;
            while frame < start + count
                invariant
                    final(self.spec_storage())@ == final(old(self).spec_storage())@,
                    self.wf(),
                    start + count <= old(self).spec_frames() <= usize::MAX,
                    channels == old(self).spec_channels(),
                    channel < channels,
                    start <= frame <= start + count,
                    self.spec_channels() == old(self).spec_channels(),
                    self.spec_frames() == old(self).spec_frames(),
                    forall|c: int, f: int, v: T|
                        #![trigger self.spec_stored(c, f, v)]
                        #![trigger old(self).spec_stored(c, f, v)]
                        self.spec_stored(c, f, v) == old(self).spec_stored(c, f, v),
                    forall|c: int, f: int, v: T|
                        #![trigger self.spec_clips(c, f, v)]
                        #![trigger old(self).spec_clips(c, f, v)]
                        self.spec_clips(c, f, v) == old(self).spec_clips(c, f, v),
                    forall|c: int, f: int|
                        ((0 <= c < channel && start <= f < start + count) || (c == channel && start
                            <= f < frame)) ==> #[trigger] self.spec_sample(c, f)
                            == old(self).spec_stored(c, f, *value),
                    forall|c: int, f: int|
                        #![trigger self.spec_sample(c, f)]
                        0 <= c < old(self).spec_channels() && 0 <= f < old(self).spec_frames() && !((c < channel && start <= f < start + count) || (c == channel && start <= f < frame))
                            ==> self.spec_sample(c, f) == old(self).spec_sample(c, f),
                decreases start + count - frame,
            {
                self.write_sample_unchecked(channel, frame, value);
                frame += 1;
            }
            channel += 1;
        }
        Some(count)
    }

    fn fill_with(&mut self, value: &T)
        ensures
            final(final(self).spec_storage())@ == final(old(self).spec_storage())@,
    {
        let channels = self.channels();
        let mut channel: usize = 0;
        while channel < channels
            invariant
                final(self.spec_storage())@ == final(old(self).spec_storage())@,
                self.wf(),
                channels == old(self).spec_channels(),
                channel <= channels,
                self.spec_channels() == old(self).spec_channels(),
                self.spec_frames() == old(self).spec_frames(),
                forall|c: int, f: int, v: T|
                    #![trigger self.spec_stored(c, f, v)]
                    #![trigger old(self).spec_stored(c, f, v)]
                    self.spec_stored(c, f, v) == old(self).spec_stored(c, f, v),
                forall|c: int, f: int, v: T|
                    #![trigger self.spec_clips(c, f, v)]
                    #![trigger old(self).spec_clips(c, f, v)]
                    self.spec_clips(c, f, v) == old(self).spec_clips(c, f, v),
                forall|c: int, f: int|
                    0 <= c < channel && 0 <= f < old(self).spec_frames() ==> #[trigger] self.spec_sample(c, f)
                        == old(self).spec_stored(c, f, *value),
            decreases channels - channel,
        {
            self.fill_channel_with(channel, value);
            channel += 1;
        }
    }

    fn copy_sample_within(
        &mut self,
        source_channel: usize,
        source_frame: usize,
        target_channel: usize,
        target_frame: usize,
    ) -> (copied: bool)
        ensures
            final(final(self).spec_storage())@ == final(old(self).spec_storage())@,
            copied <==> (source_channel < old(self).spec_channels() && source_frame
                < old(self).spec_frames() && target_channel < old(self).spec_channels() && target_frame
                < old(self).spec_frames()),
    {
        if let Some(value) = self.read_sample(source_channel, source_frame) {
            if self.write_sample(target_channel, target_frame, &value).is_some() {
                return true;
            }
        }
        false
    }

    fn swap_samples(
        &mut self,
        channel_a: usize,
        frame_a: usize,
        channel_b: usize,
        frame_b: usize,
    ) -> (swapped: bool)
        ensures
            final(final(self).spec_storage())@ == final(old(self).spec_storage())@,
            swapped <==> (channel_a < old(self).spec_channels() && frame_a < old(self).spec_frames()
                && channel_b < old(self).spec_channels() && frame_b < old(self).spec_frames()),
    {
        if let Some(value_a) = self.read_sample(channel_a, frame_a) {
            if let Some(value_b) = self.read_sample(channel_b, frame_b) {
                self.write_sample_unchecked(channel_b, frame_b, &value_a);
                self.write_sample_unchecked(channel_a, frame_a, &value_b);
                return true;
            }
        }
        false
    }

    fn copy_from_other(
        &mut self,
        other: &dyn Adapter<T>,
        other_skip: usize,
        self_skip: usize,
        take: usize,
    ) -> (clipped: Option<usize>)
        ensures
            final(final(self).spec_storage())@ == final(old(self).spec_storage())@,
    {
        if other.channels() != self.channels() || take > self.frames() || self_skip > self.frames()
            - take || take > other.frames() || other_skip > other.frames() - take {
            return None;
        }
        let channels = self.channels();
        let mut clipped: usize = 0;
        let mut channel: usize = 0;
        while channel < channels
            invariant
                final(self.spec_storage())@ == final(old(self).spec_storage())@,
                self.wf(),
                other.wf(),
                channels == old(self).spec_channels(),
                other.spec_channels() == channels,
                self_skip + take <= old(self).spec_frames() <= usize::MAX,
                other_skip + take <= other.spec_frames() <= usize::MAX,
                channel <= channels,
                self.spec_channels() == old(self).spec_channels(),
                self.spec_frames() == old(self).spec_frames(),
                forall|c: int, f: int, v: T|
                    #![trigger self.spec_stored(c, f, v)]
                    #![trigger old(self).spec_stored(c, f, v)]
                    self.spec_stored(c, f, v) == old(self).spec_stored(c, f, v),
                forall|c: int, f: int, v: T|
                    #![trigger self.spec_clips(c, f, v)]
                    #![trigger old(self).spec_clips(c, f, v)]
                    self.spec_clips(c, f, v) == old(self).spec_clips(c, f, v),
                clipped == saturated(
                    sum_nat(
                        channel as int,
                        |c: int|
                            count_true(
                                take as int,
                                |j: int|
                                    old(self).spec_clips(c, self_skip + j, other.spec_sample(c, other_skip + j)),
                            ),
                    ),
                ),
                forall|c: int, f: int|
                    0 <= c < channel && self_skip <= f < self_skip + take ==> #[trigger] self.spec_sample(c, f)
                        == old(self).spec_stored(c, f, other.spec_sample(c, f - self_skip + other_skip)),
                forall|c: int, f: int|
                    #![trigger self.spec_sample(c, f)]
                    0 <= c < old(self).spec_channels() && 0 <= f < old(self).spec_frames() && !(c < channel && self_skip <= f < self_skip + take)
                        ==> self.spec_sample(c, f) == old(self).spec_sample(c, f),
            decreases channels - channel,
        {
            let ghost before = clipped;
            let mut frame: usize = 0;
            while frame < take
                invariant
                    final(self.spec_storage())@ == final(old(self).spec_storage())@,
                    self.wf(),
                    other.wf(),
                    channels == old(self).spec_channels(),
                    other.spec_channels() == channels,
                    self_skip + take <= old(self).spec_frames() <= usize::MAX,
                    other_skip + take <= other.spec_frames() <= usize::MAX,
                    channel < channels,
                    frame <= take,
                    before == saturated(
                        sum_nat(
                            channel as int,
                            |c: int|
                                count_true(
                                    take as int,
                                    |j: int|
                                        old(self).spec_clips(c, self_skip + j, other.spec_sample(c, other_skip + j)),
                                ),
                        ),
                    ),
                    clipped == saturated(
                        sum_nat(
                            channel as int,
                            |c: int|
                                count_true(
                                    take as int,
                                    |j: int|
                                        old(self).spec_clips(c, self_skip + j, other.spec_sample(c, other_skip + j)),
                                ),
                        ) + count_true(
                            frame as int,
                            |j: int|
                                old(self).spec_clips(channel as int, self_skip + j, other.spec_sample(channel as int, other_skip + j)),
                        ),
                    ),
                    self.spec_channels() == old(self).spec_channels(),
                    self.spec_frames() == old(self).spec_frames(),
                    forall|c: int, f: int, v: T|
                        #![trigger self.spec_stored(c, f, v)]
                        #![trigger old(self).spec_stored(c, f, v)]
                        self.spec_stored(c, f, v) == old(self).spec_stored(c, f, v),
                    forall|c: int, f: int, v: T|
                        #![trigger self.spec_clips(c, f, v)]
                        #![trigger old(self).spec_clips(c, f, v)]
                        self.spec_clips(c, f, v) == old(self).spec_clips(c, f, v),
                    forall|c: int, f: int|
                        ((0 <= c < channel && self_skip <= f < self_skip + take) || (c == channel
                            && self_skip <= f < self_skip + frame)) ==> #[trigger] self.spec_sample(c, f)
                            == old(self).spec_stored(c, f, other.spec_sample(c, f - self_skip + other_skip)),
                    forall|c: int, f: int|
                        #![trigger self.spec_sample(c, f)]
                        0 <= c < old(self).spec_channels() && 0 <= f < old(self).spec_frames() && !((c < channel && self_skip <= f < self_skip + take) || (c == channel && self_skip <= f < self_skip + frame))
                            ==> self.spec_sample(c, f) == old(self).spec_sample(c, f),
                decreases take - frame,
            {
                let value = other.read_sample_unchecked(channel, frame + other_skip);
                let c = self.write_sample_unchecked(channel, frame + self_skip, &value);
                if c && clipped < usize::MAX {
                    clipped += 1;
                }
                frame += 1;
            }
            channel += 1;
        }
        Some(clipped)
    }
}


/// A `SparseSequentialSliceOfVecs` drops the writes to the channels it does not store: such a
/// channel reads as silence, and reads back silence whatever is written to it,
/// while a stored channel reads back exactly what was written. No write clips.
pub proof fn law_sparse_vecs_drop_inactive_writes<'a, T: Copy + Default>(
    buffer: &SparseSequentialSliceOfVecs<'a, &'a mut [Vec<T>], T>,
    channel: int,
    frame: int,
    value: T,
)
    requires
        buffer.wf(),
        0 <= channel < buffer.spec_channels(),
    ensures
        buffer.spec_stored(channel, frame, value) == if buffer.spec_active(channel) {
            value
        } else {
            buffer.spec_silence()
        },
        !buffer.spec_active(channel) ==> buffer.spec_sample(channel, frame) == buffer.spec_silence(),
        !buffer.spec_clips(channel, frame, value),
{
}

/// A `SparseSequentialSliceOfSlices` drops the writes to the channels it does not store: such a
/// channel reads as silence, and reads back silence whatever is written to it,
/// while a stored channel reads back exactly what was written. No write clips.
pub proof fn law_sparse_slices_drop_inactive_writes<'a, T: Copy + Default>(
    buffer: &SparseSequentialSliceOfSlices<'a, &'a mut [&'a mut [T]], T>,
    channel: int,
    frame: int,
    value: T,
)
    requires
        buffer.wf(),
        0 <= channel < buffer.spec_channels(),
    ensures
        buffer.spec_stored(channel, frame, value) == if buffer.spec_active(channel) {
            value
        } else {
            buffer.spec_silence()
        },
        !buffer.spec_active(channel) ==> buffer.spec_sample(channel, frame) == buffer.spec_silence(),
        !buffer.spec_clips(channel, frame, value),
{
}

} // verus!

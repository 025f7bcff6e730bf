//! The traits for accessing the samples of a buffer by channel and frame.
use vstd::prelude::*;

verus! {

/// The number of values a bounded copy moves between a buffer line and a slice.
///
/// `index` selects a channel (or frame) among `count` of them, and `skip` is the
/// offset along it, where `avail` values are stored. Nothing is moved when either
/// is out of range, otherwise as many values as both sides can hold.
pub open spec fn copy_span(index: int, count: int, skip: int, avail: int, len: int) -> int {
    if 0 <= index < count && 0 <= skip < avail {
        if avail - skip < len {
            avail - skip
        } else {
            len
        }
    } else {
        0
    }
}

/// The number of `i` in `0..n` for which `p(i)` holds.
pub open spec fn count_true(n: int, p: spec_fn(int) -> bool) -> nat
    decreases n,
{
    if n <= 0 {
        0
    } else {
        count_true(n - 1, p) + if p(n - 1) {
            1nat
        } else {
            0nat
        }
    }
}

/// The sum of `g(i)` over `i` in `0..n`.
pub open spec fn sum_nat(n: int, g: spec_fn(int) -> nat) -> nat
    decreases n,
{
    if n <= 0 {
        0
    } else {
        sum_nat(n - 1, g) + g(n - 1)
    }
}

/// Counting a property that holds nowhere gives zero.
pub proof fn lemma_count_true_none(n: int, p: spec_fn(int) -> bool)
    requires
        forall|j: int| 0 <= j < n ==> !#[trigger] p(j),
    ensures
        count_true(n, p) == 0,
    decreases n,
{
    if n > 0 {
        lemma_count_true_none(n - 1, p);
    }
}

/// The smaller of `n` and `usize::MAX`.
pub open spec fn saturated(n: nat) -> int {
    if n <= usize::MAX {
        n as int
    } else {
        usize::MAX as int
    }
}

/// A trait for reading samples from a buffer.
///
/// The buffer is modelled as a grid of `spec_channels() * spec_frames()` samples,
/// where `spec_sample(channel, frame)` is the value that a read of that position gives.
/// Implementations may transform the stored value before returning it.
///
/// `wf` is the implementation's well-formedness: the reported dimensions fit the
/// storage that is wrapped. Every constructor of this crate establishes it,
/// and no method breaks it.
pub trait Adapter<T: Copy> {
    /// The wrapper's dimensions fit the storage it wraps.
    spec fn wf(&self) -> bool;

    /// The number of channels.
    spec fn spec_channels(&self) -> nat;

    /// The number of frames.
    spec fn spec_frames(&self) -> nat;

    /// The value a read of the given position returns.
    spec fn spec_sample(&self, channel: int, frame: int) -> T;

    /// Read the sample at a given combination of frame and channel,
    /// which must both be in range.
    fn read_sample_unchecked(&self, channel: usize, frame: usize) -> (value: T)
        requires
            self.wf(),
            channel < self.spec_channels(),
            frame < self.spec_frames(),
        ensures
            value == self.spec_sample(channel as int, frame as int),
    ;

    /// Read the sample at a given combination of frame and channel.
    /// Returns `None` if the frame or channel is out of bounds of the buffer.
    fn read_sample(&self, channel: usize, frame: usize) -> (value: Option<T>)
        requires
            self.wf(),
        ensures
            value == (if channel < self.spec_channels() && frame < self.spec_frames() {
                Some(self.spec_sample(channel as int, frame as int))
            } else {
                None
            }),
    {
        if channel >= self.channels() || frame >= self.frames() {
            return None;
        }
        Some(self.read_sample_unchecked(channel, frame))
    }

    /// Get the number of channels stored in this buffer.
    fn channels(&self) -> (n: usize)
        ensures
            n == self.spec_channels(),
    ;

    /// Get the number of frames stored in this buffer.
    fn frames(&self) -> (n: usize)
        ensures
            n == self.spec_frames(),
    ;

    /// Copy values from a channel of self to a slice, starting at frame `skip`.
    /// If the slice is longer than the available number of values in the channel,
    /// then only the available number of samples is copied.
    ///
    /// Returns the number of values copied, which are placed first in the slice.
    /// If an invalid channel number is given, or if `skip` is not a frame of the
    /// buffer, nothing is copied and zero is returned.
    fn copy_from_channel_to_slice(&self, channel: usize, skip: usize, slice: &mut [T]) -> (n: usize)
        requires
            self.wf(),
        ensures
            final(slice)@.len() == old(slice)@.len(),
            n == copy_span(
                channel as int,
                self.spec_channels() as int,
                skip as int,
                self.spec_frames() as int,
                old(slice)@.len() as int,
            ),
            forall|i: int| 0 <= i < n ==> #[trigger] final(slice)@[i] == self.spec_sample(channel as int, skip + i),
            forall|i: int| n <= i < old(slice)@.len() ==> #[trigger] final(slice)@[i] == old(slice)@[i],
    {
        if channel >= self.channels() || skip >= self.frames() {
            return 0;
        }
        let n = if self.frames() - skip < slice.len() {
            self.frames() - skip
        } else {
            slice.len()
        };
        let mut i: usize = 0;
        while i < n
            invariant
                self.wf(),
                channel < self.spec_channels(),
                skip + n <= self.spec_frames() <= usize::MAX,
                n <= old(slice)@.len(),
                i <= n,
                slice@.len() == old(slice)@.len(),
                forall|j: int| 0 <= j < i ==> #[trigger] slice@[j] == self.spec_sample(channel as int, skip + j),
                forall|j: int| i <= j < old(slice)@.len() ==> #[trigger] slice@[j] == old(slice)@[j],
            decreases n - i,
        {
            let value = self.read_sample_unchecked(channel, skip + i);
            slice[i] = value;
            i += 1;
        }
        n
    }

    /// Copy values from a frame of self to a slice, starting at channel `skip`.
    /// If the slice is longer than the available number of values in the frame,
    /// then only the available number of samples is copied.
    ///
    /// Returns the number of values copied, which are placed first in the slice.
    /// If an invalid frame number is given, or if `skip` is not a channel of the
    /// buffer, nothing is copied and zero is returned.
    fn copy_from_frame_to_slice(&self, frame: usize, skip: usize, slice: &mut [T]) -> (n: usize)
        requires
            self.wf(),
        ensures
            final(slice)@.len() == old(slice)@.len(),
            n == copy_span(
                frame as int,
                self.spec_frames() as int,
                skip as int,
                self.spec_channels() as int,
                old(slice)@.len() as int,
            ),
            forall|i: int| 0 <= i < n ==> #[trigger] final(slice)@[i] == self.spec_sample(skip + i, frame as int),
            forall|i: int| n <= i < old(slice)@.len() ==> #[trigger] final(slice)@[i] == old(slice)@[i],
    {
        if frame >= self.frames() || skip >= self.channels() {
            return 0;
        }
        let n = if self.channels() - skip < slice.len() {
            self.channels() - skip
        } else {
            slice.len()
        };
        let mut i: usize = 0;
        while i < n
            invariant
                self.wf(),
                frame < self.spec_frames(),
                skip + n <= self.spec_channels() <= usize::MAX,
                n <= old(slice)@.len(),
                i <= n,
                slice@.len() == old(slice)@.len(),
                forall|j: int| 0 <= j < i ==> #[trigger] slice@[j] == self.spec_sample(skip + j, frame as int),
                forall|j: int| i <= j < old(slice)@.len() ==> #[trigger] slice@[j] == old(slice)@[j],
            decreases n - i,
        {
            let value = self.read_sample_unchecked(skip + i, frame);
            slice[i] = value;
            i += 1;
        }
        n
    }
}

/// A trait for writing samples to a buffer.
///
/// A write of `value` at a position makes that position read back
/// `spec_stored(channel, frame, value)`, and reports `spec_clips(channel, frame, value)`.
/// For wrappers that store values unchanged, these are `value` and `false`.
/// Implementations that convert the value may store something else and report clipping,
/// and sparse buffers may drop writes to channels they do not store.
/// Writing never changes the dimensions, nor what later writes store or report.
pub trait AdapterMut<T: Copy>: Adapter<T> {
    /// The value that a position reads back after `value` was written to it.
    spec fn spec_stored(&self, channel: int, frame: int, value: T) -> T;

    /// Whether writing `value` to the position clips it during conversion.
    spec fn spec_clips(&self, channel: int, frame: int, value: T) -> bool;


    /// Write a sample to the given combination of frame and channel,
    /// which must both be in range.
    /// Returns a boolean indicating if the sample value was clipped during conversion.
    /// Implementations that do not perform any conversion always return `false`.
    fn write_sample_unchecked(&mut self, channel: usize, frame: usize, value: &T) -> (clipped:
        bool)
        requires
            old(self).wf(),
            channel < old(self).spec_channels(),
            frame < old(self).spec_frames(),
        ensures
            final(self).wf(),
            final(self).spec_channels() == old(self).spec_channels(),
            final(self).spec_frames() == old(self).spec_frames(),
            forall|c: int, f: int, v: T|
                #![trigger final(self).spec_stored(c, f, v)]
                #![trigger old(self).spec_stored(c, f, v)]
                final(self).spec_stored(c, f, v) == old(self).spec_stored(c, f, v),
            forall|c: int, f: int, v: T|
                #![trigger final(self).spec_clips(c, f, v)]
                #![trigger old(self).spec_clips(c, f, v)]
                final(self).spec_clips(c, f, v) == old(self).spec_clips(c, f, v),
            final(self).spec_sample(channel as int, frame as int) == old(self).spec_stored(
                channel as int,
                frame as int,
                *value,
            ),
            forall|c: int, f: int|
                #![trigger final(self).spec_sample(c, f)]
                0 <= c < old(self).spec_channels() && 0 <= f < old(self).spec_frames() && !(c == channel && f == frame)
                    ==> final(self).spec_sample(c, f) == old(self).spec_sample(c, f),
            clipped == old(self).spec_clips(channel as int, frame as int, *value),
    ;

    /// Write a sample to the given combination of frame and channel.
    /// Returns a boolean indicating if the sample value was clipped during conversion,
    /// or `None` if the frame or channel is out of bounds of the buffer.
    fn write_sample(&mut self, channel: usize, frame: usize, value: &T) -> (clipped: Option<bool>)
        requires
            old(self).wf(),
        ensures
            final(self).wf(),
            final(self).spec_channels() == old(self).spec_channels(),
            final(self).spec_frames() == old(self).spec_frames(),
            forall|c: int, f: int, v: T|
                #![trigger final(self).spec_stored(c, f, v)]
                #![trigger old(self).spec_stored(c, f, v)]
                final(self).spec_stored(c, f, v) == old(self).spec_stored(c, f, v),
            forall|c: int, f: int, v: T|
                #![trigger final(self).spec_clips(c, f, v)]
                #![trigger old(self).spec_clips(c, f, v)]
                final(self).spec_clips(c, f, v) == old(self).spec_clips(c, f, v),
            clipped is Some <==> (channel < old(self).spec_channels() && frame < old(self).spec_frames()),
            clipped is Some ==> clipped == Some(old(self).spec_clips(channel as int, frame as int, *value)),
            clipped is Some ==> final(self).spec_sample(channel as int, frame as int) == old(self).spec_stored(
                channel as int,
                frame as int,
                *value,
            ),
            forall|c: int, f: int|
                #![trigger final(self).spec_sample(c, f)]
                0 <= c < old(self).spec_channels() && 0 <= f < old(self).spec_frames() && !(clipped is Some && c == channel && f == frame)
                    ==> final(self).spec_sample(c, f) == old(self).spec_sample(c, f),
    {
        if channel >= self.channels() || frame >= self.frames() {
            return None;
        }
        Some(self.write_sample_unchecked(channel, frame, value))
    }

    /// Copy values from a slice into a channel of self, starting at frame `skip`.
    /// If the slice is longer than the available space in the channel,
    /// then only the number of samples that fit is copied.
    ///
    /// Returns the number of values copied, and the number of values that were
    /// clipped during conversion.
    /// If an invalid channel number is given, or if `skip` is not a frame of the
    /// buffer, nothing is copied and `(0, 0)` is returned.
    fn copy_from_slice_to_channel(&mut self, channel: usize, skip: usize, slice: &[T]) -> (r: (
        usize,
        usize,
    ))
        requires
            old(self).wf(),
        ensures
            final(self).wf(),
            final(self).spec_channels() == old(self).spec_channels(),
            final(self).spec_frames() == old(self).spec_frames(),
            forall|c: int, f: int, v: T|
                #![trigger final(self).spec_stored(c, f, v)]
                #![trigger old(self).spec_stored(c, f, v)]
                final(self).spec_stored(c, f, v) == old(self).spec_stored(c, f, v),
            forall|c: int, f: int, v: T|
                #![trigger final(self).spec_clips(c, f, v)]
                #![trigger old(self).spec_clips(c, f, v)]
                final(self).spec_clips(c, f, v) == old(self).spec_clips(c, f, v),
            r.0 == copy_span(
                channel as int,
                old(self).spec_channels() as int,
                skip as int,
                old(self).spec_frames() as int,
                slice@.len() as int,
            ),
            forall|i: int|
                0 <= i < r.0 ==> #[trigger] final(self).spec_sample(channel as int, skip + i) == old(self).spec_stored(
                    channel as int, skip + i,
                    slice@[i],
                ),
            forall|c: int, f: int|
                #![trigger final(self).spec_sample(c, f)]
                0 <= c < old(self).spec_channels() && 0 <= f < old(self).spec_frames() && !(c == channel && skip <= f < skip + r.0)
                    ==> final(self).spec_sample(c, f) == old(self).spec_sample(c, f),
            r.1 == count_true(r.0 as int, |j: int| old(self).spec_clips(channel as int, skip + j, slice@[j])),
    {
        if channel >= self.channels() || skip >= self.frames() {
            return (0, 0);
        }
        let n = if self.frames() - skip < slice.len() {
            self.frames() - skip
        } else {
            slice.len()
        };
        let mut clipped: usize = 0;
        let mut i: usize = 0;
        while i < n
            invariant
                self.wf(),
                channel < old(self).spec_channels(),
                skip + n <= old(self).spec_frames() <= usize::MAX,
                n <= slice@.len(),
                i <= n,
                clipped <= i,
                self.spec_channels() == old(self).spec_channels(),
                self.spec_frames() == old(self).spec_frames(),
                forall|c: int, f: int, v: T|
                    #![trigger self.spec_stored(c, f, v)]
                    #![trigger old(self).spec_stored(c, f, v)]
                    self.spec_stored(c, f, v) == old(self).spec_stored(c, f, v),
                forall|c: int, f: int, v: T|
                    #![trigger self.spec_clips(c, f, v)]
                    #![trigger old(self).spec_clips(c, f, v)]
                    self.spec_clips(c, f, v) == old(self).spec_clips(c, f, v),
                forall|j: int|
                    0 <= j < i ==> #[trigger] self.spec_sample(channel as int, skip + j) == old(self).spec_stored(
                        channel as int, skip + j,
                        slice@[j],
                    ),
                forall|c: int, f: int|
                    #![trigger self.spec_sample(c, f)]
                    0 <= c < old(self).spec_channels() && 0 <= f < old(self).spec_frames() && !(c == channel && skip <= f < skip + i)
                        ==> self.spec_sample(c, f) == old(self).spec_sample(c, f),
                clipped == count_true(i as int, |j: int| old(self).spec_clips(channel as int, skip + j, slice@[j])),
            decreases n - i,
        {
            let value = slice[i];
            let c = self.write_sample_unchecked(channel, skip + i, &value);
            if c {
                clipped += 1;
            }
            i += 1;
        }
        (n, clipped)
    }

    /// Copy values from a slice into a frame of self, starting at channel `skip`.
    /// If the slice is longer than the available space in the frame,
    /// then only the number of samples that fit is copied.
    ///
    /// Returns the number of values copied, and the number of values that were
    /// clipped during conversion.
    /// If an invalid frame number is given, or if `skip` is not a channel of the
    /// buffer, nothing is copied and `(0, 0)` is returned.
    fn copy_from_slice_to_frame(&mut self, frame: usize, skip: usize, slice: &[T]) -> (r: (
        usize,
        usize,
    ))
        requires
            old(self).wf(),
        ensures
            final(self).wf(),
            final(self).spec_channels() == old(self).spec_channels(),
            final(self).spec_frames() == old(self).spec_frames(),
            forall|c: int, f: int, v: T|
                #![trigger final(self).spec_stored(c, f, v)]
                #![trigger old(self).spec_stored(c, f, v)]
                final(self).spec_stored(c, f, v) == old(self).spec_stored(c, f, v),
            forall|c: int, f: int, v: T|
                #![trigger final(self).spec_clips(c, f, v)]
                #![trigger old(self).spec_clips(c, f, v)]
                final(self).spec_clips(c, f, v) == old(self).spec_clips(c, f, v),
            r.0 == copy_span(
                frame as int,
                old(self).spec_frames() as int,
                skip as int,
                old(self).spec_channels() as int,
                slice@.len() as int,
            ),
            forall|i: int|
                0 <= i < r.0 ==> #[trigger] final(self).spec_sample(skip + i, frame as int) == old(self).spec_stored(
                    skip + i, frame as int,
                    slice@[i],
                ),
            forall|c: int, f: int|
                #![trigger final(self).spec_sample(c, f)]
                0 <= c < old(self).spec_channels() && 0 <= f < old(self).spec_frames() && !(f == frame && skip <= c < skip + r.0)
                    ==> final(self).spec_sample(c, f) == old(self).spec_sample(c, f),
            r.1 == count_true(r.0 as int, |j: int| old(self).spec_clips(skip + j, frame as int, slice@[j])),
    {
        if frame >= self.frames() || skip >= self.channels() {
            return (0, 0);
        }
        let n = if self.channels() - skip < slice.len() {
            self.channels() - skip
        } else {
            slice.len()
        };
        let mut clipped: usize = 0;
        let mut i: usize = 0;
        while i < n
            invariant
                self.wf(),
                frame < old(self).spec_frames(),
                skip + n <= old(self).spec_channels() <= usize::MAX,
                n <= slice@.len(),
                i <= n,
                clipped <= i,
                self.spec_channels() == old(self).spec_channels(),
                self.spec_frames() == old(self).spec_frames(),
                forall|c: int, f: int, v: T|
                    #![trigger self.spec_stored(c, f, v)]
                    #![trigger old(self).spec_stored(c, f, v)]
                    self.spec_stored(c, f, v) == old(self).spec_stored(c, f, v),
                forall|c: int, f: int, v: T|
                    #![trigger self.spec_clips(c, f, v)]
                    #![trigger old(self).spec_clips(c, f, v)]
                    self.spec_clips(c, f, v) == old(self).spec_clips(c, f, v),
                forall|j: int|
                    0 <= j < i ==> #[trigger] self.spec_sample(skip + j, frame as int) == old(self).spec_stored(
                        skip + j, frame as int,
                        slice@[j],
                    ),
                forall|c: int, f: int|
                    #![trigger self.spec_sample(c, f)]
                    0 <= c < old(self).spec_channels() && 0 <= f < old(self).spec_frames() && !(f == frame && skip <= c < skip + i)
                        ==> self.spec_sample(c, f) == old(self).spec_sample(c, f),
                clipped == count_true(i as int, |j: int| old(self).spec_clips(skip + j, frame as int, slice@[j])),
            decreases n - i,
        {
            let value = slice[i];
            let c = self.write_sample_unchecked(skip + i, frame, &value);
            if c {
                clipped += 1;
            }
            i += 1;
        }
        (n, clipped)
    }

    /// Copy `take` values from a channel of another adapter into a channel of self.
    /// The `other_skip` and `self_skip` arguments are the frames where copying starts
    /// in the two channels.
    ///
    /// Returns the number of values that were clipped during conversion.
    /// If an invalid channel number is given, or if either of the channels is too
    /// short to copy `take` values, nothing is copied and `None` is returned.
    fn copy_from_other_to_channel(
        &mut self,
        other: &dyn Adapter<T>,
        other_channel: usize,
        self_channel: usize,
        other_skip: usize,
        self_skip: usize,
        take: usize,
    ) -> (clipped: Option<usize>)
        requires
            old(self).wf(),
            other.wf(),
        ensures
            final(self).wf(),
            final(self).spec_channels() == old(self).spec_channels(),
            final(self).spec_frames() == old(self).spec_frames(),
            forall|c: int, f: int, v: T|
                #![trigger final(self).spec_stored(c, f, v)]
                #![trigger old(self).spec_stored(c, f, v)]
                final(self).spec_stored(c, f, v) == old(self).spec_stored(c, f, v),
            forall|c: int, f: int, v: T|
                #![trigger final(self).spec_clips(c, f, v)]
                #![trigger old(self).spec_clips(c, f, v)]
                final(self).spec_clips(c, f, v) == old(self).spec_clips(c, f, v),
            clipped is Some <==> (self_channel < old(self).spec_channels() && self_skip + take
                <= old(self).spec_frames() && other_channel < other.spec_channels() && other_skip
                + take <= other.spec_frames()),
            clipped is Some ==> clipped == Some(
                count_true(
                    take as int,
                    |j: int|
                        old(self).spec_clips(
                            self_channel as int,
                            self_skip + j,
                            other.spec_sample(other_channel as int, other_skip + j),
                        ),
                ) as usize,
            ),
            clipped is Some ==> forall|i: int|
                0 <= i < take ==> #[trigger] final(self).spec_sample(self_channel as int, self_skip + i)
                    == old(self).spec_stored(
                    self_channel as int,
                    self_skip + i,
                    other.spec_sample(other_channel as int, other_skip + i),
                ),
            forall|c: int, f: int|
                #![trigger final(self).spec_sample(c, f)]
                0 <= c < old(self).spec_channels() && 0 <= f < old(self).spec_frames() && !(clipped is Some && c == self_channel && self_skip <= f < self_skip + take)
                    ==> final(self).spec_sample(c, f) == old(self).spec_sample(c, f),
    {
        if self_channel >= self.channels() || take > self.frames() || self_skip > self.frames()
            - take || other_channel >= other.channels() || take > other.frames() || other_skip
            > other.frames() - take {
            return None;
        }
        let mut clipped: usize = 0;
        let mut i: usize = 0;
        while i < take
            invariant
                self.wf(),
                other.wf(),
                self_channel < old(self).spec_channels(),
                self_skip + take <= old(self).spec_frames() <= usize::MAX,
                other_channel < other.spec_channels(),
                other_skip + take <= other.spec_frames() <= usize::MAX,
                i <= take,
                clipped <= i,
                self.spec_channels() == old(self).spec_channels(),
                self.spec_frames() == old(self).spec_frames(),
                forall|c: int, f: int, v: T|
                    #![trigger self.spec_stored(c, f, v)]
                    #![trigger old(self).spec_stored(c, f, v)]
                    self.spec_stored(c, f, v) == old(self).spec_stored(c, f, v),
                forall|c: int, f: int, v: T|
                    #![trigger self.spec_clips(c, f, v)]
                    #![trigger old(self).spec_clips(c, f, v)]
                    self.spec_clips(c, f, v) == old(self).spec_clips(c, f, v),
                forall|j: int|
                    0 <= j < i ==> #[trigger] self.spec_sample(self_channel as int, self_skip + j)
                        == old(self).spec_stored(
                        self_channel as int,
                        self_skip + j,
                        other.spec_sample(other_channel as int, other_skip + j),
                    ),
                forall|c: int, f: int|
                    #![trigger self.spec_sample(c, f)]
                    0 <= c < old(self).spec_channels() && 0 <= f < old(self).spec_frames() && !(c == self_channel && self_skip <= f < self_skip + i)
                        ==> self.spec_sample(c, f) == old(self).spec_sample(c, f),
                clipped == count_true(
                    i as int,
                    |j: int|
                        old(self).spec_clips(
                            self_channel as int,
                            self_skip + j,
                            other.spec_sample(other_channel as int, other_skip + j),
                        ),
                ),
            decreases take - i,
        {
            let value = other.read_sample_unchecked(other_channel, other_skip + i);
            let c = self.write_sample_unchecked(self_channel, self_skip + i, &value);
            if c {
                clipped += 1;
            }
            i += 1;
        }
        Some(clipped)
    }

    /// Write the provided value to every sample in a channel.
    /// Can be used to clear a channel by writing zeroes,
    /// or to initialize each sample to a certain value.
    /// Returns `None` if called with an invalid channel number.
    fn fill_channel_with(&mut self, channel: usize, value: &T) -> (done: Option<()>)
        requires
            old(self).wf(),
        ensures
            final(self).wf(),
            final(self).spec_channels() == old(self).spec_channels(),
            final(self).spec_frames() == old(self).spec_frames(),
            forall|c: int, f: int, v: T|
                #![trigger final(self).spec_stored(c, f, v)]
                #![trigger old(self).spec_stored(c, f, v)]
                final(self).spec_stored(c, f, v) == old(self).spec_stored(c, f, v),
            forall|c: int, f: int, v: T|
                #![trigger final(self).spec_clips(c, f, v)]
                #![trigger old(self).spec_clips(c, f, v)]
                final(self).spec_clips(c, f, v) == old(self).spec_clips(c, f, v),
            done is Some <==> channel < old(self).spec_channels(),
            done is Some ==> forall|f: int|
                0 <= f < old(self).spec_frames() ==> #[trigger] final(self).spec_sample(channel as int, f)
                    == old(self).spec_stored(channel as int, f, *value),
            forall|c: int, f: int|
                #![trigger final(self).spec_sample(c, f)]
                0 <= c < old(self).spec_channels() && 0 <= f < old(self).spec_frames() && !(done is Some && c == channel)
                    ==> final(self).spec_sample(c, f) == old(self).spec_sample(c, f),
    {
        if channel >= self.channels() {
            return None;
        }
        let frames = self.frames();
        let mut frame: usize = 0;
        while frame < frames
            invariant
                self.wf(),
                channel < old(self).spec_channels(),
                frames == old(self).spec_frames(),
                frame <= frames,
                self.spec_channels() == old(self).spec_channels(),
                self.spec_frames() == old(self).spec_frames(),
                forall|c: int, f: int, v: T|
                    #![trigger self.spec_stored(c, f, v)]
                    #![trigger old(self).spec_stored(c, f, v)]
                    self.spec_stored(c, f, v) == old(self).spec_stored(c, f, v),
                forall|c: int, f: int, v: T|
                    #![trigger self.spec_clips(c, f, v)]
                    #![trigger old(self).spec_clips(c, f, v)]
                    self.spec_clips(c, f, v) == old(self).spec_clips(c, f, v),
                forall|f: int|
                    0 <= f < frame ==> #[trigger] self.spec_sample(channel as int, f)
                        == old(self).spec_stored(channel as int, f, *value),
                forall|c: int, f: int|
                    #![trigger self.spec_sample(c, f)]
                    0 <= c < old(self).spec_channels() && 0 <= f < old(self).spec_frames() && !(c == channel && f < frame)
                        ==> self.spec_sample(c, f) == old(self).spec_sample(c, f),
            decreases frames - frame,
        {
            self.write_sample_unchecked(channel, frame, value);
            frame += 1;
        }
        Some(())
    }

    /// Write the provided value to every sample in a frame.
    /// Can be used to clear a frame by writing zeroes,
    /// or to initialize each sample to a certain value.
    /// Returns `None` if called with an invalid frame number.
    fn fill_frame_with(&mut self, frame: usize, value: &T) -> (done: Option<()>)
        requires
            old(self).wf(),
        ensures
            final(self).wf(),
            final(self).spec_channels() == old(self).spec_channels(),
            final(self).spec_frames() == old(self).spec_frames(),
            forall|c: int, f: int, v: T|
                #![trigger final(self).spec_stored(c, f, v)]
                #![trigger old(self).spec_stored(c, f, v)]
                final(self).spec_stored(c, f, v) == old(self).spec_stored(c, f, v),
            forall|c: int, f: int, v: T|
                #![trigger final(self).spec_clips(c, f, v)]
                #![trigger old(self).spec_clips(c, f, v)]
                final(self).spec_clips(c, f, v) == old(self).spec_clips(c, f, v),
            done is Some <==> frame < old(self).spec_frames(),
            done is Some ==> forall|c: int|
                0 <= c < old(self).spec_channels() ==> #[trigger] final(self).spec_sample(c, frame as int)
                    == old(self).spec_stored(c, frame as int, *value),
            forall|c: int, f: int|
                #![trigger final(self).spec_sample(c, f)]
                0 <= c < old(self).spec_channels() && 0 <= f < old(self).spec_frames() && !(done is Some && f == frame)
                    ==> final(self).spec_sample(c, f) == old(self).spec_sample(c, f),
    {
        if frame >= self.frames() {
            return None;
        }
        let channels = self.channels();
        let mut channel: usize = 0;
        while channel < channels
            invariant
                self.wf(),
                frame < old(self).spec_frames(),
                channels == old(self).spec_channels(),
                channel <= channels,
                self.spec_channels() == old(self).spec_channels(),
                self.spec_frames() == old(self).spec_frames(),
                forall|c: int, f: int, v: T|
                    #![trigger self.spec_stored(c, f, v)]
                    #![trigger old(self).spec_stored(c, f, v)]
                    self.spec_stored(c, f, v) == old(self).spec_stored(c, f, v),
                forall|c: int, f: int, v: T|
                    #![trigger self.spec_clips(c, f, v)]
                    #![trigger old(self).spec_clips(c, f, v)]
                    self.spec_clips(c, f, v) == old(self).spec_clips(c, f, v),
                forall|c: int|
                    0 <= c < channel ==> #[trigger] self.spec_sample(c, frame as int)
                        == old(self).spec_stored(c, frame as int, *value),
                forall|c: int, f: int|
                    #![trigger self.spec_sample(c, f)]
                    0 <= c < old(self).spec_channels() && 0 <= f < old(self).spec_frames() && !(f == frame && c < channel)
                        ==> self.spec_sample(c, f) == old(self).spec_sample(c, f),
            decreases channels - channel,
        {
            self.write_sample_unchecked(channel, frame, value);
            channel += 1;
        }
        Some(())
    }

    /// Write the provided value to every sample in the frames `start..start + count`.
    /// Can be used to clear a range of frames by writing zeroes,
    /// or to initialize each sample to a certain value.
    /// Returns `None`, and writes nothing, if the range does not fit in the buffer.
    fn fill_frames_with(&mut self, start: usize, count: usize, value: &T) -> (written: Option<
        usize,
    >)
        requires
            old(self).wf(),
        ensures
            final(self).wf(),
            final(self).spec_channels() == old(self).spec_channels(),
            final(self).spec_frames() == old(self).spec_frames(),
            forall|c: int, f: int, v: T|
                #![trigger final(self).spec_stored(c, f, v)]
                #![trigger old(self).spec_stored(c, f, v)]
                final(self).spec_stored(c, f, v) == old(self).spec_stored(c, f, v),
            forall|c: int, f: int, v: T|
                #![trigger final(self).spec_clips(c, f, v)]
                #![trigger old(self).spec_clips(c, f, v)]
                final(self).spec_clips(c, f, v) == old(self).spec_clips(c, f, v),
            written is Some <==> start + count <= old(self).spec_frames(),
            written is Some ==> written == Some(count),
            written is Some ==> forall|c: int, f: int|
                0 <= c < old(self).spec_channels() && start <= f < start + count ==> #[trigger] final(self).spec_sample(c, f)
                    == old(self).spec_stored(c, f, *value),
            forall|c: int, f: int|
                #![trigger final(self).spec_sample(c, f)]
                0 <= c < old(self).spec_channels() && 0 <= f < old(self).spec_frames() && !(written is Some && start <= f < start + count)
                    ==> final(self).spec_sample(c, f) == old(self).spec_sample(c, f),
    {
        if count > self.frames() || start > self.frames() - count {
            return None;
        }
        let channels = self.channels();
        let mut channel: usize = 0;
        while channel < channels
            invariant
                self.wf(),
                start + count <= old(self).spec_frames() <= usize::MAX,
                channels == old(self).spec_channels(),
                channel <= channels,
                self.spec_channels() == old(self).spec_channels(),
                self.spec_frames() == old(self).spec_frames(),
                forall|c: int, f: int, v: T|
                    #![trigger self.spec_stored(c, f, v)]
                    #![trigger old(self).spec_stored(c, f, v)]
                    self.spec_stored(c, f, v) == old(self).spec_stored(c, f, v),
                forall|c: int, f: int, v: T|
                    #![trigger self.spec_clips(c, f, v)]
                    #![trigger old(self).spec_clips(c, f, v)]
                    self.spec_clips(c, f, v) == old(self).spec_clips(c, f, v),
                forall|c: int, f: int|
                    0 <= c < channel && start <= f < start + count ==> #[trigger] self.spec_sample(c, f)
                        == old(self).spec_stored(c, f, *value),
                forall|c: int, f: int|
                    #![trigger self.spec_sample(c, f)]
                    0 <= c < old(self).spec_channels() && 0 <= f < old(self).spec_frames() && !(c < channel && start <= f < start + count)
                        ==> self.spec_sample(c, f) == old(self).spec_sample(c, f),
            decreases channels - channel,
        {
            let mut frame: usize = start;
            while frame < start + count
                invariant
                    self.wf(),
                    start + count <= old(self).spec_frames() <= usize::MAX,
                    channels == old(self).spec_channels(),
                    channel < channels,
                    start <= frame <= start + count,
                    self.spec_channels() == old(self).spec_channels(),
                    self.spec_frames() == old(self).spec_frames(),
                    forall|c: int, f: int, v: T|
                        #![trigger self.spec_stored(c, f, v)]
                        #![trigger old(self).spec_stored(c, f, v)]
                        self.spec_stored(c, f, v) == old(self).spec_stored(c, f, v),
                    forall|c: int, f: int, v: T|
                        #![trigger self.spec_clips(c, f, v)]
                        #![trigger old(self).spec_clips(c, f, v)]
                        self.spec_clips(c, f, v) == old(self).spec_clips(c, f, v),
                    forall|c: int, f: int|
                        ((0 <= c < channel && start <= f < start + count) || (c == channel && start
                            <= f < frame)) ==> #[trigger] self.spec_sample(c, f)
                            == old(self).spec_stored(c, f, *value),
                    forall|c: int, f: int|
                        #![trigger self.spec_sample(c, f)]
                        0 <= c < old(self).spec_channels() && 0 <= f < old(self).spec_frames() && !((c < channel && start <= f < start + count) || (c == channel && start <= f < frame))
                            ==> self.spec_sample(c, f) == old(self).spec_sample(c, f),
                decreases start + count - frame,
            {
                self.write_sample_unchecked(channel, frame, value);
                frame += 1;
            }
            channel += 1;
        }
        Some(count)
    }

    /// Write the provided value to every sample in the entire buffer.
    /// Can be used to clear a buffer by writing zeroes,
    /// or to initialize each sample to a certain value.
    fn fill_with(&mut self, value: &T)
        requires
            old(self).wf(),
        ensures
            final(self).wf(),
            final(self).spec_channels() == old(self).spec_channels(),
            final(self).spec_frames() == old(self).spec_frames(),
            forall|c: int, f: int, v: T|
                #![trigger final(self).spec_stored(c, f, v)]
                #![trigger old(self).spec_stored(c, f, v)]
                final(self).spec_stored(c, f, v) == old(self).spec_stored(c, f, v),
            forall|c: int, f: int, v: T|
                #![trigger final(self).spec_clips(c, f, v)]
                #![trigger old(self).spec_clips(c, f, v)]
                final(self).spec_clips(c, f, v) == old(self).spec_clips(c, f, v),
            forall|c: int, f: int|
                0 <= c < old(self).spec_channels() && 0 <= f < old(self).spec_frames() ==> #[trigger] final(self).spec_sample(c, f)
                    == old(self).spec_stored(c, f, *value),
    {
        let channels = self.channels();
        let mut channel: usize = 0;
        while channel < channels
            invariant
                self.wf(),
                channels == old(self).spec_channels(),
                channel <= channels,
                self.spec_channels() == old(self).spec_channels(),
                self.spec_frames() == old(self).spec_frames(),
                forall|c: int, f: int, v: T|
                    #![trigger self.spec_stored(c, f, v)]
                    #![trigger old(self).spec_stored(c, f, v)]
                    self.spec_stored(c, f, v) == old(self).spec_stored(c, f, v),
                forall|c: int, f: int, v: T|
                    #![trigger self.spec_clips(c, f, v)]
                    #![trigger old(self).spec_clips(c, f, v)]
                    self.spec_clips(c, f, v) == old(self).spec_clips(c, f, v),
                forall|c: int, f: int|
                    0 <= c < channel && 0 <= f < old(self).spec_frames() ==> #[trigger] self.spec_sample(c, f)
                        == old(self).spec_stored(c, f, *value),
            decreases channels - channel,
        {
            self.fill_channel_with(channel, value);
            channel += 1;
        }
    }

    /// Copy a single sample within the buffer,
    /// from the source to the target frame and channel.
    /// Returns `true` if the sample was copied, and `false` if not,
    /// which happens if the source or target frame or channel is out of bounds.
    /// Implementations may decline other copies too, and then change nothing.
    fn copy_sample_within(
        &mut self,
        source_channel: usize,
        source_frame: usize,
        target_channel: usize,
        target_frame: usize,
    ) -> (copied: bool)
        requires
            old(self).wf(),
        ensures
            final(self).wf(),
            final(self).spec_channels() == old(self).spec_channels(),
            final(self).spec_frames() == old(self).spec_frames(),
            forall|c: int, f: int, v: T|
                #![trigger final(self).spec_stored(c, f, v)]
                #![trigger old(self).spec_stored(c, f, v)]
                final(self).spec_stored(c, f, v) == old(self).spec_stored(c, f, v),
            forall|c: int, f: int, v: T|
                #![trigger final(self).spec_clips(c, f, v)]
                #![trigger old(self).spec_clips(c, f, v)]
                final(self).spec_clips(c, f, v) == old(self).spec_clips(c, f, v),
            copied ==> source_channel < old(self).spec_channels() && source_frame < old(self).spec_frames()
                && target_channel < old(self).spec_channels() && target_frame < old(self).spec_frames(),
            copied ==> final(self).spec_sample(target_channel as int, target_frame as int) == old(self).spec_stored(
                target_channel as int,
                target_frame as int,
                old(self).spec_sample(source_channel as int, source_frame as int),
            ),
            forall|c: int, f: int|
                #![trigger final(self).spec_sample(c, f)]
                0 <= c < old(self).spec_channels() && 0 <= f < old(self).spec_frames() && !(copied && c == target_channel && f == target_frame)
                    ==> final(self).spec_sample(c, f) == old(self).spec_sample(c, f),
        default_ensures
            copied <==> (source_channel < old(self).spec_channels() && source_frame
                < old(self).spec_frames() && target_channel < old(self).spec_channels() && target_frame
                < old(self).spec_frames()),
    {
        if let Some(value) = self.read_sample(source_channel, source_frame) {
            if self.write_sample(target_channel, target_frame, &value).is_some() {
                return true;
            }
        }
        false
    }

    /// Swap two samples in the buffer.
    /// Returns `true` if the samples were swapped, and `false` if not,
    /// which happens if the channel or frame of either sample is out of bounds.
    /// Implementations may decline other swaps too, and then change nothing.
    fn swap_samples(
        &mut self,
        channel_a: usize,
        frame_a: usize,
        channel_b: usize,
        frame_b: usize,
    ) -> (swapped: bool)
        requires
            old(self).wf(),
        ensures
            final(self).wf(),
            final(self).spec_channels() == old(self).spec_channels(),
            final(self).spec_frames() == old(self).spec_frames(),
            forall|c: int, f: int, v: T|
                #![trigger final(self).spec_stored(c, f, v)]
                #![trigger old(self).spec_stored(c, f, v)]
                final(self).spec_stored(c, f, v) == old(self).spec_stored(c, f, v),
            forall|c: int, f: int, v: T|
                #![trigger final(self).spec_clips(c, f, v)]
                #![trigger old(self).spec_clips(c, f, v)]
                final(self).spec_clips(c, f, v) == old(self).spec_clips(c, f, v),
            swapped ==> channel_a < old(self).spec_channels() && frame_a < old(self).spec_frames() && channel_b
                < old(self).spec_channels() && frame_b < old(self).spec_frames(),
            swapped ==> final(self).spec_sample(channel_a as int, frame_a as int) == old(self).spec_stored(
                channel_a as int,
                frame_a as int,
                old(self).spec_sample(channel_b as int, frame_b as int),
            ),
            swapped ==> final(self).spec_sample(channel_b as int, frame_b as int) == old(self).spec_stored(
                channel_b as int,
                frame_b as int,
                old(self).spec_sample(channel_a as int, frame_a as int),
            ),
            forall|c: int, f: int|
                #![trigger final(self).spec_sample(c, f)]
                0 <= c < old(self).spec_channels() && 0 <= f < old(self).spec_frames() && !(swapped && ((c == channel_a && f == frame_a) || (c == channel_b && f == frame_b)))
                    ==> final(self).spec_sample(c, f) == old(self).spec_sample(c, f),
        default_ensures
            swapped <==> (channel_a < old(self).spec_channels() && frame_a < old(self).spec_frames()
                && channel_b < old(self).spec_channels() && frame_b < old(self).spec_frames()),
    {
        if let Some(value_a) = self.read_sample(channel_a, frame_a) {
            if let Some(value_b) = self.read_sample(channel_b, frame_b) {
                self.write_sample_unchecked(channel_b, frame_b, &value_a);
                self.write_sample_unchecked(channel_a, frame_a, &value_b);
                return true;
            }
        }
        false
    }

    /// Copy frames within the buffer, for all channels.
    /// Copies `count` frames, from the range `src..src + count`,
    /// to the range `dest..dest + count`. The two ranges are allowed to overlap.
    /// Returns `None`, and copies nothing, if either range does not fit in the buffer.
    fn copy_frames_within(&mut self, src: usize, dest: usize, count: usize) -> (moved: Option<
        usize,
    >)
        requires
            old(self).wf(),
        ensures
            final(self).wf(),
            final(self).spec_channels() == old(self).spec_channels(),
            final(self).spec_frames() == old(self).spec_frames(),
            forall|c: int, f: int, v: T|
                #![trigger final(self).spec_stored(c, f, v)]
                #![trigger old(self).spec_stored(c, f, v)]
                final(self).spec_stored(c, f, v) == old(self).spec_stored(c, f, v),
            forall|c: int, f: int, v: T|
                #![trigger final(self).spec_clips(c, f, v)]
                #![trigger old(self).spec_clips(c, f, v)]
                final(self).spec_clips(c, f, v) == old(self).spec_clips(c, f, v),
            moved is Some <==> (src + count <= old(self).spec_frames() && dest + count
                <= old(self).spec_frames()),
            moved is Some ==> moved == Some(count),
            moved is Some && src != dest ==> forall|c: int, f: int|
                0 <= c < old(self).spec_channels() && dest <= f < dest + count ==> #[trigger] final(self).spec_sample(c, f)
                    == old(self).spec_stored(c, f, old(self).spec_sample(c, f - dest + src)),
            forall|c: int, f: int|
                #![trigger final(self).spec_sample(c, f)]
                0 <= c < old(self).spec_channels() && 0 <= f < old(self).spec_frames() && !(moved is Some && src != dest && dest <= f < dest + count)
                    ==> final(self).spec_sample(c, f) == old(self).spec_sample(c, f),
    {
        if count > self.frames() || src > self.frames() - count || dest > self.frames() - count {
            return None;
        }
        if count == 0 || src == dest {
            return Some(count);
        }
        let channels = self.channels();
        let mut channel: usize = 0;
        while channel < channels
            invariant
                self.wf(),
                src + count <= old(self).spec_frames() <= usize::MAX,
                dest + count <= old(self).spec_frames(),
                src != dest,
                channels == old(self).spec_channels(),
                channel <= channels,
                self.spec_channels() == old(self).spec_channels(),
                self.spec_frames() == old(self).spec_frames(),
                forall|c: int, f: int, v: T|
                    #![trigger self.spec_stored(c, f, v)]
                    #![trigger old(self).spec_stored(c, f, v)]
                    self.spec_stored(c, f, v) == old(self).spec_stored(c, f, v),
                forall|c: int, f: int, v: T|
                    #![trigger self.spec_clips(c, f, v)]
                    #![trigger old(self).spec_clips(c, f, v)]
                    self.spec_clips(c, f, v) == old(self).spec_clips(c, f, v),
                forall|c: int, f: int|
                    0 <= c < channel && dest <= f < dest + count ==> #[trigger] self.spec_sample(c, f)
                        == old(self).spec_stored(c, f, old(self).spec_sample(c, f - dest + src)),
                forall|c: int, f: int|
                    #![trigger self.spec_sample(c, f)]
                    0 <= c < old(self).spec_channels() && 0 <= f < old(self).spec_frames() && !(c < channel && dest <= f < dest + count)
                        ==> self.spec_sample(c, f) == old(self).spec_sample(c, f),
            decreases channels - channel,
        {
            if dest < src {
                let mut frame: usize = 0;
                while frame < count
                    invariant
                        self.wf(),
                        src + count <= old(self).spec_frames() <= usize::MAX,
                        dest + count <= old(self).spec_frames(),
                        dest < src,
                        channels == old(self).spec_channels(),
                        channel < channels,
                        frame <= count,
                        self.spec_channels() == old(self).spec_channels(),
                        self.spec_frames() == old(self).spec_frames(),
                        forall|c: int, f: int, v: T|
                            #![trigger self.spec_stored(c, f, v)]
                            #![trigger old(self).spec_stored(c, f, v)]
                            self.spec_stored(c, f, v) == old(self).spec_stored(c, f, v),
                        forall|c: int, f: int, v: T|
                            #![trigger self.spec_clips(c, f, v)]
                            #![trigger old(self).spec_clips(c, f, v)]
                            self.spec_clips(c, f, v) == old(self).spec_clips(c, f, v),
                        forall|c: int, f: int|
                            ((0 <= c < channel && dest <= f < dest + count) || (c == channel && dest
                                <= f < dest + frame)) ==> #[trigger] self.spec_sample(c, f)
                                == old(self).spec_stored(c, f, old(self).spec_sample(c, f - dest + src)),
                        forall|c: int, f: int|
                            #![trigger self.spec_sample(c, f)]
                            0 <= c < old(self).spec_channels() && 0 <= f < old(self).spec_frames() && !((c < channel && dest <= f < dest + count) || (c == channel && dest <= f < dest + frame))
                                ==> self.spec_sample(c, f) == old(self).spec_sample(c, f),
                    decreases count - frame,
                {
                    let value = self.read_sample_unchecked(channel, frame + src);
                    self.write_sample_unchecked(channel, frame + dest, &value);
                    frame += 1;
                }
            } else {
                let mut frame: usize = 0;
                while frame < count
                    invariant
                        self.wf(),
                        src + count <= old(self).spec_frames() <= usize::MAX,
                        dest + count <= old(self).spec_frames(),
                        src < dest,
                        channels == old(self).spec_channels(),
                        channel < channels,
                        frame <= count,
                        self.spec_channels() == old(self).spec_channels(),
                        self.spec_frames() == old(self).spec_frames(),
                        forall|c: int, f: int, v: T|
                            #![trigger self.spec_stored(c, f, v)]
                            #![trigger old(self).spec_stored(c, f, v)]
                            self.spec_stored(c, f, v) == old(self).spec_stored(c, f, v),
                        forall|c: int, f: int, v: T|
                            #![trigger self.spec_clips(c, f, v)]
                            #![trigger old(self).spec_clips(c, f, v)]
                            self.spec_clips(c, f, v) == old(self).spec_clips(c, f, v),
                        forall|c: int, f: int|
                            ((0 <= c < channel && dest <= f < dest + count) || (c == channel && dest
                                + count - frame <= f < dest + count)) ==> #[trigger] self.spec_sample(c, f)
                                == old(self).spec_stored(c, f, old(self).spec_sample(c, f - dest + src)),
                        forall|c: int, f: int|
                            #![trigger self.spec_sample(c, f)]
                            0 <= c < old(self).spec_channels() && 0 <= f < old(self).spec_frames() && !((c < channel && dest <= f < dest + count) || (c == channel && dest + count - frame <= f < dest + count))
                                ==> self.spec_sample(c, f) == old(self).spec_sample(c, f),
                    decreases count - frame,
                {
                    let backwards = count - frame - 1;
                    let value = self.read_sample_unchecked(channel, backwards + src);
                    self.write_sample_unchecked(channel, backwards + dest, &value);
                    frame += 1;
                }
            }
            channel += 1;
        }
        Some(count)
    }

    /// Copy `take` frames from another adapter with the same number of channels,
    /// for all channels. The `other_skip` and `self_skip` arguments are the frames
    /// where copying starts in the two buffers.
    ///
    /// Returns the number of values that were clipped during conversion, saturated
    /// at `usize::MAX`. If the channel counts differ, or if either buffer is too short
    /// to copy `take` frames, nothing is copied and `None` is returned.
    fn copy_from_other(
        &mut self,
        other: &dyn Adapter<T>,
        other_skip: usize,
        self_skip: usize,
        take: usize,
    ) -> (clipped: Option<usize>)
        requires
            old(self).wf(),
            other.wf(),
        ensures
            final(self).wf(),
            final(self).spec_channels() == old(self).spec_channels(),
            final(self).spec_frames() == old(self).spec_frames(),
            forall|c: int, f: int, v: T|
                #![trigger final(self).spec_stored(c, f, v)]
                #![trigger old(self).spec_stored(c, f, v)]
                final(self).spec_stored(c, f, v) == old(self).spec_stored(c, f, v),
            forall|c: int, f: int, v: T|
                #![trigger final(self).spec_clips(c, f, v)]
                #![trigger old(self).spec_clips(c, f, v)]
                final(self).spec_clips(c, f, v) == old(self).spec_clips(c, f, v),
            clipped is Some <==> (other.spec_channels() == old(self).spec_channels() && self_skip + take
                <= old(self).spec_frames() && other_skip + take <= other.spec_frames()),
            clipped is Some ==> clipped == Some(
                saturated(
                    sum_nat(
                        old(self).spec_channels() as int,
                        |c: int|
                            count_true(
                                take as int,
                                |j: int|
                                    old(self).spec_clips(c, self_skip + j, other.spec_sample(c, other_skip + j)),
                            ),
                    ),
                ) as usize,
            ),
            clipped is Some ==> forall|c: int, f: int|
                0 <= c < old(self).spec_channels() && self_skip <= f < self_skip + take ==> #[trigger] final(self).spec_sample(c, f)
                    == old(self).spec_stored(c, f, other.spec_sample(c, f - self_skip + other_skip)),
            forall|c: int, f: int|
                #![trigger final(self).spec_sample(c, f)]
                0 <= c < old(self).spec_channels() && 0 <= f < old(self).spec_frames() && !(clipped is Some && self_skip <= f < self_skip + take)
                    ==> final(self).spec_sample(c, f) == old(self).spec_sample(c, f),
    {
        if other.channels() != self.channels() || take > self.frames() || self_skip > self.frames()
            - take || take > other.frames() || other_skip > other.frames() - take {
            return None;
        }
        let channels = self.channels();
        let mut clipped: usize = 0;
        let mut channel: usize = 0;
        while channel < channels
            invariant
                self.wf(),
                other.wf(),
                channels == old(self).spec_channels(),
                other.spec_channels() == channels,
                self_skip + take <= old(self).spec_frames() <= usize::MAX,
                other_skip + take <= other.spec_frames() <= usize::MAX,
                channel <= channels,
                self.spec_channels() == old(self).spec_channels(),
                self.spec_frames() == old(self).spec_frames(),
                forall|c: int, f: int, v: T|
                    #![trigger self.spec_stored(c, f, v)]
                    #![trigger old(self).spec_stored(c, f, v)]
                    self.spec_stored(c, f, v) == old(self).spec_stored(c, f, v),
                forall|c: int, f: int, v: T|
                    #![trigger self.spec_clips(c, f, v)]
                    #![trigger old(self).spec_clips(c, f, v)]
                    self.spec_clips(c, f, v) == old(self).spec_clips(c, f, v),
                clipped == saturated(
                    sum_nat(
                        channel as int,
                        |c: int|
                            count_true(
                                take as int,
                                |j: int|
                                    old(self).spec_clips(c, self_skip + j, other.spec_sample(c, other_skip + j)),
                            ),
                    ),
                ),
                forall|c: int, f: int|
                    0 <= c < channel && self_skip <= f < self_skip + take ==> #[trigger] self.spec_sample(c, f)
                        == old(self).spec_stored(c, f, other.spec_sample(c, f - self_skip + other_skip)),
                forall|c: int, f: int|
                    #![trigger self.spec_sample(c, f)]
                    0 <= c < old(self).spec_channels() && 0 <= f < old(self).spec_frames() && !(c < channel && self_skip <= f < self_skip + take)
                        ==> self.spec_sample(c, f) == old(self).spec_sample(c, f),
            decreases channels - channel,
        {
            let ghost before = clipped;
            let mut frame: usize = 0;
            while frame < take
                invariant
                    self.wf(),
                    other.wf(),
                    channels == old(self).spec_channels(),
                    other.spec_channels() == channels,
                    self_skip + take <= old(self).spec_frames() <= usize::MAX,
                    other_skip + take <= other.spec_frames() <= usize::MAX,
                    channel < channels,
                    frame <= take,
                    before == saturated(
                        sum_nat(
                            channel as int,
                            |c: int|
                                count_true(
                                    take as int,
                                    |j: int|
                                        old(self).spec_clips(c, self_skip + j, other.spec_sample(c, other_skip + j)),
                                ),
                        ),
                    ),
                    clipped == saturated(
                        sum_nat(
                            channel as int,
                            |c: int|
                                count_true(
                                    take as int,
                                    |j: int|
                                        old(self).spec_clips(c, self_skip + j, other.spec_sample(c, other_skip + j)),
                                ),
                        ) + count_true(
                            frame as int,
                            |j: int|
                                old(self).spec_clips(channel as int, self_skip + j, other.spec_sample(channel as int, other_skip + j)),
                        ),
                    ),
                    self.spec_channels() == old(self).spec_channels(),
                    self.spec_frames() == old(self).spec_frames(),
                    forall|c: int, f: int, v: T|
                        #![trigger self.spec_stored(c, f, v)]
                        #![trigger old(self).spec_stored(c, f, v)]
                        self.spec_stored(c, f, v) == old(self).spec_stored(c, f, v),
                    forall|c: int, f: int, v: T|
                        #![trigger self.spec_clips(c, f, v)]
                        #![trigger old(self).spec_clips(c, f, v)]
                        self.spec_clips(c, f, v) == old(self).spec_clips(c, f, v),
                    forall|c: int, f: int|
                        ((0 <= c < channel && self_skip <= f < self_skip + take) || (c == channel
                            && self_skip <= f < self_skip + frame)) ==> #[trigger] self.spec_sample(c, f)
                            == old(self).spec_stored(c, f, other.spec_sample(c, f - self_skip + other_skip)),
                    forall|c: int, f: int|
                        #![trigger self.spec_sample(c, f)]
                        0 <= c < old(self).spec_channels() && 0 <= f < old(self).spec_frames() && !((c < channel && self_skip <= f < self_skip + take) || (c == channel && self_skip <= f < self_skip + frame))
                            ==> self.spec_sample(c, f) == old(self).spec_sample(c, f),
                decreases take - frame,
            {
                let value = other.read_sample_unchecked(channel, frame + other_skip);
                let c = self.write_sample_unchecked(channel, frame + self_skip, &value);
                if c && clipped < usize::MAX {
                    clipped += 1;
                }
                frame += 1;
            }
            channel += 1;
        }
        Some(clipped)
    }
}

} // verus!

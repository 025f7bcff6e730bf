//! A dummy adapter, that returns a constant value on read and discards data on write.
use vstd::prelude::*;

use crate::traits::{Adapter, AdapterMut};

verus! {

/// A dummy adapter that returns a constant value on read,
/// and discards any data written to it.
pub struct Dummy<U> {
    default: U,
    frames: usize,
    channels: usize,
}

impl<T: Copy> Dummy<T> {
    /// The value that every read returns.
    pub closed spec fn spec_value(&self) -> T {
        self.default
    }

    /// Create a new `Dummy` that always returns `value` on read.
    pub fn new(value: T, channels: usize, frames: usize) -> (r: Self)
        ensures
            r.wf(),
            r.spec_channels() == channels,
            r.spec_frames() == frames,
            r.spec_value() == value,
            forall|c: int, f: int| #[trigger] r.spec_sample(c, f) == value,
    {
        Self { default: value, frames, channels }
    }
}

impl<T: Copy> Adapter<T> for Dummy<T> {
    closed spec fn wf(&self) -> bool {
        true
    }

    closed spec fn spec_channels(&self) -> nat {
        self.channels as nat
    }

    closed spec fn spec_frames(&self) -> nat {
        self.frames as nat
    }

    closed spec fn spec_sample(&self, channel: int, frame: int) -> T {
        self.default
    }

    fn read_sample_unchecked(&self, channel: usize, frame: usize) -> (value: T) {
        self.default
    }

    fn channels(&self) -> (n: usize) {
        self.channels
    }

    fn frames(&self) -> (n: usize) {
        self.frames
    }
}

impl<T: Copy> AdapterMut<T> for Dummy<T> {
    /// Writes are discarded, so a position keeps reading the constant value.
    closed spec fn spec_stored(&self, channel: int, frame: int, value: T) -> T {
        self.default
    }

    open spec fn spec_clips(&self, channel: int, frame: int, value: T) -> bool {
        false
    }

    fn write_sample_unchecked(&mut self, channel: usize, frame: usize, value: &T) -> (clipped:
        bool) {
        false
    }
}

/// A `Dummy` reads its constant value everywhere, whatever was written to it,
/// and no write clips.
pub proof fn law_dummy_discards_writes<T: Copy>(dummy: &Dummy<T>, channel: int, frame: int, value: T)
    ensures
        dummy.spec_sample(channel, frame) == dummy.spec_value(),
        dummy.spec_stored(channel, frame, value) == dummy.spec_value(),
        !dummy.spec_clips(channel, frame, value),
{
}

} // verus!

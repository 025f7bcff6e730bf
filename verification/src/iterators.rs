//! Read-only iteration through the channels and frames of an [Adapter].
//!
//! Each iterator offers a `next` method that yields the following item, or `None`
//! once it is exhausted. The model of an iterator is the sequence of items that it
//! still has to yield.
use vstd::prelude::*;

use core::marker::PhantomData;

use crate::traits::Adapter;

verus! {

/// The samples of one channel of `buffer`, from frame `start` to `end`.
pub open spec fn channel_run<T: Copy, A: Adapter<T> + ?Sized>(buffer: &A, channel: int, start: int, end: int) -> Seq<
    T,
> {
    Seq::new((end - start) as nat, |i: int| buffer.spec_sample(channel, start + i))
}

/// The samples of one frame of `buffer`, from channel `start` to `end`.
pub open spec fn frame_run<T: Copy, A: Adapter<T> + ?Sized>(buffer: &A, frame: int, start: int, end: int) -> Seq<
    T,
> {
    Seq::new((end - start) as nat, |i: int| buffer.spec_sample(start + i, frame))
}

/// A trait providing convenient iteration through frames and/or channels
/// of an [Adapter].
pub trait AdapterIterators<T: Copy>: Adapter<T> {
    /// Get an iterator that yields the sample values of the specified channel,
    /// or `None` if there is no such channel.
    fn iter_channel(&self, channel: usize) -> (it: Option<ChannelSamples<'_, T, Self>>)
        requires
            self.wf(),
        ensures
            it is Some <==> channel < self.spec_channels(),
            it matches Some(s) ==> s.spec_remaining() == channel_run(
                self,
                channel as int,
                0,
                self.spec_frames() as int,
            ),
    ;

    /// Get an iterator that yields iterators for the channels.
    fn iter_channels(&self) -> (it: Channels<'_, T, Self>)
        requires
            self.wf(),
        ensures
            it.spec_remaining() == Seq::new(
                self.spec_channels(),
                |c: int| channel_run(self, c, 0, self.spec_frames() as int),
            ),
    ;

    /// Get an iterator that yields the sample values of the specified frame,
    /// or `None` if there is no such frame.
    fn iter_frame(&self, frame: usize) -> (it: Option<FrameSamples<'_, T, Self>>)
        requires
            self.wf(),
        ensures
            it is Some <==> frame < self.spec_frames(),
            it matches Some(s) ==> s.spec_remaining() == frame_run(
                self,
                frame as int,
                0,
                self.spec_channels() as int,
            ),
    ;

    /// Get an iterator that yields iterators for the frames.
    fn iter_frames(&self) -> (it: Frames<'_, T, Self>)
        requires
            self.wf(),
        ensures
            it.spec_remaining() == Seq::new(
                self.spec_frames(),
                |f: int| frame_run(self, f, 0, self.spec_channels() as int),
            ),
    ;
}

impl<T: Copy, U: Adapter<T>> AdapterIterators<T> for U {
    fn iter_channel(&self, channel: usize) -> (it: Option<ChannelSamples<'_, T, Self>>) {
        ChannelSamples::new(self, channel)
    }

    fn iter_channels(&self) -> (it: Channels<'_, T, Self>) {
        Channels::new(self)
    }

    fn iter_frame(&self, frame: usize) -> (it: Option<FrameSamples<'_, T, Self>>) {
        FrameSamples::new(self, frame)
    }

    fn iter_frames(&self) -> (it: Frames<'_, T, Self>) {
        Frames::new(self)
    }
}

/// An iterator that yields the sample values of a channel.
#[verifier::reject_recursive_types(T)]
pub struct ChannelSamples<'b, T: Copy, A: Adapter<T> + ?Sized + 'b = dyn Adapter<T> + 'b> {
    buf: &'b A,
    sample_type: PhantomData<T>,
    frame: usize,
    nbr_frames: usize,
    channel: usize,
}

impl<'b, T: Copy, A: Adapter<T> + ?Sized + 'b> ChannelSamples<'b, T, A> {
    #[verifier::type_invariant]
    spec fn inv(self) -> bool {
        &&& self.buf.wf()
        &&& self.nbr_frames == self.buf.spec_frames()
        &&& self.channel < self.buf.spec_channels()
        &&& self.frame <= self.nbr_frames
    }

    /// The samples that the iterator has yet to yield.
    pub closed spec fn spec_remaining(&self) -> Seq<T> {
        channel_run(self.buf, self.channel as int, self.frame as int, self.nbr_frames as int)
    }

    /// Create an iterator over the samples of a channel,
    /// or `None` if there is no such channel.
    pub fn new(buffer: &'b A, channel: usize) -> (it: Option<ChannelSamples<'b, T, A>>)
        requires
            buffer.wf(),
        ensures
            it is Some <==> channel < buffer.spec_channels(),
            it matches Some(s) ==> s.spec_remaining() == channel_run(
                buffer,
                channel as int,
                0,
                buffer.spec_frames() as int,
            ),
    {
        if channel >= buffer.channels() {
            return None;
        }
        let nbr_frames = buffer.frames();
        Some(ChannelSamples { buf: buffer, sample_type: PhantomData, frame: 0, nbr_frames, channel })
    }

    /// Yield the next sample, or `None` when all have been yielded.
    pub fn next(&mut self) -> (item: Option<T>)
        ensures
            old(self).spec_remaining().len() == 0 ==> (item is None) && final(self).spec_remaining() == old(self).spec_remaining(),
            old(self).spec_remaining().len() > 0 ==> item == Some(old(self).spec_remaining()[0])
                && final(self).spec_remaining() == old(self).spec_remaining().drop_first(),
    {
        proof {
            use_type_invariant(&*self);
        }
        if self.frame >= self.nbr_frames {
            return None;
        }
        let val = self.buf.read_sample_unchecked(self.channel, self.frame);
        self.frame += 1;
        Some(val)
    }
}

/// An iterator that yields the sample values of a frame.
#[verifier::reject_recursive_types(T)]
pub struct FrameSamples<'b, T: Copy, A: Adapter<T> + ?Sized + 'b = dyn Adapter<T> + 'b> {
    buf: &'b A,
    sample_type: PhantomData<T>,
    frame: usize,
    nbr_channels: usize,
    channel: usize,
}

impl<'b, T: Copy, A: Adapter<T> + ?Sized + 'b> FrameSamples<'b, T, A> {
    #[verifier::type_invariant]
    spec fn inv(self) -> bool {
        &&& self.buf.wf()
        &&& self.nbr_channels == self.buf.spec_channels()
        &&& self.frame < self.buf.spec_frames()
        &&& self.channel <= self.nbr_channels
    }

    /// The samples that the iterator has yet to yield.
    pub closed spec fn spec_remaining(&self) -> Seq<T> {
        frame_run(self.buf, self.frame as int, self.channel as int, self.nbr_channels as int)
    }

    /// Create an iterator over the samples of a frame,
    /// or `None` if there is no such frame.
    pub fn new(buffer: &'b A, frame: usize) -> (it: Option<FrameSamples<'b, T, A>>)
        requires
            buffer.wf(),
        ensures
            it is Some <==> frame < buffer.spec_frames(),
            it matches Some(s) ==> s.spec_remaining() == frame_run(
                buffer,
                frame as int,
                0,
                buffer.spec_channels() as int,
            ),
    {
        if frame >= buffer.frames() {
            return None;
        }
        let nbr_channels = buffer.channels();
        Some(FrameSamples { buf: buffer, sample_type: PhantomData, channel: 0, nbr_channels, frame })
    }

    /// Yield the next sample, or `None` when all have been yielded.
    pub fn next(&mut self) -> (item: Option<T>)
        ensures
            old(self).spec_remaining().len() == 0 ==> (item is None) && final(self).spec_remaining() == old(self).spec_remaining(),
            old(self).spec_remaining().len() > 0 ==> item == Some(old(self).spec_remaining()[0])
                && final(self).spec_remaining() == old(self).spec_remaining().drop_first(),
    {
        proof {
            use_type_invariant(&*self);
        }
        if self.channel >= self.nbr_channels {
            return None;
        }
        let val = self.buf.read_sample_unchecked(self.channel, self.frame);
        self.channel += 1;
        Some(val)
    }
}

/// An iterator that yields a [ChannelSamples] iterator for each channel of an [Adapter].
#[verifier::reject_recursive_types(T)]
pub struct Channels<'b, T: Copy, A: Adapter<T> + ?Sized + 'b = dyn Adapter<T> + 'b> {
    buf: &'b A,
    sample_type: PhantomData<T>,
    nbr_channels: usize,
    channel: usize,
}

impl<'b, T: Copy, A: Adapter<T> + ?Sized + 'b> Channels<'b, T, A> {
    #[verifier::type_invariant]
    spec fn inv(self) -> bool {
        &&& self.buf.wf()
        &&& self.nbr_channels == self.buf.spec_channels()
        &&& self.channel <= self.nbr_channels
    }

    /// The sample sequences of the channels that the iterator has yet to yield.
    pub closed spec fn spec_remaining(&self) -> Seq<Seq<T>> {
        Seq::new(
            (self.nbr_channels - self.channel) as nat,
            |k: int|
                channel_run(
                    self.buf,
                    self.channel + k,
                    0,
                    self.buf.spec_frames() as int,
                ),
        )
    }

    /// Create an iterator over the channels of a buffer.
    pub fn new(buffer: &'b A) -> (it: Channels<'b, T, A>)
        requires
            buffer.wf(),
        ensures
            it.spec_remaining() == Seq::new(
                buffer.spec_channels(),
                |c: int| channel_run(buffer, c, 0, buffer.spec_frames() as int),
            ),
    {
        let nbr_channels = buffer.channels();
        Channels { buf: buffer, sample_type: PhantomData, channel: 0, nbr_channels }
    }

    /// Yield an iterator over the next channel, or `None` when all have been yielded.
    pub fn next(&mut self) -> (item: Option<ChannelSamples<'b, T, A>>)
        ensures
            old(self).spec_remaining().len() == 0 ==> (item is None) && final(self).spec_remaining() == old(self).spec_remaining(),
            old(self).spec_remaining().len() > 0 ==> (item is Some) && item->0.spec_remaining()
                == old(self).spec_remaining()[0] && final(self).spec_remaining() == old(self).spec_remaining().drop_first(),
    {
        proof {
            use_type_invariant(&*self);
        }
        if self.channel >= self.nbr_channels {
            return None;
        }
        let val = ChannelSamples::new(self.buf, self.channel);
        self.channel += 1;
        val
    }
}

/// An iterator that yields a [FrameSamples] iterator for each frame of an [Adapter].
#[verifier::reject_recursive_types(T)]
pub struct Frames<'b, T: Copy, A: Adapter<T> + ?Sized + 'b = dyn Adapter<T> + 'b> {
    buf: &'b A,
    sample_type: PhantomData<T>,
    nbr_frames: usize,
    frame: usize,
}

impl<'b, T: Copy, A: Adapter<T> + ?Sized + 'b> Frames<'b, T, A> {
    #[verifier::type_invariant]
    spec fn inv(self) -> bool {
        &&& self.buf.wf()
        &&& self.nbr_frames == self.buf.spec_frames()
        &&& self.frame <= self.nbr_frames
    }

    /// The sample sequences of the frames that the iterator has yet to yield.
    pub closed spec fn spec_remaining(&self) -> Seq<Seq<T>> {
        Seq::new(
            (self.nbr_frames - self.frame) as nat,
            |k: int| frame_run(self.buf, self.frame + k, 0, self.buf.spec_channels() as int),
        )
    }

    /// Create an iterator over the frames of a buffer.
    pub fn new(buffer: &'b A) -> (it: Frames<'b, T, A>)
        requires
            buffer.wf(),
        ensures
            it.spec_remaining() == Seq::new(
                buffer.spec_frames(),
                |f: int| frame_run(buffer, f, 0, buffer.spec_channels() as int),
            ),
    {
        let nbr_frames = buffer.frames();
        Frames { buf: buffer, sample_type: PhantomData, frame: 0, nbr_frames }
    }

    /// Yield an iterator over the next frame, or `None` when all have been yielded.
    pub fn next(&mut self) -> (item: Option<FrameSamples<'b, T, A>>)
        ensures
            old(self).spec_remaining().len() == 0 ==> (item is None) && final(self).spec_remaining() == old(self).spec_remaining(),
            old(self).spec_remaining().len() > 0 ==> (item is Some) && item->0.spec_remaining()
                == old(self).spec_remaining()[0] && final(self).spec_remaining() == old(self).spec_remaining().drop_first(),
    {
        proof {
            use_type_invariant(&*self);
        }
        if self.frame >= self.nbr_frames {
            return None;
        }
        let val = FrameSamples::new(self.buf, self.frame);
        self.frame += 1;
        val
    }
}

} // verus!

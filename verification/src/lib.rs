//! Traits and wrappers for reading and writing audio samples stored in
//! buffers of different layouts and sample formats.
//!
//! A buffer is a grid of samples addressed by channel and frame. The traits
//! [Adapter] and [AdapterMut] give access to the grid, whatever the layout of the
//! storage behind it: interleaved (frame by frame) or sequential (channel by channel),
//! flat or nested, borrowed or owned.
//!
//! Samples stored as raw bytes are read and written as numbers through the
//! formats of [sample] and the byte buffers of [bytes].
use vstd::prelude::*;

pub mod traits;
pub mod slicetools;
pub mod direct;
pub mod owned;
pub mod dummy;
pub mod iterators;
pub mod utils;
pub mod sample;
pub mod rawbytes;
pub mod bytes;
pub mod laws;

pub use traits::{Adapter, AdapterMut};
pub use iterators::AdapterIterators;

verus! {

/// Error returned when the wrapped data structure has the wrong dimensions,
/// typically that it is too short.
#[derive(Debug, Clone, Copy, PartialEq, Eq)]
pub enum SizeError {
    /// The outer container in a sequential nested layout has too few channel buffers.
    ChannelsContainer { actual: usize, required: usize },
    /// The outer container in an interleaved nested layout has too few frame buffers.
    FramesContainer { actual: usize, required: usize },
    /// An inner channel buffer is too short for the requested frame count.
    /// `index` identifies which channel buffer failed the length check.
    ChannelBuffer { index: usize, actual: usize, required: usize },
    /// An inner frame buffer is too short for the requested channel count.
    /// `index` identifies which frame buffer failed the length check.
    FrameBuffer { index: usize, actual: usize, required: usize },
    /// A flat sample buffer is too short for the requested dimensions.
    /// `actual` is the length of the buffer and `required` the number of elements
    /// that the dimensions need, saturated at `usize::MAX`.
    Total { actual: usize, required: usize },
    /// A channel-activity mask does not have one entry per channel.
    Mask { actual: usize, required: usize },
}

/// `n`, or `usize::MAX` where `n` is larger.
pub open spec fn saturating(n: int) -> usize {
    if n <= usize::MAX {
        n as usize
    } else {
        usize::MAX
    }
}

/// Check that a flat buffer of `len` elements holds `channels * frames` samples
/// of `per_sample` elements each.
pub(crate) fn check_total(len: usize, channels: usize, frames: usize, per_sample: usize) -> (r:
    Result<(), SizeError>)
    ensures
        r is Ok <==> channels * frames * per_sample <= len,
        r is Err ==> r == Err::<(), SizeError>(
            SizeError::Total { actual: len, required: saturating(channels * frames * per_sample) },
        ),
{
    if channels == 0 || frames == 0 || per_sample == 0 {
        proof {
            assert(channels * frames * per_sample == 0) by (nonlinear_arith)
                requires
                    channels == 0 || frames == 0 || per_sample == 0,
            ;
        }
        return Ok(());
    }
    let samples = frames.checked_mul(channels);
    let required = match samples {
        Some(s) => s.checked_mul(per_sample),
        None => None,
    };
    proof {
        assert(channels * frames == frames * channels) by (nonlinear_arith);
    }
    match required {
        Some(required) => {
            if len < required {
                Err(SizeError::Total { actual: len, required })
            } else {
                Ok(())
            }
        },
        None => {
            proof {
                if samples is None {
                    assert(frames * channels * per_sample >= frames * channels) by (nonlinear_arith)
                        requires
                            per_sample >= 1,
                            frames * channels >= 0,
                    ;
                }
            }
            Err(SizeError::Total { actual: len, required: usize::MAX })
        },
    }
}

} // verus!

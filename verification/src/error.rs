//! Why a frame or a sprite cannot be encoded.

use vstd::prelude::*;

verus! {

/// Why one frame cannot be encoded.
#[derive(Clone, Copy, Debug, PartialEq, Eq, Structural)]
pub enum FrameError {
    /// The pixels of a channel are missing, or they do not make up the
    /// rectangle that the frame declares.
    Decode,
    /// A dimension, a run or a row is too long for its field in the format.
    Overflow,
}

/// Why a sprite cannot be encoded.
#[derive(Clone, Copy, Debug, PartialEq, Eq, Structural)]
pub enum EncodeError {
    /// The declared number of frames is not the number of frame descriptors.
    FrameCountMismatch,
    /// The pixels of the frame at this position are missing, or they do not
    /// make up the rectangle that the frame declares.
    Decode { frame: usize },
    /// The frame at this position holds a dimension, a run, a row or an
    /// offset that is too long for its field in the format.
    EncodingOverflow { frame: usize },
}

impl FrameError {
    /// The same failure, told of the frame at position `frame`.
    pub open spec fn at(self, frame: usize) -> EncodeError {
        match self {
            FrameError::Decode => EncodeError::Decode { frame },
            FrameError::Overflow => EncodeError::EncodingOverflow { frame },
        }
    }

    /// The same failure, told of the frame at position `frame`.
    pub fn at_frame(self, frame: usize) -> (e: EncodeError)
        ensures
            e == self.at(frame),
    {
        match self {
            FrameError::Decode => EncodeError::Decode { frame },
            FrameError::Overflow => EncodeError::EncodingOverflow { frame },
        }
    }
}

} // verus!

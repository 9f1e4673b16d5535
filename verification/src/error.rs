//! Configuration errors, all detected before any pixel is computed.

use vstd::prelude::*;

verus! {

/// Why a request for an image was rejected.
#[derive(Clone, Copy, Debug, PartialEq, Eq, Structural)]
pub enum ConfigError {
    /// The color list is empty, so there is no band to paint.
    NoColors,
    /// The requested width is zero.
    ZeroWidth,
    /// The requested height is zero.
    ZeroHeight,
    /// There are more colors than pixels along the striped axis, so a band
    /// would be zero pixels wide.
    TooManyColors,
    /// A color text is not three decimal numbers separated by colons.
    MalformedColor,
    /// A color text has the right shape but a channel exceeds 255.
    ChannelOutOfRange,
    /// The number of escape counts differs from the number of pixels.
    EscapeCountMismatch,
}

} // verus!

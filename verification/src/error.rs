//! What can go wrong on the link, one type for each layer.

use vstd::prelude::*;

verus! {

/// An output buffer could not take what had to be written into it.
#[derive(Clone, Copy, Debug, PartialEq, Eq, Structural)]
pub enum EncodeError {
    /// The buffer is shorter than the bytes to be written.
    BufferTooSmall,
}

/// A byte string does not begin with an encoded value.
#[derive(Clone, Copy, Debug, PartialEq, Eq, Structural)]
pub enum DecodeError {
    /// The bytes end before the value does.
    Truncated,
    /// The leading tag names no variant.
    UnknownDiscriminant,
    /// A field holds a byte that stands for no value of its type.
    MalformedField,
}

/// The checksum that came with a payload is not the checksum of that payload.
#[derive(Clone, Copy, Debug, PartialEq, Eq, Structural)]
pub enum IntegrityError {
    /// The stored and the recomputed checksum differ, or no checksum is present.
    ChecksumMismatch,
}

/// A received frame is not the byte-stuffed form of any payload.
#[derive(Clone, Copy, Debug, PartialEq, Eq, Structural)]
pub enum FrameError {
    /// A run inside the frame claims more bytes than the buffer holds.
    Malformed,
}

/// The channel itself failed while a reply was awaited.
#[derive(Clone, Copy, Debug, PartialEq, Eq, Structural)]
pub enum IoError {
    /// No byte arrived within the read timeout.
    Timeout,
    /// The channel reported a failure of its own.
    ChannelError,
}

/// A byte was offered to a queue that was already full.
#[derive(Clone, Copy, Debug, PartialEq, Eq, Structural)]
pub struct QueueOverflow;

/// Why a received frame was discarded: the layer that refused it and its reason.
#[derive(Clone, Copy, Debug, PartialEq, Eq, Structural)]
pub enum LinkError {
    /// The frame could not be unstuffed.
    Frame(FrameError),
    /// The payload failed its checksum.
    Integrity(IntegrityError),
    /// The payload passed its checksum but holds no value.
    Decode(DecodeError),
}

} // verus!

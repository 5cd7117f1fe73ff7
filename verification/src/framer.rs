//! Frames: payloads made safe for a byte stream.
//!
//! A frame is the byte-stuffed (COBS) form of a payload. The byte `0x00`
//! occurs in it exactly once, as its last byte, so that a receiver finds the
//! end of a frame without knowing anything of its content.

use vstd::prelude::*;
use crate::error::{EncodeError, FrameError};

verus! {

/// The byte that ends every frame and occurs nowhere else in one.
pub const TERMINATOR: u8 = 0;

/// The longest frame that a payload of `n` bytes can need: one byte for each
/// run of up to 254 payload bytes, and the terminator.
pub open spec fn max_frame_len(n: nat) -> nat {
    if n == 0 {
        2
    } else {
        n + (n + 253) / 254 + 1
    }
}

/// Whether `frame` ends in the terminator and holds it nowhere else.
pub open spec fn delimited(frame: Seq<u8>) -> bool {
    &&& frame.len() >= 1
    &&& frame.last() == TERMINATOR
    &&& forall|i: int| 0 <= i < frame.len() - 1 ==> frame[i] != TERMINATOR
}

/// The frame that `corncobs` makes of `payload`, terminator included.
pub uninterp spec fn cobs_frame(payload: Seq<u8>) -> Seq<u8>;

/// What `corncobs` decodes from the start of `bytes`: the payload, or nothing
/// where it reports an error.
pub uninterp spec fn cobs_payload(bytes: Seq<u8>) -> Option<Seq<u8>>;

#[verifier::external_type_specification]
#[verifier::external_body]
pub struct ExCobsError(corncobs::CobsError);

/// `corncobs::encode_buf`.
///
/// It needs `out` to have room for the longest frame that the payload's length
/// allows and does not return otherwise. It writes the frame at the start of
/// `out`, leaves the rest of `out` alone and returns the frame's length. The
/// frame is within that bound, ends in a zero byte and holds no other.
#[verifier::external_body]
fn cobs_encode(payload: &[u8], out: &mut [u8]) -> (n: usize)
    requires
        max_frame_len(payload@.len()) <= old(out)@.len(),
    ensures
        n == cobs_frame(payload@).len(),
        n <= max_frame_len(payload@.len()),
        final(out)@ == cobs_frame(payload@) + old(out)@.skip(n as int),
        delimited(final(out)@.take(n as int)),
{
    corncobs::encode_buf(payload, out)
}

/// `corncobs::decode_in_place`.
///
/// It returns on every input. On success the payload stands at the start of
/// `bytes` and its length is returned; the length of `bytes` never changes.
/// Whatever follows a frame in `bytes` is not looked at: a buffer that begins
/// with the frame of a payload decodes to that payload.
#[verifier::external_body]
fn cobs_decode(bytes: &mut [u8]) -> (r: Result<usize, corncobs::CobsError>)
    ensures
        final(bytes)@.len() == old(bytes)@.len(),
        r is Ok <==> cobs_payload(old(bytes)@) is Some,
        r matches Ok(n) ==> n <= old(bytes)@.len() && cobs_payload(old(bytes)@) == Some(
            final(bytes)@.take(n as int),
        ),
        forall|p: Seq<u8>| #[trigger]
            cobs_frame(p).is_prefix_of(old(bytes)@) ==> cobs_payload(old(bytes)@) == Some(p),
{
    corncobs::decode_in_place(bytes)
}

/// Whether a buffer of `cap` bytes has room for any frame of a payload of `n`
/// bytes.
pub fn frame_fits(n: usize, cap: usize) -> (fits: bool)
    ensures
        fits <==> max_frame_len(n as nat) <= cap,
{
    if n == 0 {
        cap >= 2
    } else if cap < 2 || n > cap - 2 {
        false
    } else {
        (n - 1) / 254 + 1 <= cap - 1 - n
    }
}

/// The longest frame that a payload of `n` bytes can need, where a `usize`
/// can hold that number.
pub fn frame_len_bound(n: usize) -> (r: Option<usize>)
    ensures
        r is Some <==> max_frame_len(n as nat) <= usize::MAX,
        r matches Some(m) ==> m == max_frame_len(n as nat),
{
    if n == 0 {
        return Some(2);
    }
    let overhead: usize = (n - 1) / 254 + 2;
    if n > usize::MAX - overhead {
        None
    } else {
        Some(n + overhead)
    }
}

/// Writes the frame of `payload` at the start of `out` and returns its length.
///
/// The buffer must have room for the longest frame that a payload of this
/// length can need; one that has not is refused and left as it was.
pub fn frame_encode(payload: &[u8], out: &mut [u8]) -> (r: Result<usize, EncodeError>)
    ensures
        r is Ok <==> max_frame_len(payload@.len()) <= old(out)@.len(),
        r matches Ok(n) ==> {
            &&& n == cobs_frame(payload@).len()
            &&& n <= max_frame_len(payload@.len())
            &&& delimited(cobs_frame(payload@))
            &&& final(out)@ == cobs_frame(payload@) + old(out)@.skip(n as int)
            &&& cobs_frame(payload@).is_prefix_of(final(out)@)
        },
        r is Err ==> final(out)@ == old(out)@,
{
    if !frame_fits(payload.len(), out.len()) {
        return Err(EncodeError::BufferTooSmall);
    }
    let n = cobs_encode(payload, out);
    assert(out@.take(n as int) =~= cobs_frame(payload@));
    Ok(n)
}

/// Decodes the frame at the start of `buf` in place and returns the length of
/// its payload, which then stands at the start of `buf`.
///
/// A buffer that begins with the frame of a payload always decodes to that
/// payload, whatever follows the frame.
pub fn frame_decode(buf: &mut [u8]) -> (r: Result<usize, FrameError>)
    ensures
        final(buf)@.len() == old(buf)@.len(),
        r is Ok <==> cobs_payload(old(buf)@) is Some,
        r matches Ok(n) ==> n <= old(buf)@.len() && cobs_payload(old(buf)@) == Some(
            final(buf)@.take(n as int),
        ),
        forall|p: Seq<u8>| #[trigger]
            cobs_frame(p).is_prefix_of(old(buf)@) ==> cobs_payload(old(buf)@) == Some(p),
{
    match cobs_decode(buf) {
        Ok(n) => Ok(n),
        Err(_) => Err(FrameError::Malformed),
    }
}

} // verus!

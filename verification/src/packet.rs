//! Packets: a value, sealed and framed, ready for the line.
//!
//! Sending encodes the value, appends the checksum of the encoding and frames
//! the two together. Receiving undoes the three steps in the opposite order
//! and stops at the first that fails.

use vstd::prelude::*;
use crate::codec::{Wire, REQUEST_MAX_LEN, RESPONSE_MAX_LEN};
use crate::error::{EncodeError, FrameError, IntegrityError, LinkError};
use crate::framer::{cobs_frame, cobs_payload, delimited, frame_decode, frame_encode, max_frame_len};
use crate::integrity::{
    append_checksum, body, intact, lemma_sealed_intact, sealed, verify_and_strip,
};

verus! {

/// Room for the frame of any sealed request.
pub const REQUEST_FRAME_LEN: usize = 10;

/// Room for the frame of any sealed response.
pub const RESPONSE_FRAME_LEN: usize = 38;

/// The frame that carries `v`.
pub open spec fn packed<T: Wire>(v: T) -> Seq<u8> {
    cobs_frame(sealed(v.wire()))
}

/// The value that the sealed payload `bytes` carries, or the layer that
/// refuses it.
pub open spec fn unsealed<T: Wire>(bytes: Seq<u8>) -> Result<T, LinkError> {
    if !intact(bytes) {
        Err(LinkError::Integrity(IntegrityError::ChecksumMismatch))
    } else {
        match T::parse(body(bytes)) {
            Ok(v) => Ok(v),
            Err(e) => Err(LinkError::Decode(e)),
        }
    }
}

/// The value that the frame at the start of `bytes` carries, or the layer
/// that refuses it.
pub open spec fn unpacked<T: Wire>(bytes: Seq<u8>) -> Result<T, LinkError> {
    match cobs_payload(bytes) {
        Some(payload) => unsealed::<T>(payload),
        None => Err(LinkError::Frame(FrameError::Malformed)),
    }
}

/// The two frame sizes above are the bounds for the largest request and the
/// largest response.
pub proof fn lemma_frame_lens()
    ensures
        REQUEST_FRAME_LEN == max_frame_len((REQUEST_MAX_LEN + 4) as nat),
        RESPONSE_FRAME_LEN == max_frame_len((RESPONSE_MAX_LEN + 4) as nat),
{
}

/// A buffer with room for the largest value of a type has room for each.
pub proof fn lemma_frame_len_bound<T: Wire>(v: T)
    ensures
        max_frame_len(v.wire().len() + 4) <= max_frame_len(T::max_len() + 4),
{
    v.lemma_wire_len();
}

/// Writes the frame that carries `t` at the start of `out_buf` and returns
/// its length; the rest of `out_buf` keeps what it held.
///
/// The buffer must have room for the longest frame that a sealed payload of
/// this length can need; one that has not is refused and left as it was.
pub fn serialize_crc_cobs<T: Wire, const N: usize>(t: &T, out_buf: &mut [u8; N]) -> (r: Result<
    usize,
    EncodeError,
>)
    ensures
        r is Ok <==> max_frame_len(t.wire().len() + 4) <= N,
        r matches Ok(n) ==> {
            &&& n == packed(*t).len()
            &&& n <= max_frame_len(t.wire().len() + 4)
            &&& delimited(packed(*t))
            &&& final(out_buf)@ == packed(*t) + old(out_buf)@.skip(n as int)
            &&& packed(*t).is_prefix_of(final(out_buf)@)
        },
        r is Err ==> final(out_buf)@ == old(out_buf)@,
{
    let mut scratch = [0u8;N];
    let n = match t.encode(&mut scratch) {
        Ok(n) => n,
        Err(e) => {
            return Err(e);
        },
    };
    assert(scratch@.take(n as int) =~= t.wire());
    let m = match append_checksum(&mut scratch, n) {
        Ok(m) => m,
        Err(e) => {
            return Err(e);
        },
    };
    assert(scratch@.take(m as int) =~= sealed(t.wire())) by {
        lemma_sealed_intact(t.wire());
    }
    frame_encode(&scratch[0..m], out_buf)
}

/// Reads the value that the sealed payload `payload` carries.
pub fn read_sealed<T: Wire>(payload: &[u8]) -> (r: Result<T, LinkError>)
    ensures
        r == unsealed::<T>(payload@),
{
    let n = match verify_and_strip(payload) {
        Ok(n) => n,
        Err(e) => {
            return Err(LinkError::Integrity(e));
        },
    };
    match T::decode(&payload[0..n]) {
        Ok((v, _)) => Ok(v),
        Err(e) => Err(LinkError::Decode(e)),
    }
}

/// Reads the value that the frame at the start of `in_buf` carries. The frame
/// is decoded in place, so `in_buf` does not keep it.
///
/// A buffer that begins with the frame of a value always yields that value,
/// whatever follows the frame.
pub fn deserialize_crc_cobs<T: Wire>(in_buf: &mut [u8]) -> (r: Result<T, LinkError>)
    ensures
        final(in_buf)@.len() == old(in_buf)@.len(),
        r == unpacked::<T>(old(in_buf)@),
        forall|v: T| #[trigger]
            packed(v).is_prefix_of(old(in_buf)@) ==> r == Ok::<T, LinkError>(v),
{
    let n = match frame_decode(in_buf) {
        Ok(n) => n,
        Err(e) => {
            return Err(LinkError::Frame(e));
        },
    };
    let r = read_sealed::<T>(&in_buf[0..n]);
    proof {
        assert forall|v: T| #[trigger]
            packed(v).is_prefix_of(old(in_buf)@) implies r == Ok::<T, LinkError>(v) by {
            let p = sealed(v.wire());
            assert(cobs_frame(p).is_prefix_of(old(in_buf)@));
            assert(in_buf@.subrange(0, n as int) == p);
            lemma_sealed_intact(v.wire());
            v.lemma_parse_wire(Seq::empty());
            assert(v.wire() + Seq::<u8>::empty() =~= v.wire());
        }
    }
    r
}

} // verus!

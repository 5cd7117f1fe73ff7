//! The checksum that travels behind every payload.
//!
//! A payload is sealed by appending the CRC-32/CKSUM of its bytes as a
//! little-endian word. A receiver recomputes the checksum over all but the
//! last four bytes and compares.

use vstd::prelude::*;
use crate::bytes::{
    le_bytes, le_value, lemma_le_bytes_of_value, lemma_le_value_of_bytes, read_u32, write_u32,
};
use crate::error::{EncodeError, IntegrityError};

verus! {

/// The number of bytes that the checksum adds to a payload.
pub const CHECKSUM_LEN: usize = 4;

/// The CRC-32/CKSUM of `bytes`, as the `crc` crate computes it.
pub uninterp spec fn crc32_cksum(bytes: Seq<u8>) -> u32;

/// `crc::Crc::<u32>::checksum` with the catalogue's `CRC_32_CKSUM` parameters.
///
/// The result depends on the bytes alone; nothing else is claimed of it.
#[verifier::external_body]
fn cksum(bytes: &[u8]) -> (sum: u32)
    ensures
        sum == crc32_cksum(bytes@),
{
    crc::Crc::<u32>::new(&crc::CRC_32_CKSUM).checksum(bytes)
}

/// `payload` followed by the word `sum`.
pub open spec fn sealed_with(payload: Seq<u8>, sum: u32) -> Seq<u8> {
    payload + le_bytes(sum)
}

/// `payload` followed by its checksum.
pub open spec fn sealed(payload: Seq<u8>) -> Seq<u8> {
    sealed_with(payload, crc32_cksum(payload))
}

/// The bytes in front of the trailing word of `bytes`.
pub open spec fn body(bytes: Seq<u8>) -> Seq<u8>
    recommends
        bytes.len() >= 4,
{
    bytes.take(bytes.len() - 4)
}

/// Whether `bytes` ends in the word `sum`.
pub open spec fn ends_with(bytes: Seq<u8>, sum: u32) -> bool {
    bytes.len() >= 4 && le_value(bytes.skip(bytes.len() - 4)) == sum
}

/// Whether `bytes` is some payload followed by that payload's checksum.
pub open spec fn intact(bytes: Seq<u8>) -> bool {
    ends_with(bytes, crc32_cksum(body(bytes)))
}

/// Stores the word `sum` behind the first `n` bytes of `buf` and returns the
/// new length, `n + 4`. A buffer without room for it is left as it was.
pub fn put_checksum(buf: &mut [u8], n: usize, sum: u32) -> (r: Result<usize, EncodeError>)
    ensures
        r is Ok <==> n + 4 <= old(buf)@.len(),
        r matches Ok(m) ==> m == n + 4 && final(buf)@ == sealed_with(old(buf)@.take(n as int), sum)
            + old(buf)@.skip(n + 4),
        r is Err ==> final(buf)@ == old(buf)@,
{
    if n > buf.len() || buf.len() - n < 4 || !write_u32(buf, n, sum) {
        return Err(EncodeError::BufferTooSmall);
    }
    Ok(n + 4)
}

/// Seals the payload `buf[0..n]`: stores its checksum at `buf[n..n + 4]` and
/// returns the new length, `n + 4`. A buffer without room for the checksum is
/// left as it was.
pub fn append_checksum(buf: &mut [u8], n: usize) -> (r: Result<usize, EncodeError>)
    ensures
        r is Ok <==> n + 4 <= old(buf)@.len(),
        r matches Ok(m) ==> m == n + 4 && final(buf)@ == sealed(old(buf)@.take(n as int)) + old(
            buf,
        )@.skip(n + 4),
        r is Err ==> final(buf)@ == old(buf)@,
{
    if n > buf.len() || buf.len() - n < 4 {
        return Err(EncodeError::BufferTooSmall);
    }
    let sum = cksum(&buf[0..n]);
    put_checksum(buf, n, sum)
}

/// Compares the trailing word of `buf` with `sum` and returns the length of
/// what stands in front of it.
pub fn strip_checksum(buf: &[u8], sum: u32) -> (r: Result<usize, IntegrityError>)
    ensures
        r is Ok <==> ends_with(buf@, sum),
        r matches Ok(n) ==> n + 4 == buf@.len(),
{
    let len = buf.len();
    if len < 4 {
        return Err(IntegrityError::ChecksumMismatch);
    }
    assert(buf@.subrange(len - 4, len - 4 + 4) =~= buf@.skip(len - 4));
    match read_u32(buf, len - 4) {
        Some(stored) if stored == sum => Ok(len - 4),
        _ => Err(IntegrityError::ChecksumMismatch),
    }
}

/// Checks that `buf` is a payload followed by that payload's checksum and
/// returns the payload's length. Anything else, a buffer too short to hold a
/// checksum included, is a mismatch.
pub fn verify_and_strip(buf: &[u8]) -> (r: Result<usize, IntegrityError>)
    ensures
        r is Ok <==> intact(buf@),
        r matches Ok(n) ==> n + 4 == buf@.len(),
{
    let len = buf.len();
    if len < 4 {
        return Err(IntegrityError::ChecksumMismatch);
    }
    let sum = cksum(&buf[0..len - 4]);
    strip_checksum(buf, sum)
}

/// A sealed payload is intact, and what is in front of its checksum is the
/// payload.
pub proof fn lemma_sealed_intact(payload: Seq<u8>)
    ensures
        sealed(payload).len() == payload.len() + 4,
        body(sealed(payload)) == payload,
        intact(sealed(payload)),
{
    let s = sealed(payload);
    let sum = crc32_cksum(payload);
    lemma_le_value_of_bytes(sum);
    assert(body(s) =~= payload);
    assert(s.skip(s.len() - 4) =~= le_bytes(sum));
}

/// What is intact is the sealed form of what stands in front of its checksum.
pub proof fn lemma_intact_sealed(bytes: Seq<u8>)
    requires
        intact(bytes),
    ensures
        bytes == sealed(body(bytes)),
{
    lemma_le_bytes_of_value(bytes.skip(bytes.len() - 4));
    assert(bytes =~= sealed(body(bytes)));
}

/// A payload followed by four bytes that are not its checksum is not intact:
/// no change that stays within the checksum goes unnoticed.
pub proof fn lemma_wrong_checksum_noticed(payload: Seq<u8>, tail: Seq<u8>)
    requires
        tail.len() == 4,
        tail != le_bytes(crc32_cksum(payload)),
    ensures
        !intact(payload + tail),
{
    let bytes = payload + tail;
    assert(body(bytes) =~= payload);
    assert(bytes.skip(bytes.len() - 4) =~= tail);
    lemma_le_bytes_of_value(tail);
}

/// Changing one byte of a sealed payload is noticed wherever the change
/// falls in the checksum, and wherever it falls in the payload unless the
/// changed payload has the checksum of the unchanged one.
pub proof fn lemma_single_byte_corruption(payload: Seq<u8>, i: int, b: u8)
    requires
        0 <= i < payload.len() + 4,
        b != sealed(payload)[i],
    ensures
        intact(sealed(payload).update(i, b)) <==> i < payload.len() && crc32_cksum(
            payload.update(i, b),
        ) == crc32_cksum(payload),
{
    let n = payload.len() as int;
    let s = sealed(payload);
    let t = s.update(i, b);
    let sum = crc32_cksum(payload);
    lemma_le_value_of_bytes(sum);
    if i < n {
        assert(body(t) =~= payload.update(i, b));
        assert(t.skip(n) =~= le_bytes(sum));
    } else {
        assert(body(t) =~= payload);
        let tail = t.skip(n);
        assert(tail =~= le_bytes(sum).update(i - n, b));
        if le_value(tail) == sum {
            lemma_le_bytes_of_value(tail);
            assert(tail[i - n] == le_bytes(sum)[i - n]);
        }
    }
}

} // verus!

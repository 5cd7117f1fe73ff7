//! Little-endian 32-bit words in byte buffers.
//!
//! Every multi-byte field on the wire, the checksum included, is a 32-bit word
//! stored least significant byte first.

use vstd::prelude::*;

verus! {

/// The four bytes of `v`, least significant first.
#[verifier::opaque]
pub open spec fn le_bytes(v: u32) -> Seq<u8> {
    seq![
        (v % 256) as u8,
        ((v / 256) % 256) as u8,
        ((v / 65536) % 256) as u8,
        (v / 16777216) as u8,
    ]
}

/// The word whose four bytes, least significant first, are `b[0..4]`.
#[verifier::opaque]
pub open spec fn le_value(b: Seq<u8>) -> u32
    recommends
        b.len() == 4,
{
    (b[0] + 256 * b[1] + 65536 * b[2] + 16777216 * b[3]) as u32
}

/// A word has four bytes.
pub proof fn lemma_le_bytes_len(v: u32)
    ensures
        le_bytes(v).len() == 4,
{
    reveal(le_bytes);
}

/// Reading back the bytes of a word gives the word.
pub proof fn lemma_le_value_of_bytes(v: u32)
    ensures
        le_bytes(v).len() == 4,
        le_value(le_bytes(v)) == v,
{
    reveal(le_bytes);
    reveal(le_value);
}

/// Writing `piece` behind the `written` bytes at the start of a buffer that
/// otherwise still holds `initial` leaves `written + piece` at its start
/// and the rest of `initial` behind them.
pub proof fn lemma_write_behind(
    before: Seq<u8>,
    written: Seq<u8>,
    initial: Seq<u8>,
    piece: Seq<u8>,
)
    requires
        written.len() + piece.len() <= initial.len(),
        before == written + initial.skip(written.len() as int),
    ensures
        before.take(written.len() as int) + piece + before.skip(
            (written.len() + piece.len()) as int,
        ) == (written + piece) + initial.skip((written.len() + piece.len()) as int),
{
    let k = written.len() as int;
    let m = piece.len() as int;
    assert(before.take(k) =~= written);
    assert(before.skip(k + m) =~= initial.skip(k + m));
}

/// Four bytes are the bytes of the word they read as: two different byte
/// strings never read as the same word.
pub proof fn lemma_le_bytes_of_value(b: Seq<u8>)
    requires
        b.len() == 4,
    ensures
        le_bytes(le_value(b)) == b,
{
    reveal(le_bytes);
    reveal(le_value);
    let v: int = b[0] + 256 * b[1] + 65536 * b[2] + 16777216 * b[3];
    assert(0 <= v <= u32::MAX);
    assert(v % 256 == b[0]);
    assert((v / 256) % 256 == b[1]);
    assert((v / 65536) % 256 == b[2]);
    assert(v / 16777216 == b[3]);
    assert(le_bytes(le_value(b)) =~= b);
}

#[verifier::external_type_specification]
#[verifier::external_body]
pub struct ExMarshalError(ssmarshal::Error);

/// `ssmarshal::serialize` at type `u32`, on the part of `buf` from `at` on.
///
/// With four bytes of room the call succeeds, reports four bytes used and
/// stores `v` least significant byte first; the rest of `buf` is untouched.
/// With less room it would not return in a debug build, so that is ruled out.
#[verifier::external_body]
fn marshal_u32(buf: &mut [u8], at: usize, v: u32) -> (r: Result<usize, ssmarshal::Error>)
    requires
        at + 4 <= old(buf)@.len(),
    ensures
        r is Ok,
        r->Ok_0 == 4,
        final(buf)@ == old(buf)@.take(at as int) + le_bytes(v) + old(buf)@.skip(at + 4),
{
    ssmarshal::serialize(&mut buf[at..], &v)
}

/// `ssmarshal::deserialize` at type `u32`, on the part of `buf` from `at` on.
///
/// With four bytes to read the call succeeds, reports four bytes used and
/// returns the word that they hold, least significant byte first. With fewer
/// it would not return in a debug build, so that is ruled out.
#[verifier::external_body]
fn unmarshal_u32(buf: &[u8], at: usize) -> (r: Result<(u32, usize), ssmarshal::Error>)
    requires
        at + 4 <= buf@.len(),
    ensures
        r is Ok,
        r->Ok_0.0 == le_value(buf@.subrange(at as int, at + 4)),
        r->Ok_0.1 == 4,
{
    ssmarshal::deserialize::<u32>(&buf[at..])
}

/// Stores `v` at `buf[at..at + 4]`, least significant byte first, if it fits.
///
/// Returns whether it did; a buffer that is too short is left as it was.
pub fn write_u32(buf: &mut [u8], at: usize, v: u32) -> (done: bool)
    ensures
        done <==> at + 4 <= old(buf)@.len(),
        done ==> final(buf)@ == old(buf)@.take(at as int) + le_bytes(v) + old(buf)@.skip(at + 4),
        !done ==> final(buf)@ == old(buf)@,
{
    if at > buf.len() || buf.len() - at < 4 {
        return false;
    }
    match marshal_u32(buf, at, v) {
        Ok(_) => true,
        Err(_) => false,
    }
}

/// Reads the word stored at `buf[at..at + 4]`, least significant byte first,
/// or nothing where the buffer ends before `at + 4`.
pub fn read_u32(buf: &[u8], at: usize) -> (r: Option<u32>)
    ensures
        r is Some <==> at + 4 <= buf@.len(),
        r matches Some(v) ==> v == le_value(buf@.subrange(at as int, at + 4)),
{
    if at > buf.len() || buf.len() - at < 4 {
        return None;
    }
    match unmarshal_u32(buf, at) {
        Ok((v, _)) => Some(v),
        Err(_) => None,
    }
}

} // verus!

//! The wire schema: how a value becomes bytes and bytes a value.
//!
//! A value is one tag byte, numbering the variants from zero in the order of
//! their declaration, followed by the variant's fields in the order of their
//! declaration. A field that is itself one of a few named values is one byte,
//! numbered the same way; a 32-bit field is four bytes, least significant
//! first. No field has a length prefix, so every variant has one fixed size.

use vstd::prelude::*;
use crate::bytes::{
    le_bytes, le_value, lemma_le_bytes_len, lemma_le_bytes_of_value, lemma_le_value_of_bytes,
    lemma_write_behind, read_u32, write_u32,
};
use crate::error::{DecodeError, EncodeError};
use crate::wire::{EvState, Relay, Request, Response};

verus! {

/// The generation of the schema that this crate speaks. It is not sent: both
/// ends of a link are built for the same generation.
pub const SCHEMA_VERSION: u8 = 2;

/// The size in bytes of the largest encoded [`Request`].
pub const REQUEST_MAX_LEN: usize = 4;

/// The size in bytes of the largest encoded [`Response`].
pub const RESPONSE_MAX_LEN: usize = 32;

/// A value with a place in the wire schema.
pub trait Wire: Sized {
    /// The bytes that stand for this value.
    spec fn wire(&self) -> Seq<u8>;

    /// The value that `bytes` begins with, or why it begins with none.
    spec fn parse(bytes: Seq<u8>) -> Result<Self, DecodeError>;

    /// The size of the largest encoding of any value of this type.
    spec fn max_len() -> nat;

    /// No value needs more bytes than the type's bound, and none needs fewer
    /// than its tag.
    proof fn lemma_wire_len(&self)
        ensures
            1 <= self.wire().len() <= Self::max_len(),
    ;

    /// Decoding what was encoded gives the value back, whatever follows it in
    /// the buffer.
    proof fn lemma_parse_wire(&self, rest: Seq<u8>)
        ensures
            Self::parse(self.wire() + rest) == Ok::<Self, DecodeError>(*self),
    ;

    /// A byte string that decodes to a value begins with that value's
    /// encoding: no value has two encodings.
    proof fn lemma_wire_parse(bytes: Seq<u8>)
        ensures
            Self::parse(bytes) matches Ok(v) ==> v.wire().is_prefix_of(bytes),
    ;

    /// Writes the encoding of `self` at the start of `buf` and returns its
    /// length. A buffer that is too short is left as it was.
    fn encode(&self, buf: &mut [u8]) -> (r: Result<usize, EncodeError>)
        ensures
            r is Ok <==> self.wire().len() <= old(buf)@.len(),
            r matches Ok(n) ==> n == self.wire().len() && final(buf)@ == self.wire() + old(
                buf,
            )@.skip(n as int),
            r is Err ==> final(buf)@ == old(buf)@,
    ;

    /// Reads the value at the start of `buf` and returns it with the number of
    /// bytes that it took.
    fn decode(buf: &[u8]) -> (r: Result<(Self, usize), DecodeError>)
        ensures
            match r {
                Ok((v, n)) => Self::parse(buf@) == Ok::<Self, DecodeError>(v) && n
                    == v.wire().len(),
                Err(e) => Self::parse(buf@) == Err::<Self, DecodeError>(e),
            },
    ;
}

/// Round trip: what encoding writes for a value decodes to that value.
pub proof fn lemma_round_trip<T: Wire>(v: T)
    ensures
        T::parse(v.wire()) == Ok::<T, DecodeError>(v),
{
    v.lemma_parse_wire(Seq::empty());
    assert(v.wire() + Seq::<u8>::empty() =~= v.wire());
}

impl Wire for Request {
    open spec fn wire(&self) -> Seq<u8> {
        match *self {
            Request::Update { dev_id, pwm_hi_percentage, relay } => seq![
                0u8,
                dev_id,
                pwm_hi_percentage,
                relay.spec_tag(),
            ],
            Request::Get { dev_id } => seq![1u8, dev_id],
        }
    }

    open spec fn parse(bytes: Seq<u8>) -> Result<Self, DecodeError> {
        if bytes.len() < 1 {
            Err(DecodeError::Truncated)
        } else if bytes[0] == 0 {
            if bytes.len() < 4 {
                Err(DecodeError::Truncated)
            } else {
                match Relay::spec_from_tag(bytes[3]) {
                    Some(relay) => Ok(
                        Request::Update { dev_id: bytes[1], pwm_hi_percentage: bytes[2], relay },
                    ),
                    None => Err(DecodeError::MalformedField),
                }
            }
        } else if bytes[0] == 1 {
            if bytes.len() < 2 {
                Err(DecodeError::Truncated)
            } else {
                Ok(Request::Get { dev_id: bytes[1] })
            }
        } else {
            Err(DecodeError::UnknownDiscriminant)
        }
    }

    open spec fn max_len() -> nat {
        REQUEST_MAX_LEN as nat
    }

    proof fn lemma_wire_len(&self) {
    }

    proof fn lemma_parse_wire(&self, rest: Seq<u8>) {
    }

    proof fn lemma_wire_parse(bytes: Seq<u8>) {
    }

    fn encode(&self, buf: &mut [u8]) -> (r: Result<usize, EncodeError>) {
        match *self {
            Request::Update { dev_id, pwm_hi_percentage, relay } => {
                if buf.len() < 4 {
                    return Err(EncodeError::BufferTooSmall);
                }
                buf[0] = 0;
                buf[1] = dev_id;
                buf[2] = pwm_hi_percentage;
                buf[3] = relay.tag();
                assert(buf@ =~= self.wire() + old(buf)@.skip(4));
                Ok(4)
            },
            Request::Get { dev_id } => {
                if buf.len() < 2 {
                    return Err(EncodeError::BufferTooSmall);
                }
                buf[0] = 1;
                buf[1] = dev_id;
                assert(buf@ =~= self.wire() + old(buf)@.skip(2));
                Ok(2)
            },
        }
    }

    fn decode(buf: &[u8]) -> (r: Result<(Self, usize), DecodeError>) {
        if buf.len() < 1 {
            return Err(DecodeError::Truncated);
        }
        match buf[0] {
            0 => {
                if buf.len() < 4 {
                    return Err(DecodeError::Truncated);
                }
                match Relay::from_tag(buf[3]) {
                    Some(relay) => Ok(
                        (Request::Update { dev_id: buf[1], pwm_hi_percentage: buf[2], relay }, 4),
                    ),
                    None => Err(DecodeError::MalformedField),
                }
            },
            1 => {
                if buf.len() < 2 {
                    return Err(DecodeError::Truncated);
                }
                Ok((Request::Get { dev_id: buf[1] }, 2))
            },
            _ => Err(DecodeError::UnknownDiscriminant),
        }
    }
}

/// Where each field of a status response stands in its encoding.
proof fn lemma_status_layout(response: Response)
    requires
        response is Status,
    ensures
        response.wire().len() == 32,
        response.wire()[0] == 0,
        response.wire()[1] == response->ev_state.spec_tag(),
        response.wire().subrange(2, 6) == le_bytes(response->pwm_hi_val),
        response.wire().subrange(6, 10) == le_bytes(response->pwm_lo_val),
        response.wire()[10] == response->pwm_hi_percentage,
        response.wire()[11] == response->relay.spec_tag(),
        response.wire().subrange(12, 16) == le_bytes(response->rcd_value),
        response.wire().subrange(16, 20) == le_bytes(response->current),
        response.wire().subrange(20, 24) == le_bytes(response->voltages),
        response.wire().subrange(24, 28) == le_bytes(response->energy),
        response.wire().subrange(28, 32) == le_bytes(response->billing_energy),
{
    let w = response.wire();
    lemma_le_bytes_len(response->pwm_hi_val);
    lemma_le_bytes_len(response->pwm_lo_val);
    lemma_le_bytes_len(response->rcd_value);
    lemma_le_bytes_len(response->current);
    lemma_le_bytes_len(response->voltages);
    lemma_le_bytes_len(response->energy);
    lemma_le_bytes_len(response->billing_energy);
    assert(w.subrange(2, 6) =~= le_bytes(response->pwm_hi_val));
    assert(w.subrange(6, 10) =~= le_bytes(response->pwm_lo_val));
    assert(w.subrange(12, 16) =~= le_bytes(response->rcd_value));
    assert(w.subrange(16, 20) =~= le_bytes(response->current));
    assert(w.subrange(20, 24) =~= le_bytes(response->voltages));
    assert(w.subrange(24, 28) =~= le_bytes(response->energy));
    assert(w.subrange(28, 32) =~= le_bytes(response->billing_energy));
}

impl Wire for Response {
    open spec fn wire(&self) -> Seq<u8> {
        match *self {
            Response::Status {
                ev_state,
                pwm_hi_val,
                pwm_lo_val,
                pwm_hi_percentage,
                relay,
                rcd_value,
                current,
                voltages,
                energy,
                billing_energy,
            } => seq![0u8, ev_state.spec_tag()] + le_bytes(pwm_hi_val) + le_bytes(pwm_lo_val)
                + seq![pwm_hi_percentage, relay.spec_tag()] + le_bytes(rcd_value) + le_bytes(
                current,
            ) + le_bytes(voltages) + le_bytes(energy) + le_bytes(billing_energy),
            Response::SetOk => seq![1u8],
        }
    }

    open spec fn parse(bytes: Seq<u8>) -> Result<Self, DecodeError> {
        if bytes.len() < 1 {
            Err(DecodeError::Truncated)
        } else if bytes[0] == 0 {
            if bytes.len() < 32 {
                Err(DecodeError::Truncated)
            } else {
                match (EvState::spec_from_tag(bytes[1]), Relay::spec_from_tag(bytes[11])) {
                    (Some(ev_state), Some(relay)) => Ok(
                        Response::Status {
                            ev_state,
                            pwm_hi_val: le_value(bytes.subrange(2, 6)),
                            pwm_lo_val: le_value(bytes.subrange(6, 10)),
                            pwm_hi_percentage: bytes[10],
                            relay,
                            rcd_value: le_value(bytes.subrange(12, 16)),
                            current: le_value(bytes.subrange(16, 20)),
                            voltages: le_value(bytes.subrange(20, 24)),
                            energy: le_value(bytes.subrange(24, 28)),
                            billing_energy: le_value(bytes.subrange(28, 32)),
                        },
                    ),
                    _ => Err(DecodeError::MalformedField),
                }
            }
        } else if bytes[0] == 1 {
            Ok(Response::SetOk)
        } else {
            Err(DecodeError::UnknownDiscriminant)
        }
    }

    open spec fn max_len() -> nat {
        RESPONSE_MAX_LEN as nat
    }

    proof fn lemma_wire_len(&self) {
        if *self is Status {
            lemma_status_layout(*self);
        }
    }

    proof fn lemma_parse_wire(&self, rest: Seq<u8>) {
        let w = self.wire();
        let bytes = w + rest;
        if let Response::Status {
            pwm_hi_val,
            pwm_lo_val,
            rcd_value,
            current,
            voltages,
            energy,
            billing_energy,
            ..
        } = *self {
            lemma_status_layout(*self);
            assert(bytes.subrange(2, 6) =~= w.subrange(2, 6));
            assert(bytes.subrange(6, 10) =~= w.subrange(6, 10));
            assert(bytes.subrange(12, 16) =~= w.subrange(12, 16));
            assert(bytes.subrange(16, 20) =~= w.subrange(16, 20));
            assert(bytes.subrange(20, 24) =~= w.subrange(20, 24));
            assert(bytes.subrange(24, 28) =~= w.subrange(24, 28));
            assert(bytes.subrange(28, 32) =~= w.subrange(28, 32));
            lemma_le_value_of_bytes(pwm_hi_val);
            lemma_le_value_of_bytes(pwm_lo_val);
            lemma_le_value_of_bytes(rcd_value);
            lemma_le_value_of_bytes(current);
            lemma_le_value_of_bytes(voltages);
            lemma_le_value_of_bytes(energy);
            lemma_le_value_of_bytes(billing_energy);
        }
    }

    proof fn lemma_wire_parse(bytes: Seq<u8>) {
        if let Ok(v) = Self::parse(bytes) {
            if v is Status {
                lemma_status_layout(v);
                lemma_le_bytes_of_value(bytes.subrange(2, 6));
                lemma_le_bytes_of_value(bytes.subrange(6, 10));
                lemma_le_bytes_of_value(bytes.subrange(12, 16));
                lemma_le_bytes_of_value(bytes.subrange(16, 20));
                lemma_le_bytes_of_value(bytes.subrange(20, 24));
                lemma_le_bytes_of_value(bytes.subrange(24, 28));
                lemma_le_bytes_of_value(bytes.subrange(28, 32));
                let w = v.wire();
                assert forall|i: int| 0 <= i < 32 implies w[i] == bytes[i] by {
                    if 2 <= i < 6 {
                        assert(w[i] == w.subrange(2, 6)[i - 2]);
                        assert(bytes[i] == bytes.subrange(2, 6)[i - 2]);
                    } else if 6 <= i < 10 {
                        assert(w[i] == w.subrange(6, 10)[i - 6]);
                        assert(bytes[i] == bytes.subrange(6, 10)[i - 6]);
                    } else if 12 <= i < 16 {
                        assert(w[i] == w.subrange(12, 16)[i - 12]);
                        assert(bytes[i] == bytes.subrange(12, 16)[i - 12]);
                    } else if 16 <= i < 20 {
                        assert(w[i] == w.subrange(16, 20)[i - 16]);
                        assert(bytes[i] == bytes.subrange(16, 20)[i - 16]);
                    } else if 20 <= i < 24 {
                        assert(w[i] == w.subrange(20, 24)[i - 20]);
                        assert(bytes[i] == bytes.subrange(20, 24)[i - 20]);
                    } else if 24 <= i < 28 {
                        assert(w[i] == w.subrange(24, 28)[i - 24]);
                        assert(bytes[i] == bytes.subrange(24, 28)[i - 24]);
                    } else if 28 <= i < 32 {
                        assert(w[i] == w.subrange(28, 32)[i - 28]);
                        assert(bytes[i] == bytes.subrange(28, 32)[i - 28]);
                    }
                }
                assert(w =~= bytes.subrange(0, 32));
            }
        }
    }

    fn encode(&self, buf: &mut [u8]) -> (r: Result<usize, EncodeError>) {
        match *self {
            Response::Status {
                ev_state,
                pwm_hi_val,
                pwm_lo_val,
                pwm_hi_percentage,
                relay,
                rcd_value,
                current,
                voltages,
                energy,
                billing_energy,
            } => {
                proof {
                    lemma_status_layout(*self);
                }
                if buf.len() < 32 {
                    return Err(EncodeError::BufferTooSmall);
                }
                let ghost initial = buf@;
                buf[0] = 0;
                buf[1] = ev_state.tag();
                let ghost written = seq![0u8, ev_state.spec_tag()];
                assert(buf@ =~= written + initial.skip(2));
                proof {
                    lemma_le_bytes_len(pwm_hi_val);
                    lemma_write_behind(buf@, written, initial, le_bytes(pwm_hi_val));
                    written = written + le_bytes(pwm_hi_val);
                }
                write_u32(buf, 2, pwm_hi_val);
                proof {
                    lemma_le_bytes_len(pwm_lo_val);
                    lemma_write_behind(buf@, written, initial, le_bytes(pwm_lo_val));
                    written = written + le_bytes(pwm_lo_val);
                }
                write_u32(buf, 6, pwm_lo_val);
                buf[10] = pwm_hi_percentage;
                buf[11] = relay.tag();
                proof {
                    let fields = seq![pwm_hi_percentage, relay.spec_tag()];
                    assert(buf@ =~= (written + fields) + initial.skip(12));
                    written = written + fields;
                    lemma_le_bytes_len(rcd_value);
                    lemma_write_behind(buf@, written, initial, le_bytes(rcd_value));
                    written = written + le_bytes(rcd_value);
                }
                write_u32(buf, 12, rcd_value);
                proof {
                    lemma_le_bytes_len(current);
                    lemma_write_behind(buf@, written, initial, le_bytes(current));
                    written = written + le_bytes(current);
                }
                write_u32(buf, 16, current);
                proof {
                    lemma_le_bytes_len(voltages);
                    lemma_write_behind(buf@, written, initial, le_bytes(voltages));
                    written = written + le_bytes(voltages);
                }
                write_u32(buf, 20, voltages);
                proof {
                    lemma_le_bytes_len(energy);
                    lemma_write_behind(buf@, written, initial, le_bytes(energy));
                    written = written + le_bytes(energy);
                }
                write_u32(buf, 24, energy);
                proof {
                    lemma_le_bytes_len(billing_energy);
                    lemma_write_behind(buf@, written, initial, le_bytes(billing_energy));
                    written = written + le_bytes(billing_energy);
                }
                write_u32(buf, 28, billing_energy);
                Ok(32)
            },
            Response::SetOk => {
                if buf.len() < 1 {
                    return Err(EncodeError::BufferTooSmall);
                }
                buf[0] = 1;
                assert(buf@ =~= self.wire() + old(buf)@.skip(1));
                Ok(1)
            },
        }
    }

    fn decode(buf: &[u8]) -> (r: Result<(Self, usize), DecodeError>) {
        if buf.len() < 1 {
            return Err(DecodeError::Truncated);
        }
        match buf[0] {
            0 => {
                if buf.len() < 32 {
                    return Err(DecodeError::Truncated);
                }
                proof {
                    if let Ok(v) = Self::parse(buf@) {
                        lemma_status_layout(v);
                    }
                }
                let fields = (
                    EvState::from_tag(buf[1]),
                    Relay::from_tag(buf[11]),
                    read_u32(buf, 2),
                    read_u32(buf, 6),
                    read_u32(buf, 12),
                    read_u32(buf, 16),
                    read_u32(buf, 20),
                    read_u32(buf, 24),
                    read_u32(buf, 28),
                );
                match fields {
                    (
                        Some(ev_state),
                        Some(relay),
                        Some(pwm_hi_val),
                        Some(pwm_lo_val),
                        Some(rcd_value),
                        Some(current),
                        Some(voltages),
                        Some(energy),
                        Some(billing_energy),
                    ) => Ok(
                        (
                            Response::Status {
                                ev_state,
                                pwm_hi_val,
                                pwm_lo_val,
                                pwm_hi_percentage: buf[10],
                                relay,
                                rcd_value,
                                current,
                                voltages,
                                energy,
                                billing_energy,
                            },
                            32,
                        ),
                    ),
                    _ => Err(DecodeError::MalformedField),
                }
            },
            1 => Ok((Response::SetOk, 1)),
            _ => Err(DecodeError::UnknownDiscriminant),
        }
    }
}

} // verus!

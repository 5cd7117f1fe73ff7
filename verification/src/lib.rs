//! A request/response link between a master and a servant over a serial line.
//!
//! The line carries bytes and knows nothing of messages. This crate turns a
//! value into a frame and a stream of bytes back into values, in four layers:
//!
//! - [`codec`] writes a [`Request`] or a [`Response`] as a tag and its fields;
//! - [`integrity`] appends a 32-bit checksum and verifies it on receipt;
//! - [`framer`] byte-stuffs the result, so that `0x00` marks the end of a
//!   frame and nothing else;
//! - [`assembler`] collects the bytes of a frame as they arrive, one by one.
//!
//! [`packet`] runs the first three in one call, in either direction, and
//! [`session`] holds the two ends of an exchange. [`queue`] is the bounded
//! queue that carries bytes from a receive interrupt to the task that owns
//! the assembler.

pub mod assembler;
pub mod bytes;
pub mod codec;
pub mod error;
pub mod framer;
pub mod integrity;
pub mod packet;
pub mod queue;
pub mod session;
pub mod wire;

pub use crate::codec::Wire;
pub use crate::packet::{deserialize_crc_cobs, serialize_crc_cobs};
pub use crate::wire::{DevId, EvState, Relay, Request, Response};

//! The two ends of the link.
//!
//! A [`Servant`] answers requests: it is given the bytes that arrive, one at
//! a time, and says after each whether there is a reply to transmit. A
//! [`Master`] makes one request at a time: it frames the request, is given
//! what the channel delivers while it waits, and says when the exchange is
//! over. Neither touches the channel; whoever drives them does.

use vstd::prelude::*;
use crate::assembler::{pending_after, received, Assembler, Received};
use crate::codec::Wire;
use crate::error::{EncodeError, IoError, LinkError};
use crate::framer::{delimited, max_frame_len, TERMINATOR};
use crate::packet::{packed, serialize_crc_cobs};
use crate::wire::{EvState, F32Bits, Relay, Request, Response};

verus! {

/// What a device knows of itself when it is asked.
#[derive(Clone, Copy, Debug, PartialEq, Eq, Structural)]
pub struct Readings {
    pub ev_state: EvState,
    pub pwm_hi_val: F32Bits,
    pub pwm_lo_val: F32Bits,
    pub pwm_hi_percentage: u8,
    pub relay: Relay,
    pub rcd_value: F32Bits,
    pub current: F32Bits,
    pub voltages: F32Bits,
    pub energy: F32Bits,
    pub billing_energy: F32Bits,
}

/// The answer that `request` is owed by a device in the state `readings`.
pub open spec fn answer(request: Request, readings: Readings) -> Response {
    match request {
        Request::Update { .. } => Response::SetOk,
        Request::Get { .. } => Response::Status {
            ev_state: readings.ev_state,
            pwm_hi_val: readings.pwm_hi_val,
            pwm_lo_val: readings.pwm_lo_val,
            pwm_hi_percentage: readings.pwm_hi_percentage,
            relay: readings.relay,
            rcd_value: readings.rcd_value,
            current: readings.current,
            voltages: readings.voltages,
            energy: readings.energy,
            billing_energy: readings.billing_energy,
        },
    }
}

/// Answers `request` for a device in the state `readings`.
pub fn respond(request: &Request, readings: &Readings) -> (response: Response)
    ensures
        response == answer(*request, *readings),
{
    match request {
        Request::Update { .. } => Response::SetOk,
        Request::Get { .. } => Response::Status {
            ev_state: readings.ev_state,
            pwm_hi_val: readings.pwm_hi_val,
            pwm_lo_val: readings.pwm_lo_val,
            pwm_hi_percentage: readings.pwm_hi_percentage,
            relay: readings.relay,
            rcd_value: readings.rcd_value,
            current: readings.current,
            voltages: readings.voltages,
            energy: readings.energy,
            billing_energy: readings.billing_energy,
        },
    }
}

/// Why a frame that ended got no answer.
#[derive(Clone, Copy, Debug, PartialEq, Eq, Structural)]
pub enum Fault {
    /// The frame was longer than the receive buffer.
    Overflow,
    /// The frame was refused on its way to a value.
    Link(LinkError),
    /// The reply has no room in the transmit buffer.
    Encode(EncodeError),
}

/// What the servant's driver is to do after a byte.
#[derive(Clone, Copy, Debug, PartialEq, Eq, Structural)]
pub enum Action {
    /// Nothing: no frame has ended.
    Wait,
    /// Transmit this many bytes from the start of the transmit buffer: they
    /// are the reply to the request that just arrived.
    Transmit(usize),
    /// Transmit nothing: the frame that just ended was discarded.
    Discard(Fault),
}

/// What a servant with a transmit buffer of `out_cap` bytes and the state
/// `readings` does about `arrival`.
pub open spec fn action_for(
    arrival: Received<Request>,
    readings: Readings,
    out_cap: nat,
) -> Action {
    match arrival {
        Received::Pending => Action::Wait,
        Received::Overflow => Action::Discard(Fault::Overflow),
        Received::Rejected(e) => Action::Discard(Fault::Link(e)),
        Received::Value(request) => {
            let reply = answer(request, readings);
            if max_frame_len(reply.wire().len() + 4) <= out_cap {
                Action::Transmit(packed(reply).len() as usize)
            } else {
                Action::Discard(Fault::Encode(EncodeError::BufferTooSmall))
            }
        },
    }
}

/// The frame that a servant in the state `readings` transmits about
/// `arrival`, if it transmits one.
pub open spec fn reply_for(arrival: Received<Request>, readings: Readings, out_cap: nat) -> Option<
    Seq<u8>,
> {
    match arrival {
        Received::Value(request) => {
            let reply = answer(request, readings);
            if max_frame_len(reply.wire().len() + 4) <= out_cap {
                Some(packed(reply))
            } else {
                None
            }
        },
        _ => None,
    }
}

/// The device end of the link, with a receive buffer of `IN` bytes and a
/// transmit buffer of `OUT` bytes.
pub struct Servant<const IN: usize, const OUT: usize> {
    rx: Assembler<IN>,
    tx: [u8; OUT],
}

impl<const IN: usize, const OUT: usize> Servant<IN, OUT> {
    /// The bytes held for the frame that is arriving.
    pub closed spec fn pending(&self) -> Seq<u8> {
        self.rx@
    }

    /// All that the receive buffer holds.
    pub closed spec fn incoming(&self) -> Seq<u8> {
        self.rx.buffer()
    }

    /// All that the transmit buffer holds.
    pub closed spec fn outgoing(&self) -> Seq<u8> {
        self.tx@
    }

    /// A servant that has received nothing yet.
    pub fn new() -> (s: Self)
        ensures
            s.pending() == Seq::<u8>::empty(),
            s.incoming().len() == IN,
            s.outgoing().len() == OUT,
    {
        Servant { rx: Assembler::new(), tx: [0u8;OUT] }
    }

    /// The transmit buffer.
    pub fn transmit_buffer(&self) -> (buf: &[u8; OUT])
        ensures
            buf@ == self.outgoing(),
    {
        &self.tx
    }

    /// Takes one byte from the channel and says what to do about it.
    ///
    /// A byte that completes a frame has the frame decoded, the request in
    /// it answered and the answer framed in the transmit buffer. A frame that
    /// is refused anywhere on that way leaves the transmit buffer as it was
    /// and gets no answer; the servant is ready for the next frame either way.
    pub fn on_byte(&mut self, b: u8, readings: &Readings) -> (action: Action)
        ensures
            final(self).pending() == pending_after(old(self).pending(), b, IN as nat),
            final(self).incoming().len() == IN,
            action == action_for(
                received::<Request>(old(self).pending(), old(self).incoming(), b),
                *readings,
                OUT as nat,
            ),
            match reply_for(
                received::<Request>(old(self).pending(), old(self).incoming(), b),
                *readings,
                OUT as nat,
            ) {
                Some(frame) => delimited(frame) && final(self).outgoing() == frame + old(
                    self,
                ).outgoing().skip(frame.len() as int),
                None => final(self).outgoing() == old(self).outgoing(),
            },
            forall|request: Request|
                b == TERMINATOR && old(self).pending().len() < IN && #[trigger] packed(request)
                    == old(self).pending().push(b) ==> received::<Request>(
                    old(self).pending(),
                    old(self).incoming(),
                    b,
                ) == Received::Value(request),
    {
        match self.rx.receive::<Request>(b) {
            Received::Pending => Action::Wait,
            Received::Overflow => Action::Discard(Fault::Overflow),
            Received::Rejected(e) => Action::Discard(Fault::Link(e)),
            Received::Value(request) => {
                let reply = respond(&request, readings);
                match serialize_crc_cobs(&reply, &mut self.tx) {
                    Ok(n) => Action::Transmit(n),
                    Err(e) => Action::Discard(Fault::Encode(e)),
                }
            },
        }
    }
}

/// What the channel delivers to a master that waits for a reply.
#[derive(Clone, Copy, Debug, PartialEq, Eq, Structural)]
pub enum ChannelEvent {
    /// One byte arrived.
    Byte(u8),
    /// The read timeout elapsed and no byte arrived.
    Timeout,
    /// The channel reported a failure of its own.
    Failure,
}

/// Why a request got no reply.
#[derive(Clone, Copy, Debug, PartialEq, Eq, Structural)]
pub enum RequestError {
    /// The channel failed or fell silent.
    Io(IoError),
    /// The reply frame was longer than the receive buffer.
    Overflow,
    /// The reply frame was refused on its way to a value.
    Link(LinkError),
}

/// Where an exchange stands after something came from the channel.
#[derive(Clone, Copy, Debug, PartialEq, Eq, Structural)]
pub enum Progress {
    /// The reply is not complete: read on.
    Wait,
    /// The exchange is over and this is the reply.
    Done(Response),
    /// The exchange is over and there is no reply.
    Failed(RequestError),
}

/// Where an exchange stands after `event`, for a master whose receive buffer
/// holds `buffer`, the first `pending.len()` bytes of it for the frame that
/// is arriving.
pub open spec fn progress_for(pending: Seq<u8>, buffer: Seq<u8>, event: ChannelEvent) -> Progress {
    match event {
        ChannelEvent::Timeout => Progress::Failed(RequestError::Io(IoError::Timeout)),
        ChannelEvent::Failure => Progress::Failed(RequestError::Io(IoError::ChannelError)),
        ChannelEvent::Byte(b) => match received::<Response>(pending, buffer, b) {
            Received::Pending => Progress::Wait,
            Received::Overflow => Progress::Failed(RequestError::Overflow),
            Received::Rejected(e) => Progress::Failed(RequestError::Link(e)),
            Received::Value(response) => Progress::Done(response),
        },
    }
}

/// The controller end of the link, with a receive buffer of `IN` bytes and a
/// transmit buffer of `OUT` bytes.
pub struct Master<const IN: usize, const OUT: usize> {
    rx: Assembler<IN>,
    tx: [u8; OUT],
}

impl<const IN: usize, const OUT: usize> Master<IN, OUT> {
    /// The bytes held for the frame that is arriving.
    pub closed spec fn pending(&self) -> Seq<u8> {
        self.rx@
    }

    /// All that the receive buffer holds.
    pub closed spec fn incoming(&self) -> Seq<u8> {
        self.rx.buffer()
    }

    /// All that the transmit buffer holds.
    pub closed spec fn outgoing(&self) -> Seq<u8> {
        self.tx@
    }

    /// A master that has made no request yet.
    pub fn new() -> (m: Self)
        ensures
            m.pending() == Seq::<u8>::empty(),
            m.incoming().len() == IN,
            m.outgoing().len() == OUT,
    {
        Master { rx: Assembler::new(), tx: [0u8;OUT] }
    }

    /// The transmit buffer.
    pub fn transmit_buffer(&self) -> (buf: &[u8; OUT])
        ensures
            buf@ == self.outgoing(),
    {
        &self.tx
    }

    /// Starts an exchange: frames `request` in the transmit buffer, returns
    /// the frame's length and forgets whatever an earlier exchange left
    /// unfinished.
    ///
    /// A request whose frame may not fit the transmit buffer is refused, and
    /// the buffer is left as it was.
    pub fn begin(&mut self, request: &Request) -> (r: Result<usize, EncodeError>)
        ensures
            final(self).pending() == Seq::<u8>::empty(),
            final(self).incoming() == old(self).incoming(),
            final(self).incoming().len() == IN,
            r is Ok <==> max_frame_len(request.wire().len() + 4) <= OUT,
            r matches Ok(n) ==> {
                &&& n == packed(*request).len()
                &&& delimited(packed(*request))
                &&& final(self).outgoing() == packed(*request) + old(self).outgoing().skip(
                    n as int,
                )
                &&& packed(*request).is_prefix_of(final(self).outgoing())
            },
            r is Err ==> final(self).outgoing() == old(self).outgoing(),
    {
        self.rx.clear();
        serialize_crc_cobs(request, &mut self.tx)
    }

    /// Takes what the channel delivered and says where the exchange stands.
    ///
    /// A byte that completes a frame has the frame decoded: a frame that
    /// carries a response ends the exchange with that response, any other
    /// ends it without. A timeout or a failure of the channel ends the
    /// exchange and discards what had arrived of a frame.
    pub fn on_event(&mut self, event: ChannelEvent) -> (progress: Progress)
        ensures
            progress == progress_for(old(self).pending(), old(self).incoming(), event),
            final(self).pending() == match event {
                ChannelEvent::Byte(b) => pending_after(old(self).pending(), b, IN as nat),
                _ => Seq::<u8>::empty(),
            },
            final(self).incoming().len() == IN,
            final(self).outgoing() == old(self).outgoing(),
            forall|response: Response|
                event == ChannelEvent::Byte(TERMINATOR) && old(self).pending().len() < IN
                    && #[trigger] packed(response) == old(self).pending().push(TERMINATOR)
                    ==> progress == Progress::Done(response),
    {
        match event {
            ChannelEvent::Byte(b) => match self.rx.receive::<Response>(b) {
                Received::Pending => Progress::Wait,
                Received::Overflow => Progress::Failed(RequestError::Overflow),
                Received::Rejected(e) => Progress::Failed(RequestError::Link(e)),
                Received::Value(response) => Progress::Done(response),
            },
            ChannelEvent::Timeout => {
                self.rx.clear();
                Progress::Failed(RequestError::Io(IoError::Timeout))
            },
            ChannelEvent::Failure => {
                self.rx.clear();
                Progress::Failed(RequestError::Io(IoError::ChannelError))
            },
        }
    }
}

} // verus!

//! The values that travel over the link.
//!
//! A master sends a [`Request`]; the servant answers each request that it
//! accepts with one [`Response`]. Measured quantities are carried as the bit
//! patterns of IEEE-754 single-precision numbers, so that two values are equal
//! exactly when their bytes on the wire are.

use vstd::prelude::*;

verus! {

/// The address of a device behind the servant.
pub type DevId = u8;

/// The bit pattern of an IEEE-754 single-precision number.
pub type F32Bits = u32;

/// One of the three relays of a device.
#[derive(Clone, Copy, Debug, PartialEq, Eq, Structural)]
pub enum Relay {
    A,
    B,
    C,
}

/// What a device knows of the vehicle at its outlet.
#[derive(Clone, Copy, Debug, PartialEq, Eq, Structural)]
pub enum EvState {
    NotConnected,
    Connected,
    Error,
}

/// What a master asks of the servant.
#[derive(Clone, Copy, Debug, PartialEq, Eq, Structural)]
pub enum Request {
    /// Set the duty cycle, in percent, and the relay of a device.
    Update { dev_id: DevId, pwm_hi_percentage: u8, relay: Relay },
    /// Ask for the state of a device.
    Get { dev_id: DevId },
}

/// What the servant answers.
#[derive(Clone, Copy, Debug, PartialEq, Eq, Structural)]
pub enum Response {
    /// The state of a device, in answer to [`Request::Get`].
    Status {
        ev_state: EvState,
        pwm_hi_val: F32Bits,
        pwm_lo_val: F32Bits,
        pwm_hi_percentage: u8,
        relay: Relay,
        rcd_value: F32Bits,
        current: F32Bits,
        voltages: F32Bits,
        energy: F32Bits,
        billing_energy: F32Bits,
    },
    /// A [`Request::Update`] was carried out.
    SetOk,
}

/// The largest duty cycle, in percent, that means anything.
pub const MAX_PERCENTAGE: u8 = 100;

impl Request {
    /// Whether the duty cycle asked for, if any, is a percentage.
    pub open spec fn spec_in_range(self) -> bool {
        self matches Request::Update { pwm_hi_percentage, .. } ==> pwm_hi_percentage
            <= MAX_PERCENTAGE
    }

    /// Whether the duty cycle asked for, if any, is a percentage. The wire
    /// carries any byte in its place; what to make of one above a hundred is
    /// for the device to say.
    pub fn in_range(&self) -> (r: bool)
        ensures
            r == self.spec_in_range(),
    {
        match self {
            Request::Update { pwm_hi_percentage, .. } => *pwm_hi_percentage <= MAX_PERCENTAGE,
            Request::Get { .. } => true,
        }
    }
}

impl Response {
    /// Whether the duty cycle reported, if any, is a percentage.
    pub open spec fn spec_in_range(self) -> bool {
        self matches Response::Status { pwm_hi_percentage, .. } ==> pwm_hi_percentage
            <= MAX_PERCENTAGE
    }

    /// Whether the duty cycle reported, if any, is a percentage.
    pub fn in_range(&self) -> (r: bool)
        ensures
            r == self.spec_in_range(),
    {
        match self {
            Response::Status { pwm_hi_percentage, .. } => *pwm_hi_percentage <= MAX_PERCENTAGE,
            Response::SetOk => true,
        }
    }
}

impl Relay {
    /// The byte that stands for this relay on the wire.
    pub open spec fn spec_tag(self) -> u8 {
        match self {
            Relay::A => 0,
            Relay::B => 1,
            Relay::C => 2,
        }
    }

    /// The relay that `tag` stands for, if any.
    pub open spec fn spec_from_tag(tag: u8) -> Option<Relay> {
        if tag == 0 {
            Some(Relay::A)
        } else if tag == 1 {
            Some(Relay::B)
        } else if tag == 2 {
            Some(Relay::C)
        } else {
            None
        }
    }

    /// The byte that stands for this relay on the wire.
    pub fn tag(self) -> (t: u8)
        ensures
            t == self.spec_tag(),
            Relay::spec_from_tag(t) == Some(self),
    {
        match self {
            Relay::A => 0,
            Relay::B => 1,
            Relay::C => 2,
        }
    }

    /// The relay that `tag` stands for, if any.
    pub fn from_tag(tag: u8) -> (r: Option<Relay>)
        ensures
            r == Relay::spec_from_tag(tag),
            r is Some <==> tag <= 2,
    {
        match tag {
            0 => Some(Relay::A),
            1 => Some(Relay::B),
            2 => Some(Relay::C),
            _ => None,
        }
    }
}

impl EvState {
    /// The byte that stands for this state on the wire.
    pub open spec fn spec_tag(self) -> u8 {
        match self {
            EvState::NotConnected => 0,
            EvState::Connected => 1,
            EvState::Error => 2,
        }
    }

    /// The state that `tag` stands for, if any.
    pub open spec fn spec_from_tag(tag: u8) -> Option<EvState> {
        if tag == 0 {
            Some(EvState::NotConnected)
        } else if tag == 1 {
            Some(EvState::Connected)
        } else if tag == 2 {
            Some(EvState::Error)
        } else {
            None
        }
    }

    /// The byte that stands for this state on the wire.
    pub fn tag(self) -> (t: u8)
        ensures
            t == self.spec_tag(),
            EvState::spec_from_tag(t) == Some(self),
    {
        match self {
            EvState::NotConnected => 0,
            EvState::Connected => 1,
            EvState::Error => 2,
        }
    }

    /// The state that `tag` stands for, if any.
    pub fn from_tag(tag: u8) -> (r: Option<EvState>)
        ensures
            r == EvState::spec_from_tag(tag),
            r is Some <==> tag <= 2,
    {
        match tag {
            0 => Some(EvState::NotConnected),
            1 => Some(EvState::Connected),
            2 => Some(EvState::Error),
            _ => None,
        }
    }
}

} // verus!

//! Packet layout and packet types.

use vstd::prelude::*;
use crate::error::SeamError;

verus! {

/// Length of the packet header.
pub const HEADER_LEN: usize = 32;

/// Length of the authentication tag.
pub const TAG_LEN: usize = 16;

/// Length of a packet with an empty payload.
pub const MIN_PACKET_LEN: usize = HEADER_LEN + TAG_LEN;

/// Longest packet the decoder accepts: the limit of an IP datagram.
pub const MAX_PACKET_LEN: usize = 65535;

/// The buffer length that a packet with `plaintext_len` bytes of payload needs.
pub fn encode_buf_len(plaintext_len: usize) -> (n: usize)
    requires
        plaintext_len + MIN_PACKET_LEN <= usize::MAX,
    ensures
        n == HEADER_LEN + plaintext_len + TAG_LEN,
{
    HEADER_LEN + plaintext_len + TAG_LEN
}

#[derive(Debug, Clone, Copy, PartialEq, Eq, Structural)]
pub enum PktType {
    Initial,
    Handshake,
    Data,
    Ack,
    FecRepair,
    Chaff,
    PathProbe,
    Close,
    /// Unreliable, out-of-order application datagram.
    Datagram,
    /// Signals the peer to roll traffic keys forward by one epoch.
    KeyUpdate,
    /// Extends the peer's send-side flow-control window.
    MaxData,
    /// Keepalive ping, answered by a pong.
    Ping,
    /// Keepalive pong.
    Pong,
    /// Encrypted session ticket for resumption.
    SessionTicket,
    /// Client to server: request session resumption.
    SvcResume,
    /// Server to client: resumption accepted.
    SvcResumeOk,
}

impl PktType {
    /// The byte of a packet type on the wire.
    pub open spec fn code(self) -> u8 {
        match self {
            PktType::Initial => 0x00,
            PktType::Handshake => 0x01,
            PktType::Data => 0x02,
            PktType::Ack => 0x03,
            PktType::FecRepair => 0x04,
            PktType::Chaff => 0x05,
            PktType::PathProbe => 0x06,
            PktType::Close => 0x07,
            PktType::Datagram => 0x08,
            PktType::KeyUpdate => 0x09,
            PktType::MaxData => 0x0A,
            PktType::Ping => 0x0B,
            PktType::Pong => 0x0C,
            PktType::SessionTicket => 0x0D,
            PktType::SvcResume => 0x0E,
            PktType::SvcResumeOk => 0x0F,
        }
    }

    /// The byte of a packet type on the wire.
    pub fn to_u8(self) -> (b: u8)
        ensures
            b == self.code(),
    {
        match self {
            PktType::Initial => 0x00,
            PktType::Handshake => 0x01,
            PktType::Data => 0x02,
            PktType::Ack => 0x03,
            PktType::FecRepair => 0x04,
            PktType::Chaff => 0x05,
            PktType::PathProbe => 0x06,
            PktType::Close => 0x07,
            PktType::Datagram => 0x08,
            PktType::KeyUpdate => 0x09,
            PktType::MaxData => 0x0A,
            PktType::Ping => 0x0B,
            PktType::Pong => 0x0C,
            PktType::SessionTicket => 0x0D,
            PktType::SvcResume => 0x0E,
            PktType::SvcResumeOk => 0x0F,
        }
    }

    /// The type that a byte stands for.
    pub open spec fn of_code(v: u8) -> Option<PktType> {
        if v == 0x00 {
            Some(PktType::Initial)
        } else if v == 0x01 {
            Some(PktType::Handshake)
        } else if v == 0x02 {
            Some(PktType::Data)
        } else if v == 0x03 {
            Some(PktType::Ack)
        } else if v == 0x04 {
            Some(PktType::FecRepair)
        } else if v == 0x05 {
            Some(PktType::Chaff)
        } else if v == 0x06 {
            Some(PktType::PathProbe)
        } else if v == 0x07 {
            Some(PktType::Close)
        } else if v == 0x08 {
            Some(PktType::Datagram)
        } else if v == 0x09 {
            Some(PktType::KeyUpdate)
        } else if v == 0x0A {
            Some(PktType::MaxData)
        } else if v == 0x0B {
            Some(PktType::Ping)
        } else if v == 0x0C {
            Some(PktType::Pong)
        } else if v == 0x0D {
            Some(PktType::SessionTicket)
        } else if v == 0x0E {
            Some(PktType::SvcResume)
        } else if v == 0x0F {
            Some(PktType::SvcResumeOk)
        } else {
            None
        }
    }
}

/// Reading the byte of a packet type gives the type back, and no other byte stands for it.
pub proof fn law_code_round_trip(t: PktType, v: u8)
    ensures
        PktType::of_code(t.code()) == Some(t),
        PktType::of_code(v) == Some(t) <==> v == t.code(),
{
}

impl vstd::std_specs::convert::TryFromSpecImpl<u8> for PktType {
    open spec fn obeys_try_from_spec() -> bool {
        true
    }

    open spec fn try_from_spec(v: u8) -> Result<PktType, SeamError> {
        match PktType::of_code(v) {
            Some(t) => Ok(t),
            None => Err(SeamError::InvalidPktType(v)),
        }
    }
}

impl TryFrom<u8> for PktType {
    type Error = SeamError;

    /// The type that a byte stands for, or an error that names the byte.
    fn try_from(v: u8) -> (r: Result<Self, SeamError>) {
        match v {
            0x00 => Ok(PktType::Initial),
            0x01 => Ok(PktType::Handshake),
            0x02 => Ok(PktType::Data),
            0x03 => Ok(PktType::Ack),
            0x04 => Ok(PktType::FecRepair),
            0x05 => Ok(PktType::Chaff),
            0x06 => Ok(PktType::PathProbe),
            0x07 => Ok(PktType::Close),
            0x08 => Ok(PktType::Datagram),
            0x09 => Ok(PktType::KeyUpdate),
            0x0A => Ok(PktType::MaxData),
            0x0B => Ok(PktType::Ping),
            0x0C => Ok(PktType::Pong),
            0x0D => Ok(PktType::SessionTicket),
            0x0E => Ok(PktType::SvcResume),
            0x0F => Ok(PktType::SvcResumeOk),
            other => Err(SeamError::InvalidPktType(other)),
        }
    }
}

/// The types of packets have the numbers from 0 to 15, and no other byte is a type.
pub proof fn law_codes(v: u8)
    ensures
        PktType::of_code(v) is Some <==> v < 16,
        PktType::of_code(0) == Some(PktType::Initial),
        PktType::of_code(1) == Some(PktType::Handshake),
        PktType::of_code(2) == Some(PktType::Data),
        PktType::of_code(3) == Some(PktType::Ack),
        PktType::of_code(4) == Some(PktType::FecRepair),
        PktType::of_code(5) == Some(PktType::Chaff),
        PktType::of_code(6) == Some(PktType::PathProbe),
        PktType::of_code(7) == Some(PktType::Close),
        PktType::of_code(8) == Some(PktType::Datagram),
        PktType::of_code(9) == Some(PktType::KeyUpdate),
        PktType::of_code(10) == Some(PktType::MaxData),
        PktType::of_code(11) == Some(PktType::Ping),
        PktType::of_code(12) == Some(PktType::Pong),
        PktType::of_code(13) == Some(PktType::SessionTicket),
        PktType::of_code(14) == Some(PktType::SvcResume),
        PktType::of_code(15) == Some(PktType::SvcResumeOk),
{
}

} // verus!

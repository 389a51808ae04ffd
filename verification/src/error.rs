//! The errors of the protocol.

use vstd::prelude::*;
use vstd::string::*;
use crate::text;

verus! {

#[derive(Debug)]
pub enum SeamError {
    AuthFailed,
    Replay(u64),
    TooOld(u64),
    BufferTooSmall { need: usize, have: usize },
    InvalidPktType(u8),
    HandshakeFailed(String),
    FlowControlBlocked { available: u64, requested: u64 },
    UnknownStream(u32),
    StreamFinished(u32),
    ProtocolViolation(String),
    PacketTooLarge { have: usize, max: usize },
}

/// The text of an error.
pub open spec fn error_text(e: SeamError) -> Seq<char> {
    match e {
        SeamError::AuthFailed => "authentication failed"@,
        SeamError::Replay(n) => "replay detected: packet "@ + text::decimal(n as nat)
            + " already received"@,
        SeamError::TooOld(n) => "packet too old: "@ + text::decimal(n as nat),
        SeamError::BufferTooSmall { need, have } => "buffer too small: need "@ + text::decimal(
            need as nat,
        ) + ", have "@ + text::decimal(have as nat),
        SeamError::InvalidPktType(t) => "invalid packet type: "@ + text::decimal(t as nat),
        SeamError::HandshakeFailed(why) => "handshake failed: "@ + why@,
        SeamError::FlowControlBlocked { available, requested } =>
            "flow control blocked: requested "@ + text::decimal(requested as nat) + " but only "@
                + text::decimal(available as nat) + " available"@,
        SeamError::UnknownStream(id) => "unknown stream "@ + text::decimal(id as nat),
        SeamError::StreamFinished(id) => "stream "@ + text::decimal(id as nat)
            + " is already finished"@,
        SeamError::ProtocolViolation(why) => "protocol violation: "@ + why@,
        SeamError::PacketTooLarge { have, max } => "packet too large: "@ + text::decimal(
            have as nat,
        ) + " bytes exceeds maximum "@ + text::decimal(max as nat),
    }
}

impl SeamError {
    /// The error in words.
    pub fn message(&self) -> (out: String)
        ensures
            out@ == error_text(*self),
    {
        let mut out: String = String::new();
        match self {
            SeamError::AuthFailed => {
                out.append("authentication failed");
                assert(out@ =~= "authentication failed"@);
            },
            SeamError::Replay(n) => {
                out.append("replay detected: packet ");
                text::push_decimal(&mut out, *n);
                out.append(" already received");
            },
            SeamError::TooOld(n) => {
                out.append("packet too old: ");
                text::push_decimal(&mut out, *n);
            },
            SeamError::BufferTooSmall { need, have } => {
                out.append("buffer too small: need ");
                text::push_decimal(&mut out, *need as u64);
                out.append(", have ");
                text::push_decimal(&mut out, *have as u64);
            },
            SeamError::InvalidPktType(t) => {
                out.append("invalid packet type: ");
                text::push_decimal(&mut out, *t as u64);
            },
            SeamError::HandshakeFailed(why) => {
                out.append("handshake failed: ");
                out.append(why.as_str());
            },
            SeamError::FlowControlBlocked { available, requested } => {
                out.append("flow control blocked: requested ");
                text::push_decimal(&mut out, *requested);
                out.append(" but only ");
                text::push_decimal(&mut out, *available);
                out.append(" available");
            },
            SeamError::UnknownStream(id) => {
                out.append("unknown stream ");
                text::push_decimal(&mut out, *id as u64);
            },
            SeamError::StreamFinished(id) => {
                out.append("stream ");
                text::push_decimal(&mut out, *id as u64);
                out.append(" is already finished");
            },
            SeamError::ProtocolViolation(why) => {
                out.append("protocol violation: ");
                out.append(why.as_str());
            },
            SeamError::PacketTooLarge { have, max } => {
                out.append("packet too large: ");
                text::push_decimal(&mut out, *have as u64);
                out.append(" bytes exceeds maximum ");
                text::push_decimal(&mut out, *max as u64);
            },
        }
        assert(out@ =~= error_text(*self));
        out
    }
}

} // verus!

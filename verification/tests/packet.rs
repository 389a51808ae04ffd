use seam_protocol::packet::{encode_buf_len, PktType, HEADER_LEN, MIN_PACKET_LEN, TAG_LEN};
use seam_protocol::SeamError;

#[test]
fn encode_buf_len_accounts_for_header_and_tag() {
    assert_eq!(encode_buf_len(0), MIN_PACKET_LEN);
    assert_eq!(encode_buf_len(128), HEADER_LEN + 128 + TAG_LEN);
}

#[test]
fn pkt_type_try_from_accepts_all_defined_values() {
    let cases = [
        (0x00, PktType::Initial),
        (0x01, PktType::Handshake),
        (0x02, PktType::Data),
        (0x03, PktType::Ack),
        (0x04, PktType::FecRepair),
        (0x05, PktType::Chaff),
        (0x06, PktType::PathProbe),
        (0x07, PktType::Close),
        (0x08, PktType::Datagram),
        (0x09, PktType::KeyUpdate),
        (0x0A, PktType::MaxData),
        (0x0B, PktType::Ping),
        (0x0C, PktType::Pong),
        (0x0D, PktType::SessionTicket),
        (0x0E, PktType::SvcResume),
        (0x0F, PktType::SvcResumeOk),
    ];
    for (raw, expected) in cases {
        assert_eq!(PktType::try_from(raw).unwrap(), expected);
        assert_eq!(expected.to_u8(), raw);
    }
}

#[test]
fn pkt_type_try_from_rejects_unknown_values() {
    assert!(matches!(
        PktType::try_from(0xFF),
        Err(SeamError::InvalidPktType(0xFF))
    ));
}

#[test]
fn every_other_code_is_rejected() {
    for raw in 0x10u8..=0xFF {
        assert!(matches!(PktType::try_from(raw), Err(SeamError::InvalidPktType(r)) if r == raw));
    }
}

#[test]
fn errors_in_words() {
    let cases = [
        (SeamError::AuthFailed, "authentication failed"),
        (SeamError::Replay(42), "replay detected: packet 42 already received"),
        (SeamError::TooOld(7), "packet too old: 7"),
        (
            SeamError::BufferTooSmall { need: 100, have: 9 },
            "buffer too small: need 100, have 9",
        ),
        (SeamError::InvalidPktType(255), "invalid packet type: 255"),
        (
            SeamError::HandshakeFailed("bad KEM PK".to_string()),
            "handshake failed: bad KEM PK",
        ),
        (
            SeamError::FlowControlBlocked { available: 3, requested: 1000 },
            "flow control blocked: requested 1000 but only 3 available",
        ),
        (SeamError::UnknownStream(12), "unknown stream 12"),
        (SeamError::StreamFinished(0), "stream 0 is already finished"),
        (
            SeamError::ProtocolViolation("oops".to_string()),
            "protocol violation: oops",
        ),
        (
            SeamError::PacketTooLarge { have: 65536, max: 65535 },
            "packet too large: 65536 bytes exceeds maximum 65535",
        ),
    ];
    for (e, words) in cases {
        assert_eq!(e.message(), words);
    }
}

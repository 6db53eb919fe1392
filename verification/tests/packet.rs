use anymic::packet::{
    seq_diff, ts_diff, Flags, PacketError, Payload, PayloadType, RtpPacket, HEADER_LEN,
    MAX_PACKET_LEN,
};

fn base_packet() -> RtpPacket<'static> {
    RtpPacket {
        version_minor: 0,
        flags: Flags {
            marker: false,
            dtx: false,
        },
        payload_type: PayloadType::Opus48kMono,
        seq: 1,
        timestamp: 960,
        ssrc16: 0xBEEF,
        payload: Payload::Owned(vec![0xDE, 0xAD]),
    }
}

#[test]
fn golden_encode() {
    let pkt = base_packet();
    let mut buf = Vec::new();
    pkt.encode_into(&mut buf);
    // Expected: A1 10 00 01 00 01 00 00 03 C0 BE EF DE AD
    assert_eq!(
        buf,
        &[
            0xA1, 0x10, 0x00, 0x01, // magic, version, flags, pt
            0x00, 0x01, // seq=1
            0x00, 0x00, 0x03, 0xC0, // timestamp=960
            0xBE, 0xEF, // ssrc16=0xBEEF
            0xDE, 0xAD, // payload
        ]
    );
}

#[test]
fn encoded_len_matches_buffer() {
    let pkt = base_packet();
    let mut buf = Vec::new();
    pkt.encode_into(&mut buf);
    assert_eq!(pkt.encoded_len(), buf.len());
}

#[test]
fn packet_round_trip_borrowed() {
    let orig = base_packet();
    let mut buf = Vec::new();
    orig.encode_into(&mut buf);
    let decoded = RtpPacket::decode(&buf).unwrap();
    assert_eq!(decoded.version_minor, orig.version_minor);
    assert_eq!(decoded.flags, orig.flags);
    assert_eq!(decoded.payload_type, orig.payload_type);
    assert_eq!(decoded.seq, orig.seq);
    assert_eq!(decoded.timestamp, orig.timestamp);
    assert_eq!(decoded.ssrc16, orig.ssrc16);
    assert_eq!(decoded.payload.as_slice(), orig.payload.as_slice());
}

#[test]
fn packet_round_trip_owned() {
    let orig = base_packet();
    let mut buf = Vec::new();
    orig.encode_into(&mut buf);
    let decoded = RtpPacket::decode_owned(&buf).unwrap();
    assert_eq!(decoded.seq, orig.seq);
    assert_eq!(decoded.payload.as_slice(), orig.payload.as_slice());
}

#[test]
fn truncated_all_short_lengths() {
    for len in 0..HEADER_LEN {
        let bytes = vec![0u8; len];
        assert_eq!(
            RtpPacket::decode(&bytes),
            Err(PacketError::Truncated(len)),
            "expected Truncated for len={len}"
        );
    }
}

#[test]
fn bad_magic() {
    let mut buf = Vec::new();
    base_packet().encode_into(&mut buf);
    buf[0] = 0xFF;
    assert_eq!(RtpPacket::decode(&buf), Err(PacketError::InvalidMagic(0xFF)));
}

#[test]
fn bad_major_version() {
    let mut buf = Vec::new();
    base_packet().encode_into(&mut buf);
    buf[1] = 0x21; // major=2, minor=1
    assert_eq!(RtpPacket::decode(&buf), Err(PacketError::UnsupportedMajor(2)));
}

#[test]
fn reserved_flags_set() {
    let mut buf = Vec::new();
    base_packet().encode_into(&mut buf);
    buf[2] = 0xFC; // all reserved bits set, marker+dtx clear
    assert_eq!(RtpPacket::decode(&buf), Err(PacketError::ReservedFlagsSet(0xFC)));
}

#[test]
fn unknown_payload_type() {
    let mut buf = Vec::new();
    base_packet().encode_into(&mut buf);
    buf[3] = 0xFF;
    assert_eq!(RtpPacket::decode(&buf), Err(PacketError::UnknownPayloadType(0xFF)));
}

#[test]
fn too_large() {
    let big = vec![0u8; MAX_PACKET_LEN + 1];
    assert_eq!(RtpPacket::decode(&big), Err(PacketError::TooLarge(MAX_PACKET_LEN + 1)));
}

#[test]
fn exact_max_size_ok() {
    let mut buf = Vec::new();
    base_packet().encode_into(&mut buf);
    // Pad to exactly MAX_PACKET_LEN
    buf.resize(MAX_PACKET_LEN, 0);
    assert!(RtpPacket::decode(&buf).is_ok());
}

#[test]
fn flags_all_combinations() {
    for (marker, dtx, expected) in [
        (false, false, 0u8),
        (true, false, 1),
        (false, true, 2),
        (true, true, 3),
    ] {
        let f = Flags { marker, dtx };
        assert_eq!(f.to_u8(), expected);
        let f2 = Flags::from_u8(expected).unwrap();
        assert_eq!(f2.marker, marker);
        assert_eq!(f2.dtx, dtx);
    }
}

#[test]
fn seq_diff_wrap_aware() {
    assert_eq!(seq_diff(0, 65535), 1, "0 - 65535 should be +1 (wrap)");
    assert_eq!(seq_diff(65535, 0), -1, "65535 - 0 should be -1 (wrap)");
    assert_eq!(seq_diff(100, 100), 0, "equal seqs should diff to 0");
    assert_eq!(seq_diff(200, 100), 100);
    assert_eq!(seq_diff(100, 200), -100);
    // Half-range edge cases
    assert_eq!(seq_diff(32768, 0), -32768); // exact midpoint, negative
    assert_eq!(seq_diff(32767, 0), 32767);
}

#[test]
fn ts_diff_wrap_aware() {
    assert_eq!(ts_diff(0, u32::MAX), 1);
    assert_eq!(ts_diff(u32::MAX, 0), -1);
    assert_eq!(ts_diff(500, 500), 0);
    assert_eq!(ts_diff(1000, 500), 500);
    assert_eq!(ts_diff(500, 1000), -500);
}

#[test]
fn display_contains_key_fields() {
    let pkt = base_packet();
    let s = pkt.to_string();
    assert!(s.contains("v1"), "display should contain 'v1': {s}");
    assert!(s.contains("seq=1"), "display should contain seq: {s}");
    assert!(s.contains("ts=960"), "display should contain ts: {s}");
    assert!(s.contains("ssrc="), "display should contain ssrc: {s}");
    assert!(s.contains("Opus48kMono"), "display should contain pt: {s}");
    assert!(s.contains("len=2"), "display should contain len: {s}");
}

#[test]
fn empty_payload_round_trip() {
    let mut pkt = base_packet();
    pkt.payload = Payload::Owned(vec![]);
    let mut buf = Vec::new();
    pkt.encode_into(&mut buf);
    assert_eq!(buf.len(), HEADER_LEN);
    let decoded = RtpPacket::decode(&buf).unwrap();
    assert_eq!(decoded.payload.len(), 0);
}

#[test]
fn pcm16_payload_type_round_trip() {
    let mut pkt = base_packet();
    pkt.payload_type = PayloadType::Pcm16Raw;
    let mut buf = Vec::new();
    pkt.encode_into(&mut buf);
    let decoded = RtpPacket::decode(&buf).unwrap();
    assert_eq!(decoded.payload_type, PayloadType::Pcm16Raw);
}

// ── further cases ──────────────────────────────────────────────────────────

#[test]
fn display_exact_text() {
    let mut pkt = base_packet();
    assert_eq!(pkt.to_string(), "v1 seq=1 ts=960 ssrc=48879 pt=Opus48kMono flags= len=2");
    pkt.flags = Flags { marker: true, dtx: true };
    pkt.payload_type = PayloadType::Pcm16Raw;
    assert_eq!(pkt.to_string(), "v1 seq=1 ts=960 ssrc=48879 pt=Pcm16Raw flags=MD len=2");
    pkt.flags = Flags { marker: false, dtx: true };
    assert_eq!(pkt.to_string(), "v1 seq=1 ts=960 ssrc=48879 pt=Pcm16Raw flags=D len=2");
}

#[test]
fn payload_type_names_and_codes() {
    assert_eq!(PayloadType::Opus48kMono.to_string(), "Opus48kMono");
    assert_eq!(PayloadType::Pcm16Raw.to_string(), "Pcm16Raw");
    assert_eq!(PayloadType::Opus48kMono.code(), 1);
    assert_eq!(PayloadType::Pcm16Raw.code(), 2);
    assert_eq!(PayloadType::from_u8(2), Ok(PayloadType::Pcm16Raw));
    assert_eq!(PayloadType::from_u8(0), Err(PacketError::UnknownPayloadType(0)));
}

#[test]
fn flags_reject_every_reserved_byte() {
    for v in 4u8..=255 {
        assert_eq!(Flags::from_u8(v), Err(PacketError::ReservedFlagsSet(v)));
    }
}

#[test]
fn decode_borrows_and_decode_owned_owns() {
    let mut buf = Vec::new();
    base_packet().encode_into(&mut buf);
    assert!(matches!(RtpPacket::decode(&buf).unwrap().payload, Payload::Borrowed(_)));
    assert!(matches!(RtpPacket::decode_owned(&buf).unwrap().payload, Payload::Owned(_)));
}

#[test]
fn minor_version_kept_to_low_nibble() {
    let mut pkt = base_packet();
    pkt.version_minor = 0x1F;
    let mut buf = Vec::new();
    pkt.encode_into(&mut buf);
    assert_eq!(buf[1], 0x1F);
    assert_eq!(RtpPacket::decode(&buf).unwrap().version_minor, 0x0F);
}

#[test]
fn encode_appends_to_existing_bytes() {
    let mut buf = vec![7u8, 8];
    base_packet().encode_into(&mut buf);
    assert_eq!(&buf[..3], &[7, 8, 0xA1]);
    assert_eq!(buf.len(), 2 + 14);
}

#[test]
fn reencoding_a_decoded_buffer_gives_it_back() {
    let buf: Vec<u8> = vec![0xA1, 0x17, 0x03, 0x02, 0x12, 0x34, 0xDE, 0xAD, 0xBE, 0xEF, 0x00, 0x07, 9, 9, 9];
    let p = RtpPacket::decode(&buf).unwrap();
    assert_eq!(p.seq, 0x1234);
    assert_eq!(p.timestamp, 0xDEAD_BEEF);
    assert_eq!(p.ssrc16, 7);
    assert_eq!(p.version_minor, 7);
    let mut out = Vec::new();
    p.encode_into(&mut out);
    assert_eq!(out, buf);
}

#[test]
fn diff_antisymmetry_examples() {
    assert_eq!(seq_diff(10, 65530), -seq_diff(65530, 10));
    assert_eq!(seq_diff(0, 32768), -32768);
    assert_eq!(seq_diff(32768, 0), -32768);
    assert_eq!(ts_diff(7, 3_000_000_000), -ts_diff(3_000_000_000, 7));
    assert_eq!(ts_diff(0x8000_0000, 0), -0x8000_0000);
}

//! Wire-format round trips: control frames, varints, voice packets, the
//! UDP ping reply, and the message-kind table.

use mumble_core::frame::{decode_frame_header, encode_frame, encode_ping_reply, is_udp_ping};
use mumble_core::msg::MessageKind;
use mumble_core::voice::{
    decode_voice_packet, encode_varint, encode_voice_packet, VoicePacketServerBound,
};

#[test]
fn frame_roundtrip_every_kind() {
    let kinds = vec![
        (MessageKind::Version, 0u16),
        (MessageKind::UdpTunnel, 1),
        (MessageKind::Authenticate, 2),
        (MessageKind::Ping, 3),
        (MessageKind::ChannelRemove, 7),
        (MessageKind::ChannelState, 8),
        (MessageKind::UserRemove, 9),
        (MessageKind::UserState, 10),
        (MessageKind::CryptSetup, 15),
        (MessageKind::PermissionQuery, 20),
        (MessageKind::CodecVersion, 21),
        (MessageKind::VoiceTarget, 22),
    ];
    for (kind, code) in kinds {
        let body: Vec<u8> = vec![9, 8, 7, 6, 5];
        let framed = encode_frame(kind, &body);
        assert_eq!(framed.len(), 6 + body.len());
        let (k, sz) = decode_frame_header(&framed).unwrap();
        assert_eq!(k, code);
        assert_eq!(sz, body.len() as u32);
        assert_eq!(&framed[6..], &body[..]);
        assert_eq!(MessageKind::from_u16(k), Some(kind));
        assert_eq!(kind.to_u16(), code);
    }
}

#[test]
fn frame_header_exact_bytes() {
    let body: Vec<u8> = vec![0xaa; 3];
    let framed = encode_frame(MessageKind::UserState, &body);
    assert_eq!(&framed[..6], &[0x00, 0x0a, 0x00, 0x00, 0x00, 0x03]);
}

#[test]
fn frame_header_too_short() {
    let b: Vec<u8> = vec![0, 1, 2, 3, 4];
    assert!(decode_frame_header(&b).is_none());
}

#[test]
fn unknown_kind_is_rejected() {
    assert_eq!(MessageKind::from_u16(4), None);
    assert_eq!(MessageKind::from_u16(999), None);
}

#[test]
fn varint_widths() {
    let cases: Vec<(u64, usize)> = vec![
        (0, 1),
        (0x7f, 1),
        (0x80, 2),
        (0x3fff, 2),
        (0x4000, 3),
        (0x1f_ffff, 3),
        (0x20_0000, 4),
        (0xfff_ffff, 4),
        (0x1000_0000, 5),
        (0xffff_ffff, 5),
        (0x1_0000_0000, 9),
        (u64::MAX, 9),
    ];
    for (v, width) in cases {
        let mut out: Vec<u8> = Vec::new();
        encode_varint(&mut out, v);
        assert_eq!(out.len(), width, "width of {v:#x}");
    }
}

#[test]
fn voice_packet_roundtrip() {
    for seq in [0u64, 1, 127, 128, 300, 70_000, 0x1234_5678, u64::MAX] {
        let p = VoicePacketServerBound { typ: 4, target: 0, seq, payload: vec![1, 2, 3, 4] };
        let bytes = encode_voice_packet(&p);
        let q = decode_voice_packet(&bytes).unwrap();
        assert_eq!(q.typ, 4);
        assert_eq!(q.target, 0);
        assert_eq!(q.seq, seq);
        assert_eq!(q.payload, vec![1, 2, 3, 4]);
    }
}

#[test]
fn voice_packet_header_fields() {
    let p = VoicePacketServerBound { typ: 7, target: 31, seq: 9, payload: vec![] };
    let bytes = encode_voice_packet(&p);
    assert_eq!(bytes[0], 0xff);
    let q = decode_voice_packet(&bytes).unwrap();
    assert_eq!(q.typ, 7);
    assert_eq!(q.target, 31);
}

#[test]
fn voice_packet_decode_failures() {
    assert!(decode_voice_packet(&Vec::new()).is_none());
    // Header present but the varint is truncated.
    assert!(decode_voice_packet(&vec![0x80, 0x84]).is_none());
    // A negative-form varint prefix is not a packet this server carries.
    assert!(decode_voice_packet(&vec![0x00, 0xf8, 0x01]).is_none());
}

#[test]
fn udp_ping_classification_and_reply() {
    assert!(is_udp_ping(&vec![0, 0, 0, 0, 1, 2, 3, 4]));
    assert!(!is_udp_ping(&vec![1, 0, 0, 0]));
    assert!(!is_udp_ping(&vec![0, 0, 0]));
    let r = encode_ping_reply(0x01020304, 0x05060708090a0b0c, 2, 1024, 72000);
    assert_eq!(r.len(), 24);
    assert_eq!(&r[..4], &[1, 2, 3, 4]);
    assert_eq!(&r[4..12], &[5, 6, 7, 8, 9, 10, 11, 12]);
    assert_eq!(&r[12..16], &[0, 0, 0, 2]);
    assert_eq!(&r[16..20], &[0, 0, 4, 0]);
    assert_eq!(&r[20..24], &[0x00, 0x01, 0x19, 0x40]);
}

//! End-to-end session scenarios: authentication, routing by channel,
//! whisper targets, the ping timeout and the crypto resync policy.

use mumble_core::crypt::CryptState;
use mumble_core::dispatch::MessageHandler;
use mumble_core::janitor::clean_run;
use mumble_core::msg::{
    AuthenticateMsg, ClientMessage, ControlMessage, Effect, MessageKind, PingMsg, TargetSlot,
    UdpAddr, VersionMsg, VoiceTargetMsg,
};
use mumble_core::registry::{ServerState, ROOT_CHANNEL};
use mumble_core::router::route_voice_packet;
use mumble_core::smap::am_contains;
use mumble_core::voice::VoicePacketServerBound;

fn connect(st: &mut ServerState, name: &str, key: u64, now: u64) -> (u32, Vec<Effect>) {
    let version = VersionMsg { version: 0x0001_0400 };
    let auth = AuthenticateMsg {
        username: name.to_string(),
        opus: true,
        celt_versions: vec![-2147483637],
    };
    MessageHandler::connect_client(st, &version, auth, key, now).unwrap()
}

fn mailbox_kinds_to(effects: &[Effect], session: u32) -> Vec<MessageKind> {
    effects
        .iter()
        .filter_map(|e| match e {
            Effect::Mailbox {
                session: s,
                item: ClientMessage::SendMessage { kind, .. },
            } if *s == session => Some(*kind),
            _ => None,
        })
        .collect()
}

#[test]
fn auth_flow_replies_with_the_expected_messages() {
    let mut st = ServerState::new();
    let (sid, effects) = connect(&mut st, "alice", 5, 0);
    assert_eq!(sid, 1);
    // First the crypto parameters, then the codec version.
    assert!(matches!(
        &effects[0],
        Effect::Reply { session: 1, msg: ControlMessage::CryptSetup(c) } if c.key == 5
    ));
    assert!(matches!(
        &effects[1],
        Effect::Reply { session: 1, msg: ControlMessage::CodecVersion(_) }
    ));
    // The channel list includes Root.
    assert!(effects.iter().any(|e| matches!(
        e,
        Effect::Reply { session: 1, msg: ControlMessage::ChannelState(c) }
            if c.channel_id == Some(ROOT_CHANNEL) && c.name == "Root"
    )));
    // The user list includes the newcomer itself.
    assert!(effects.iter().any(|e| matches!(
        e,
        Effect::Reply { session: 1, msg: ControlMessage::UserState(u) }
            if u.session == Some(1) && u.name.as_deref() == Some("alice")
    )));
}

#[test]
fn route_by_channel_reaches_peers_but_not_the_sender() {
    let mut st = ServerState::new();
    let (a, _) = connect(&mut st, "alice", 1, 0);
    let (b, _) = connect(&mut st, "bob", 2, 0);
    let packet = VoicePacketServerBound { typ: 4, target: 0, seq: 1, payload: vec![0xaa] };
    let effects = route_voice_packet(&mut st, a, packet);
    assert_eq!(effects.len(), 1);
    assert!(matches!(
        &effects[0],
        Effect::Mailbox { session, item: ClientMessage::SendVoicePacket(p) }
            if *session == b && p.session == a && p.payload == vec![0xaa]
    ));
}

#[test]
fn whisper_target_reaches_only_the_listed_session() {
    let mut st = ServerState::new();
    let (a, _) = connect(&mut st, "alice", 1, 0);
    let (b, _) = connect(&mut st, "bob", 2, 0);
    let (c, _) = connect(&mut st, "carol", 3, 0);
    let vt = VoiceTargetMsg { id: 5, slot: TargetSlot { sessions: vec![b], channels: vec![] } };
    MessageHandler::handle_voice_target(&mut st, a, vt).unwrap();
    let packet = VoicePacketServerBound { typ: 4, target: 5, seq: 1, payload: vec![1] };
    let effects = route_voice_packet(&mut st, a, packet);
    assert_eq!(effects.len(), 1);
    assert!(matches!(
        &effects[0],
        Effect::Mailbox { session, .. } if *session == b
    ));
    let _ = c;
}

#[test]
fn loopback_target_returns_to_the_sender_alone() {
    let mut st = ServerState::new();
    let (a, _) = connect(&mut st, "alice", 1, 0);
    let (_b, _) = connect(&mut st, "bob", 2, 0);
    let packet = VoicePacketServerBound { typ: 4, target: 31, seq: 1, payload: vec![1] };
    let effects = route_voice_packet(&mut st, a, packet);
    assert_eq!(effects.len(), 1);
    assert!(matches!(&effects[0], Effect::Mailbox { session, .. } if *session == a));
}

#[test]
fn bound_recipient_gets_an_encrypted_datagram() {
    let mut st = ServerState::new();
    let key = 0x42;
    let (a, _) = connect(&mut st, "alice", 1, 0);
    let (b, _) = connect(&mut st, "bob", key, 0);
    // Bind bob to a UDP address via his first decrypted packet.
    let addr = UdpAddr { ip: 7, port: 7 };
    let mut bob_crypt = CryptState::new(key, 0);
    let datagram = bob_crypt.encrypt(&vec![0x99]);
    let (who, _) = st.find_client_with_decrypt(&datagram, addr, 1).unwrap();
    assert_eq!(who, b);
    let packet = VoicePacketServerBound { typ: 4, target: 0, seq: 1, payload: vec![1] };
    let effects = route_voice_packet(&mut st, a, packet);
    assert_eq!(effects.len(), 1);
    match &effects[0] {
        Effect::SendUdp { addr: to, bytes } => {
            assert_eq!(*to, addr);
            // Bob can decrypt the datagram with his own state; it frames the
            // client-bound packet stamped with Alice's session.
            let plain = bob_crypt.decrypt(bytes, 2).unwrap();
            let expected = mumble_core::voice::VoicePacketClientBound {
                typ: 4,
                target: 0,
                session: a,
                seq: 1,
                payload: vec![1],
            };
            assert_eq!(plain, mumble_core::voice::encode_client_bound(&expected));
        }
        other => panic!("expected a UDP delivery, got {other:?}"),
    }
}

#[test]
fn ping_timeout_reaps_the_silent_client() {
    let mut st = ServerState::new();
    let (a, _) = connect(&mut st, "alice", 1, 0);
    let (b, _) = connect(&mut st, "bob", 2, 0);
    // Bob pings late in the window; Alice stays silent.
    let ping = PingMsg { timestamp: 1, good: 0, late: 0, lost: 0, resync: 0 };
    MessageHandler::handle_ping(&mut st, b, &ping, 30_500);
    let effects = clean_run(&mut st, 31_000, &Vec::new());
    assert!(st.get_client(a).is_none());
    assert!(st.get_client(b).is_some());
    // Bob hears about the removal.
    assert!(effects.iter().any(|e| matches!(
        e,
        Effect::Mailbox {
            session,
            item: ClientMessage::SendMessage { kind: MessageKind::UserRemove, msg: ControlMessage::UserRemove(u) },
        } if *session == b && u.session == a
    )));
    // Alice's own mailbox is told to exit.
    assert!(effects.iter().any(|e| matches!(
        e,
        Effect::Mailbox { session, item: ClientMessage::Disconnect } if *session == a
    )));
}

#[test]
fn stale_crypto_is_reset_and_rebinds_on_the_next_packet() {
    let mut st = ServerState::new();
    let key = 0x77;
    let (a, _) = connect(&mut st, "alice", key, 0);
    let addr = UdpAddr { ip: 3, port: 3 };
    let mut client_crypt = CryptState::new(key, 0);
    let d1 = client_crypt.encrypt(&vec![1]);
    st.find_client_with_decrypt(&d1, addr, 0).unwrap();
    assert_eq!(st.get_client_by_socket(addr), Some(a));
    // Keep the TCP side alive, but stop good UDP packets for over 8 s.
    let ping = PingMsg { timestamp: 0, good: 0, late: 0, lost: 0, resync: 0 };
    MessageHandler::handle_ping(&mut st, a, &ping, 8_500);
    let effects = clean_run(&mut st, 9_000, &Vec::new());
    // The session is back in the awaiting state and asked to renegotiate.
    assert!(am_contains(&st.awaiting_udp, a));
    assert!(st.get_client_by_socket(addr).is_none());
    assert!(effects.iter().any(|e| matches!(
        e,
        Effect::Reply { session, msg: ControlMessage::CryptSetup(_) } if *session == a
    )));
    // The address changed; the next good packet re-binds.
    let addr2 = UdpAddr { ip: 3, port: 4 };
    let d2 = client_crypt.encrypt(&vec![2]);
    let (who, _) = st.find_client_with_decrypt(&d2, addr2, 9_100).unwrap();
    assert_eq!(who, a);
    assert_eq!(st.get_client_by_socket(addr2), Some(a));
    assert!(!am_contains(&st.awaiting_udp, a));
}

#[test]
fn closed_mailbox_is_reaped() {
    let mut st = ServerState::new();
    let (a, _) = connect(&mut st, "alice", 1, 0);
    clean_run(&mut st, 1, &vec![a]);
    assert!(st.get_client(a).is_none());
}

#[test]
fn udp_ping_is_answered_in_place() {
    let mut st = ServerState::new();
    connect(&mut st, "alice", 1, 0);
    let from = UdpAddr { ip: 5, port: 5 };
    let ping: Vec<u8> = vec![0, 0, 0, 0, 0xde, 0xad, 0xbe, 0xef, 1, 2, 3, 4];
    let effects =
        mumble_core::router::handle_udp_datagram(&mut st, &ping, from, 42, 1024, 72000);
    assert_eq!(effects.len(), 1);
    match &effects[0] {
        Effect::SendUdp { addr, bytes } => {
            assert_eq!(*addr, from);
            assert_eq!(&bytes[..4], &[0xde, 0xad, 0xbe, 0xef]); // ident echoed
            assert_eq!(&bytes[12..16], &[0, 0, 0, 1]); // one connected user
        }
        other => panic!("expected a ping reply, got {other:?}"),
    }
}

#[test]
fn udp_voice_binds_and_routes_in_one_step() {
    let mut st = ServerState::new();
    let key = 0x1234;
    let (a, _) = connect(&mut st, "alice", key, 0);
    let (b, _) = connect(&mut st, "bob", 0x9999, 0);
    let from = UdpAddr { ip: 8, port: 8 };
    let mut alice_crypt = CryptState::new(key, 0);
    let voice = mumble_core::voice::encode_voice_packet(
        &VoicePacketServerBound { typ: 4, target: 0, seq: 3, payload: vec![5, 6] },
    );
    let datagram = alice_crypt.encrypt(&voice);
    let effects =
        mumble_core::router::handle_udp_datagram(&mut st, &datagram, from, 1, 1024, 72000);
    // The first decrypt bound Alice, and Bob received the routed packet.
    assert_eq!(st.get_client_by_socket(from), Some(a));
    assert_eq!(effects.len(), 1);
    assert!(matches!(
        &effects[0],
        Effect::Mailbox { session, item: ClientMessage::SendVoicePacket(p) }
            if *session == b && p.session == a && p.seq == 3
    ));
}

#[test]
fn dispatcher_replies() {
    let mut st = ServerState::new();
    let (a, _) = connect(&mut st, "alice", 1, 0);
    // Version: recorded and answered with the server's version.
    let effects = MessageHandler::handle_message(
        &mut st,
        a,
        ControlMessage::Version(VersionMsg { version: 0x0001_0203 }),
        5,
    )
    .unwrap();
    assert_eq!(st.get_client(a).unwrap().version, 0x0001_0203);
    assert!(matches!(
        &effects[0],
        Effect::Reply { msg: ControlMessage::Version(v), .. } if v.version == 0x0001_0400
    ));
    // Ping: liveness refreshed, telemetry echoed.
    let effects = MessageHandler::handle_message(
        &mut st,
        a,
        ControlMessage::Ping(PingMsg { timestamp: 99, good: 0, late: 0, lost: 0, resync: 0 }),
        123,
    )
    .unwrap();
    assert_eq!(st.get_client(a).unwrap().last_ping, 123);
    assert!(matches!(
        &effects[0],
        Effect::Reply { msg: ControlMessage::Ping(p), .. } if p.timestamp == 99
    ));
    // A mailbox disconnect terminates the dispatcher.
    assert!(MessageHandler::handle_mailbox(&mut st, a, ClientMessage::Disconnect).is_err());
    // A voice-target slot outside 1..=30 is rejected.
    let bad = VoiceTargetMsg { id: 31, slot: TargetSlot { sessions: vec![], channels: vec![] } };
    assert!(MessageHandler::handle_voice_target(&mut st, a, bad).is_err());
    // A malformed tunneled packet is dropped quietly.
    let effects =
        MessageHandler::handle_message(&mut st, a, ControlMessage::UdpTunnel(vec![]), 5).unwrap();
    assert!(effects.is_empty());
}

//! The session registry: registration, binding, reset, disconnect and the
//! channel tree.

use mumble_core::crypt::CryptState;
use mumble_core::dispatch::MessageHandler;
use mumble_core::msg::{
    AuthenticateMsg, ChannelStateMsg, ClientMessage, ControlMessage, Effect, MessageKind,
    UdpAddr, UserStateMsg, VersionMsg,
};
use mumble_core::registry::{ServerState, ROOT_CHANNEL};
use mumble_core::smap::{am_contains, chm_get};
use mumble_core::voice::{encode_voice_packet, VoicePacketServerBound};

fn connect(st: &mut ServerState, name: &str, key: u64, now: u64) -> u32 {
    let version = VersionMsg { version: 0x0001_0400 };
    let auth = AuthenticateMsg {
        username: name.to_string(),
        opus: true,
        celt_versions: vec![-2147483637],
    };
    let (sid, _effects) = MessageHandler::connect_client(st, &version, auth, key, now).unwrap();
    sid
}

#[test]
fn add_client_lands_in_by_session_and_awaiting() {
    let mut st = ServerState::new();
    let sid = connect(&mut st, "alice", 7, 0);
    assert_eq!(sid, 1);
    let c = st.get_client(sid).unwrap();
    assert_eq!(c.username, "alice");
    assert_eq!(c.channel_id, ROOT_CHANNEL);
    assert!(c.udp_addr.is_none());
    assert!(am_contains(&st.awaiting_udp, sid));
    let root = chm_get(&st.channels, ROOT_CHANNEL).unwrap();
    assert!(root.members.contains(&sid));
}

#[test]
fn session_ids_are_distinct() {
    let mut st = ServerState::new();
    let a = connect(&mut st, "alice", 1, 0);
    let b = connect(&mut st, "bob", 2, 0);
    let c = connect(&mut st, "carol", 3, 0);
    assert!(a != b && b != c && a != c);
    assert_eq!((a, b, c), (1, 2, 3));
}

#[test]
fn duplicate_username_is_rejected() {
    let mut st = ServerState::new();
    connect(&mut st, "alice", 1, 0);
    let version = VersionMsg { version: 1 };
    let auth = AuthenticateMsg {
        username: "alice".to_string(),
        opus: true,
        celt_versions: vec![],
    };
    assert!(MessageHandler::connect_client(&mut st, &version, auth, 9, 0).is_err());
}

#[test]
fn first_udp_decrypt_binds_the_address() {
    let mut st = ServerState::new();
    let key = 0xdead_beef;
    let sid = connect(&mut st, "alice", key, 0);
    let addr = UdpAddr { ip: 0x0a00_0001, port: 50000 };
    // The client side encrypts its first voice packet under the same key.
    let mut client_crypt = CryptState::new(key, 0);
    let voice = encode_voice_packet(
        &VoicePacketServerBound { typ: 4, target: 0, seq: 1, payload: vec![1, 2, 3] },
    );
    let datagram = client_crypt.encrypt(&voice);
    let (who, plain) = st.find_client_with_decrypt(&datagram, addr, 10).unwrap();
    assert_eq!(who, sid);
    assert_eq!(plain, voice);
    assert_eq!(st.get_client_by_socket(addr), Some(sid));
    assert!(!am_contains(&st.awaiting_udp, sid));
    assert_eq!(st.get_client(sid).unwrap().udp_addr, Some(addr));
}

#[test]
fn failed_decrypt_matches_nobody_and_changes_nothing() {
    let mut st = ServerState::new();
    let sid = connect(&mut st, "alice", 4, 0);
    let addr = UdpAddr { ip: 1, port: 2 };
    let mut wrong = CryptState::new(5, 0);
    let datagram = wrong.encrypt(&vec![1, 2, 3, 4, 5, 6]);
    assert!(st.find_client_with_decrypt(&datagram, addr, 10).is_none());
    assert!(st.get_client_by_socket(addr).is_none());
    assert!(am_contains(&st.awaiting_udp, sid));
}

#[test]
fn reset_client_crypt_restores_pre_binding_state() {
    let mut st = ServerState::new();
    let key = 11;
    let sid = connect(&mut st, "alice", key, 0);
    let addr = UdpAddr { ip: 9, port: 9 };
    let mut client_crypt = CryptState::new(key, 0);
    let datagram = client_crypt.encrypt(&vec![0x80, 0x01, 0xaa]);
    st.find_client_with_decrypt(&datagram, addr, 1).unwrap();
    assert_eq!(st.get_client_by_socket(addr), Some(sid));

    let effects = st.reset_client_crypt(sid, 100).unwrap();
    // Back to the pre-binding state with respect to both indexes.
    assert!(am_contains(&st.awaiting_udp, sid));
    assert!(st.get_client_by_socket(addr).is_none());
    assert!(st.get_client(sid).unwrap().udp_addr.is_none());
    // The client is told to renegotiate.
    assert_eq!(effects.len(), 1);
    assert!(matches!(
        &effects[0],
        Effect::Reply { session, msg: ControlMessage::CryptSetup(_) } if *session == sid
    ));
    // A later packet from a new address re-binds.
    let addr2 = UdpAddr { ip: 9, port: 10 };
    let datagram2 = client_crypt.encrypt(&vec![0x42]);
    let (who, _) = st.find_client_with_decrypt(&datagram2, addr2, 101).unwrap();
    assert_eq!(who, sid);
    assert_eq!(st.get_client_by_socket(addr2), Some(sid));
}

#[test]
fn reset_unknown_session_is_none() {
    let mut st = ServerState::new();
    assert!(st.reset_client_crypt(77, 0).is_none());
}

#[test]
fn disconnect_is_idempotent() {
    let mut st = ServerState::new();
    let a = connect(&mut st, "alice", 1, 0);
    let _b = connect(&mut st, "bob", 2, 0);
    let first = st.disconnect(a);
    assert!(st.get_client(a).is_none());
    assert!(first.iter().any(|e| matches!(
        e,
        Effect::Mailbox { session, item: ClientMessage::Disconnect } if *session == a
    )));
    assert!(first.iter().any(|e| matches!(
        e,
        Effect::Mailbox { session, item: ClientMessage::SendMessage { kind: MessageKind::UserRemove, .. } } if *session == 2
    )));
    let second = st.disconnect(a);
    assert!(second.is_empty());
    assert!(st.get_client(a).is_none());
    assert!(st.get_client(2).is_some());
}

#[test]
fn temporary_channel_is_collected_when_left_empty() {
    let mut st = ServerState::new();
    let a = connect(&mut st, "alice", 1, 0);
    let cid = st
        .add_channel(&ChannelStateMsg {
            channel_id: None,
            parent: ROOT_CHANNEL,
            name: "whisper-room".to_string(),
            description: "".to_string(),
            temporary: true,
        })
        .unwrap();
    st.set_client_channel(a, cid).unwrap();
    assert!(chm_get(&st.channels, cid).unwrap().members.contains(&a));
    // Moving the last member out collects the channel and announces it.
    let effects = st.set_client_channel(a, ROOT_CHANNEL).unwrap();
    assert!(chm_get(&st.channels, cid).is_none());
    let mut saw_user_state = false;
    let mut saw_channel_remove = false;
    for e in &effects {
        if let Effect::Mailbox { item: ClientMessage::SendMessage { kind, .. }, .. } = e {
            match kind {
                MessageKind::UserState => {
                    assert!(!saw_channel_remove, "UserState must precede ChannelRemove");
                    saw_user_state = true;
                }
                MessageKind::ChannelRemove => saw_channel_remove = true,
                _ => {}
            }
        }
    }
    assert!(saw_user_state && saw_channel_remove);
}

#[test]
fn permanent_channel_survives_leaving() {
    let mut st = ServerState::new();
    let a = connect(&mut st, "alice", 1, 0);
    let cid = st
        .add_channel(&ChannelStateMsg {
            channel_id: None,
            parent: ROOT_CHANNEL,
            name: "lobby".to_string(),
            description: "".to_string(),
            temporary: false,
        })
        .unwrap();
    st.set_client_channel(a, cid).unwrap();
    st.set_client_channel(a, ROOT_CHANNEL).unwrap();
    assert!(chm_get(&st.channels, cid).is_some());
}

#[test]
fn collected_channel_id_is_reused() {
    let mut st = ServerState::new();
    let a = connect(&mut st, "alice", 1, 0);
    let temp = ChannelStateMsg {
        channel_id: None,
        parent: ROOT_CHANNEL,
        name: "scratch".to_string(),
        description: "".to_string(),
        temporary: true,
    };
    let cid = st.add_channel(&temp).unwrap();
    assert_eq!(cid, 1);
    // The only member leaves; the temporary channel is collected.
    st.set_client_channel(a, cid).unwrap();
    st.set_client_channel(a, ROOT_CHANNEL).unwrap();
    assert!(chm_get(&st.channels, cid).is_none());
    // The next channel takes the smallest free id again: 1, not 2.
    let again = st.add_channel(&temp).unwrap();
    assert_eq!(again, 1);
    // With 1 occupied, the next one takes 2.
    let next = st.add_channel(&temp).unwrap();
    assert_eq!(next, 2);
}

#[test]
fn add_channel_requires_existing_parent() {
    let mut st = ServerState::new();
    assert!(st
        .add_channel(&ChannelStateMsg {
            channel_id: None,
            parent: 42,
            name: "orphan".to_string(),
            description: "".to_string(),
            temporary: false,
        })
        .is_none());
}

#[test]
fn move_to_missing_channel_is_an_error() {
    let mut st = ServerState::new();
    let a = connect(&mut st, "alice", 1, 0);
    assert!(st.set_client_channel(a, 42).is_err());
    assert_eq!(st.get_client(a).unwrap().channel_id, ROOT_CHANNEL);
}

#[test]
fn lookup_by_name() {
    let mut st = ServerState::new();
    connect(&mut st, "alice", 1, 0);
    assert_eq!(st.get_client_by_name(&"alice".to_string()).unwrap().session_id, 1);
    assert!(st.get_client_by_name(&"nobody".to_string()).is_none());
    assert_eq!(st.get_channel_by_name(&"Root".to_string()).unwrap().id, ROOT_CHANNEL);
    assert!(st.get_channel_by_name(&"nowhere".to_string()).is_none());
}

#[test]
fn check_codec_elects_the_majority_version() {
    let mut st = ServerState::new();
    let version = VersionMsg { version: 1 };
    for (name, key) in [("alice", 1u64), ("bob", 2)] {
        let auth = AuthenticateMsg {
            username: name.to_string(),
            opus: true,
            celt_versions: vec![-2147483637],
        };
        MessageHandler::connect_client(&mut st, &version, auth, key, 0).unwrap();
    }
    let (unchanged, effects) = st.check_codec();
    // The vote changed the advertised version away from the initial zero.
    assert!(unchanged.is_none());
    assert!(!effects.is_empty());
    assert_eq!(st.codec_state.get_version(), -2147483637);
    // A second vote with the same support changes nothing.
    let (same, effects2) = st.check_codec();
    assert!(same.is_some());
    assert!(effects2.is_empty());
}

#[test]
fn status_reports_every_client() {
    let mut st = ServerState::new();
    let a = connect(&mut st, "alice", 1, 0);
    let _b = connect(&mut st, "bob", 2, 0);
    let snapshot = mumble_core::status::get_status(&st, 500);
    assert_eq!(snapshot.len(), 2);
    let alice = snapshot.iter().find(|(s, _)| *s == a).unwrap();
    assert_eq!(alice.1.name, "alice");
    assert_eq!(alice.1.channel.as_deref(), Some("Root"));
    assert_eq!(alice.1.good, 0);
    assert_eq!(alice.1.last_good_duration, 500);
    assert_eq!(alice.1.targets.len(), 30);
}

#[test]
fn user_state_flags_are_applied_and_broadcast() {
    let mut st = ServerState::new();
    let a = connect(&mut st, "alice", 1, 0);
    let msg = UserStateMsg {
        session: None,
        name: None,
        channel_id: None,
        mute: Some(true),
        deaf: None,
        self_mute: Some(true),
        self_deaf: None,
    };
    let effects = MessageHandler::handle_user_state(&mut st, a, msg).unwrap();
    let c = st.get_client(a).unwrap();
    assert!(c.mute && c.self_mute && !c.deaf);
    assert!(effects.iter().any(|e| matches!(
        e,
        Effect::Mailbox { item: ClientMessage::SendMessage { kind: MessageKind::UserState, .. }, .. }
    )));
}

//! The control-message dispatcher: the per-connection switch over typed
//! control messages, the per-client mailbox consumer, and the connection
//! setup that registers an authenticated client. The framed-stream I/O
//! around it lives in the shell; the decisions live here.

use crate::client::{Client, MAX_CODECS, NUM_TARGETS};
use crate::crypt::{sat_inc, CryptState};
use crate::msg::{
    AuthenticateMsg, ChannelStateMsg, ClientMessage, ControlMessage, CryptSetupMsg, Effect, MessageKind,
    MumbleError, PermissionQueryMsg, PingMsg, TargetSlot, UserStateMsg, VersionMsg,
    VoiceTargetMsg,
};
use crate::registry::ServerState;
use crate::router::route_voice_packet;
use crate::smap::{chm_get, chm_insert, chm_keys, cm_get, cm_keys};
use crate::vecset::vs_insert;
use crate::voice::{decode_voice_packet, encode_client_bound, VoicePacketServerBound};
use vstd::prelude::*;

verus! {

/// The protocol version this server announces: 1.4.0.
pub const SERVER_VERSION: u32 = 0x0001_0400;

/// The permissive permission mask granted to every query: no ACLs.
pub const PERMISSIVE_PERMISSIONS: u32 = 0xffff_ffff;

/// The per-connection message dispatcher.
pub struct MessageHandler;

impl MessageHandler {
    /// Records the peer's version and replies with the server's.
    pub fn handle_version(state: &mut ServerState, session: u32, v: &VersionMsg) -> (r: Vec<
        Effect,
    >)
        requires
            old(state).inv(),
            old(state).clients_map().dom().contains(session),
        ensures
            final(state).inv(),
            final(state).clients_map().dom() == old(state).clients_map().dom(),
            final(state).clients_map()[session] == (Client {
                version: v.version,
                ..old(state).clients_map()[session]
            }),
            forall|t: u32|
                t != session && old(state).clients_map().dom().contains(t)
                    ==> final(state).clients_map()[t] == old(state).clients_map()[t],
            final(state).socket_map() == old(state).socket_map(),
            final(state).awaiting_set() == old(state).awaiting_set(),
            final(state).channels_map() == old(state).channels_map(),
            r@.len() == 1,
            r@[0] == (Effect::Reply {
                session,
                msg: ControlMessage::Version(VersionMsg { version: SERVER_VERSION }),
            }),
    {
        let copt = cm_get(&state.clients, session);
        let mut c = copt.unwrap();
        c.version = v.version;
        state.put_client_same_shape(session, c);
        let mut r: Vec<Effect> = Vec::new();
        r.push(
            Effect::Reply {
                session,
                msg: ControlMessage::Version(VersionMsg { version: SERVER_VERSION }),
            },
        );
        r
    }

    /// Refreshes the liveness timestamp and echoes the crypto telemetry.
    pub fn handle_ping(state: &mut ServerState, session: u32, p: &PingMsg, now: u64) -> (r: Vec<
        Effect,
    >)
        requires
            old(state).inv(),
            old(state).clients_map().dom().contains(session),
        ensures
            final(state).inv(),
            final(state).clients_map().dom() == old(state).clients_map().dom(),
            final(state).clients_map()[session] == (Client {
                last_ping: now,
                ..old(state).clients_map()[session]
            }),
            forall|t: u32|
                t != session && old(state).clients_map().dom().contains(t)
                    ==> final(state).clients_map()[t] == old(state).clients_map()[t],
            final(state).socket_map() == old(state).socket_map(),
            final(state).awaiting_set() == old(state).awaiting_set(),
            final(state).channels_map() == old(state).channels_map(),
            r@.len() == 1,
            r@[0] == (Effect::Reply {
                session,
                msg: ControlMessage::Ping(PingMsg {
                    timestamp: p.timestamp,
                    good: old(state).clients_map()[session].crypt.good,
                    late: old(state).clients_map()[session].crypt.late,
                    lost: old(state).clients_map()[session].crypt.lost,
                    resync: old(state).clients_map()[session].crypt.resync,
                }),
            }),
    {
        let copt = cm_get(&state.clients, session);
        let mut c = copt.unwrap();
        let echo = PingMsg {
            timestamp: p.timestamp,
            good: c.crypt.good,
            late: c.crypt.late,
            lost: c.crypt.lost,
            resync: c.crypt.resync,
        };
        c.last_ping = now;
        state.put_client_same_shape(session, c);
        let mut r: Vec<Effect> = Vec::new();
        r.push(Effect::Reply { session, msg: ControlMessage::Ping(echo) });
        r
    }

    /// Client-initiated re-keying: replaces the session's crypto material
    /// without changing its identity.
    pub fn handle_crypt_setup(state: &mut ServerState, session: u32, c: &CryptSetupMsg, now: u64)
        -> (r: Vec<Effect>)
        requires
            old(state).inv(),
            old(state).clients_map().dom().contains(session),
        ensures
            final(state).inv(),
            final(state).clients_map().dom() == old(state).clients_map().dom(),
            final(state).clients_map()[session] == (Client {
                crypt: (CryptState {
                    key: c.key,
                    encrypt_nonce: c.server_nonce,
                    decrypt_nonce: c.client_nonce,
                    history: 0,
                    resync: sat_inc(old(state).clients_map()[session].crypt.resync),
                    last_good: now,
                    ..old(state).clients_map()[session].crypt
                }),
                ..old(state).clients_map()[session]
            }),
            forall|t: u32|
                t != session && old(state).clients_map().dom().contains(t)
                    ==> final(state).clients_map()[t] == old(state).clients_map()[t],
            final(state).socket_map() == old(state).socket_map(),
            final(state).awaiting_set() == old(state).awaiting_set(),
            final(state).channels_map() == old(state).channels_map(),
            r@.len() == 0,
    {
        let copt = cm_get(&state.clients, session);
        let mut cl = copt.unwrap();
        cl.crypt.re_key(c.key, c.client_nonce, c.server_nonce, now);
        state.put_client_same_shape(session, cl);
        Vec::new()
    }

    /// Answers a permission query with the permissive mask: no ACLs.
    pub fn handle_permission_query(session: u32, q: &PermissionQueryMsg) -> (r: Vec<Effect>)
        ensures
            r@.len() == 1,
            r@[0] == (Effect::Reply {
                session,
                msg: ControlMessage::PermissionQuery(PermissionQueryMsg {
                    channel_id: q.channel_id,
                    permissions: PERMISSIVE_PERMISSIONS,
                }),
            }),
    {
        let mut r: Vec<Effect> = Vec::new();
        r.push(
            Effect::Reply {
                session,
                msg: ControlMessage::PermissionQuery(
                    PermissionQueryMsg {
                        channel_id: q.channel_id,
                        permissions: PERMISSIVE_PERMISSIONS,
                    },
                ),
            },
        );
        r
    }

    /// Applies mute/deaf flags and channel moves, then broadcasts the
    /// resulting state. Absent fields are left unchanged; a move to an
    /// unknown channel is rejected without any change.
    pub fn handle_user_state(state: &mut ServerState, session: u32, u: UserStateMsg) -> (r: Result<
        Vec<Effect>,
        MumbleError,
    >)
        requires
            old(state).inv(),
            old(state).clients_map().dom().contains(session),
        ensures
            final(state).inv(),
            ({
                let target = (match u.session {
                    Some(t) => t,
                    None => session,
                });
                &&& (r is Err <==> (!old(state).clients_map().dom().contains(target) || (
                u.channel_id matches Some(cid) && !old(state).channels_map().dom().contains(
                    cid,
                ))))
                &&& (r is Err ==> *final(state) == *old(state))
                &&& (r is Ok ==> {
                    let oc = old(state).clients_map()[target];
                    let newc = final(state).clients_map()[target];
                    &&& final(state).clients_map().dom() == old(state).clients_map().dom()
                    &&& newc.mute == (match u.mute {
                        Some(b) => b,
                        None => oc.mute,
                    })
                    &&& newc.deaf == (match u.deaf {
                        Some(b) => b,
                        None => oc.deaf,
                    })
                    &&& newc.self_mute == (match u.self_mute {
                        Some(b) => b,
                        None => oc.self_mute,
                    })
                    &&& newc.self_deaf == (match u.self_deaf {
                        Some(b) => b,
                        None => oc.self_deaf,
                    })
                    &&& newc.channel_id == (match u.channel_id {
                        Some(cid) => cid,
                        None => oc.channel_id,
                    })
                    &&& ServerState::covers_user_state(
                        r.unwrap()@,
                        old(state).clients_map().dom(),
                        target,
                        newc.channel_id,
                    )
                })
            }),
    {
        let target: u32 = match u.session {
            Some(t) => t,
            None => session,
        };
        let copt = cm_get(&state.clients, target);
        if copt.is_none() {
            return Err(MumbleError::ProtocolDecode);
        }
        match u.channel_id {
            Some(cid) => {
                if chm_get(&state.channels, cid).is_none() {
                    return Err(MumbleError::ChannelDoesntExist);
                }
            },
            None => {},
        }
        let mut c = copt.unwrap();
        c.mute = match u.mute {
            Some(b) => b,
            None => c.mute,
        };
        c.deaf = match u.deaf {
            Some(b) => b,
            None => c.deaf,
        };
        c.self_mute = match u.self_mute {
            Some(b) => b,
            None => c.self_mute,
        };
        c.self_deaf = match u.self_deaf {
            Some(b) => b,
            None => c.self_deaf,
        };
        state.put_client_same_shape(target, c);
        match u.channel_id {
            Some(cid) => {
                let moved = state.set_client_channel(target, cid);
                match moved {
                    Ok(effects) => {
                        if effects.len() > 0 {
                            proof {
                                assert(final(state).clients_map()[target].channel_id == cid);
                            }
                            Ok(effects)
                        } else {
                            let c2opt = cm_get(&state.clients, target);
                            let c2 = c2opt.unwrap();
                            let us = c2.get_user_state();
                            let effects2 = state.broadcast_message(
                                MessageKind::UserState,
                                &ControlMessage::UserState(us),
                            );
                            proof {
                                Self::lemma_broadcast_user_state_covers(
                                    *state,
                                    effects2@,
                                    target,
                                    cid,
                                );
                            }
                            Ok(effects2)
                        }
                    },
                    Err(e) => Err(e),
                }
            },
            None => {
                let c2opt = cm_get(&state.clients, target);
                let c2 = c2opt.unwrap();
                let us = c2.get_user_state();
                let effects2 = state.broadcast_message(
                    MessageKind::UserState,
                    &ControlMessage::UserState(us),
                );
                proof {
                    Self::lemma_broadcast_user_state_covers(
                        *state,
                        effects2@,
                        target,
                        state.clients_map()[target].channel_id,
                    );
                }
                Ok(effects2)
            },
        }
    }

    /// A broadcast of a client's own `UserState` reaches every session with
    /// the client's placement.
    proof fn lemma_broadcast_user_state_covers(
        st: ServerState,
        effs: Seq<Effect>,
        moved: u32,
        cid: u32,
    )
        requires
            st.clients_map().dom().contains(moved),
            st.clients_map()[moved].channel_id == cid,
            forall|i: int|
                0 <= i < effs.len() ==> ((#[trigger] effs[i]) matches Effect::Mailbox {
                    session,
                    item,
                } && st.clients_map().dom().contains(session) && (item
                    matches ClientMessage::SendMessage { kind: k2, msg: m2 } && k2
                    == MessageKind::UserState && crate::msg::msg_eq(
                    m2,
                    ControlMessage::UserState(
                        UserStateMsg {
                            session: Some(moved),
                            name: Some(st.clients_map()[moved].username),
                            channel_id: Some(cid),
                            mute: Some(st.clients_map()[moved].mute),
                            deaf: Some(st.clients_map()[moved].deaf),
                            self_mute: Some(st.clients_map()[moved].self_mute),
                            self_deaf: Some(st.clients_map()[moved].self_deaf),
                        },
                    ),
                ))),
            forall|s: u32| #[trigger]
                st.clients_map().dom().contains(s) ==> exists|i: int|
                    0 <= i < effs.len() && ServerState::effect_target(#[trigger] effs[i]) == s,
        ensures
            ServerState::covers_user_state(effs, st.clients_map().dom(), moved, cid),
    {
        assert forall|s: u32| #[trigger]
            st.clients_map().dom().contains(s) implies exists|i: int|
            0 <= i < effs.len() && ServerState::mailbox_user_state(
                #[trigger] effs[i],
                s,
                moved,
                cid,
            ) by {
            let j = choose|j: int|
                0 <= j < effs.len() && ServerState::effect_target(#[trigger] effs[j]) == s;
            assert(ServerState::mailbox_user_state(effs[j], s, moved, cid));
        }
    }

    /// Replaces one of the 30 voice-target slots; slot ids outside 1..=30
    /// are rejected.
    pub fn handle_voice_target(state: &mut ServerState, session: u32, vt: VoiceTargetMsg) -> (r:
        Result<Vec<Effect>, MumbleError>)
        requires
            old(state).inv(),
            old(state).clients_map().dom().contains(session),
        ensures
            final(state).inv(),
            r is Err <==> !(1 <= vt.id <= NUM_TARGETS),
            r is Err ==> *final(state) == *old(state),
            r is Ok ==> {
                let slot = final(state).clients_map()[session].targets@[vt.id - 1];
                &&& final(state).clients_map().dom() == old(state).clients_map().dom()
                &&& (forall|t: u32|
                    slot.sessions@.contains(t) <==> vt.slot.sessions@.contains(t))
                &&& (forall|cid: u32|
                    slot.channels@.contains(cid) <==> vt.slot.channels@.contains(cid))
                &&& (forall|j: int|
                    0 <= j < NUM_TARGETS && j != vt.id - 1
                        ==> final(state).clients_map()[session].targets@[j] == old(state).clients_map()[session].targets@[j])
                &&& (forall|t: u32|
                    t != session && old(state).clients_map().dom().contains(t)
                        ==> final(state).clients_map()[t] == old(state).clients_map()[t])
                &&& final(state).socket_map() == old(state).socket_map()
                &&& final(state).awaiting_set() == old(state).awaiting_set()
                &&& final(state).channels_map() == old(state).channels_map()
                &&& r.unwrap()@.len() == 0
            },
    {
        if vt.id < 1 || vt.id > NUM_TARGETS as u32 {
            return Err(MumbleError::ProtocolDecode);
        }
        let mut sessions: Vec<u32> = Vec::new();
        let sn: usize = vt.slot.sessions.len();
        let mut i: usize = 0;
        while i < sn
            invariant
                i <= sn,
                sn == vt.slot.sessions@.len(),
                sessions@.len() <= i,
                sessions@.no_duplicates(),
                forall|t: u32|
                    sessions@.contains(t) <==> vt.slot.sessions@.take(i as int).contains(t),
            decreases sn - i,
        {
            let ghost pre = sessions@;
            vs_insert(&mut sessions, vt.slot.sessions[i]);
            proof {
                assert forall|t: u32|
                    sessions@.contains(t) <==> vt.slot.sessions@.take(i + 1).contains(t) by {
                    let tk = vt.slot.sessions@.take(i + 1);
                    assert(tk[i as int] == vt.slot.sessions@[i as int]);
                    if sessions@.contains(t) {
                        if pre.contains(t) {
                            let j = choose|j: int|
                                0 <= j < i && vt.slot.sessions@.take(i as int)[j] == t;
                            assert(tk[j] == t);
                        }
                    }
                    if tk.contains(t) {
                        let j = choose|j: int| 0 <= j < tk.len() && tk[j] == t;
                        if j < i {
                            assert(vt.slot.sessions@.take(i as int)[j] == t);
                        }
                    }
                }
            }
            i = i + 1;
        }
        let mut channels: Vec<u32> = Vec::new();
        let cn: usize = vt.slot.channels.len();
        let mut j: usize = 0;
        while j < cn
            invariant
                j <= cn,
                cn == vt.slot.channels@.len(),
                channels@.len() <= j,
                channels@.no_duplicates(),
                forall|t: u32|
                    channels@.contains(t) <==> vt.slot.channels@.take(j as int).contains(t),
            decreases cn - j,
        {
            let ghost pre = channels@;
            vs_insert(&mut channels, vt.slot.channels[j]);
            proof {
                assert forall|t: u32|
                    channels@.contains(t) <==> vt.slot.channels@.take(j + 1).contains(t) by {
                    let tk = vt.slot.channels@.take(j + 1);
                    assert(tk[j as int] == vt.slot.channels@[j as int]);
                    if channels@.contains(t) {
                        if pre.contains(t) {
                            let j2 = choose|j2: int|
                                0 <= j2 < j && vt.slot.channels@.take(j as int)[j2] == t;
                            assert(tk[j2] == t);
                        }
                    }
                    if tk.contains(t) {
                        let j2 = choose|j2: int| 0 <= j2 < tk.len() && tk[j2] == t;
                        if j2 < j {
                            assert(vt.slot.channels@.take(j as int)[j2] == t);
                        }
                    }
                }
            }
            j = j + 1;
        }
        proof {
            assert(vt.slot.sessions@.take(sn as int) =~= vt.slot.sessions@);
            assert(vt.slot.channels@.take(cn as int) =~= vt.slot.channels@);
        }
        let copt = cm_get(&state.clients, session);
        let mut c = copt.unwrap();
        let idx: usize = (vt.id - 1) as usize;
        c.targets.set(idx, TargetSlot { sessions, channels });
        state.put_client_same_shape(session, c);
        Ok(Vec::new())
    }

    /// Every effect is a mailbox broadcast of the `ChannelState` message `m`,
    /// and every connected session receives it.
    pub open spec fn channel_state_broadcast(
        effs: Seq<Effect>,
        st: ServerState,
        m: ChannelStateMsg,
    ) -> bool {
        &&& forall|i: int|
            0 <= i < effs.len() ==> ((#[trigger] effs[i]) matches Effect::Mailbox {
                session,
                item,
            } && st.clients_map().dom().contains(session) && (item
                matches ClientMessage::SendMessage { kind, msg } && kind
                == MessageKind::ChannelState && crate::msg::msg_eq(
                msg,
                ControlMessage::ChannelState(m),
            )))
        &&& ServerState::targets_covered(effs, st.clients_map().dom())
    }

    /// Creates a channel (no id in the message) or updates a channel's name
    /// and description (id present); either way the new state is broadcast
    /// to every connected session.
    pub fn handle_channel_state(state: &mut ServerState, session: u32, cs: ChannelStateMsg) -> (r:
        Result<Vec<Effect>, MumbleError>)
        requires
            old(state).inv(),
            old(state).clients_map().dom().contains(session),
        ensures
            final(state).inv(),
            cs.channel_id is None ==> {
                &&& (r is Err <==> !(old(state).channels_map().dom().contains(cs.parent) && old(state).channels_map().dom().len() + 2 < u32::MAX))
                &&& (r is Err ==> *final(state) == *old(state))
                &&& (r matches Ok(effs) ==> exists|cid: u32|
                    #![auto]
                    {
                    &&& crate::registry::is_first_free_channel_id(
                        old(state).channels_map(),
                        cid,
                    )
                    &&& final(state).channels_map().dom() == old(state).channels_map().dom().insert(cid)
                    &&& final(state).channels_map()[cid].name == cs.name
                    &&& final(state).channels_map()[cid].parent_id == Some(cs.parent)
                    &&& final(state).channels_map()[cid].temporary == cs.temporary
                    &&& final(state).clients_map() == old(state).clients_map()
                    &&& Self::channel_state_broadcast(
                        effs@,
                        *final(state),
                        (ChannelStateMsg {
                            channel_id: Some(cid),
                            parent: cs.parent,
                            name: cs.name,
                            description: cs.description,
                            temporary: cs.temporary,
                        }),
                    )
                })
            },
            cs.channel_id matches Some(cid) ==> {
                &&& (r is Err <==> !old(state).channels_map().dom().contains(cid))
                &&& (r is Err ==> *final(state) == *old(state))
                &&& (r matches Ok(effs) ==> {
                    &&& final(state).channels_map().dom() == old(state).channels_map().dom()
                    &&& Self::channel_state_broadcast(
                        effs@,
                        *final(state),
                        (ChannelStateMsg {
                            channel_id: Some(cid),
                            parent: (match final(state).channels_map()[cid].parent_id {
                                Some(p) => p,
                                None => cid,
                            }),
                            name: cs.name,
                            description: cs.description,
                            temporary: final(state).channels_map()[cid].temporary,
                        }),
                    )
                    &&& final(state).channels_map()[cid] == (crate::chan::Channel {
                        name: cs.name,
                        description: cs.description,
                        ..old(state).channels_map()[cid]
                    })
                    &&& (forall|c2: u32|
                        c2 != cid && old(state).channels_map().dom().contains(c2)
                            ==> final(state).channels_map()[c2] == old(state).channels_map()[
                        c2])
                    &&& final(state).clients_map() == old(state).clients_map()
                })
            },
    {
        match cs.channel_id {
            None => {
                let created = state.add_channel(&cs);
                match created {
                    Some(cid) => {
                        let bc = ChannelStateMsg {
                            channel_id: Some(cid),
                            parent: cs.parent,
                            name: cs.name,
                            description: cs.description,
                            temporary: cs.temporary,
                        };
                        let effects = state.broadcast_message(
                            MessageKind::ChannelState,
                            &ControlMessage::ChannelState(bc),
                        );
                        Ok(effects)
                    },
                    None => Err(MumbleError::ChannelDoesntExist),
                }
            },
            Some(cid) => {
                let chopt = chm_get(&state.channels, cid);
                match chopt {
                    None => Err(MumbleError::ChannelDoesntExist),
                    Some(mut ch) => {
                        ch.name = cs.name;
                        ch.description = cs.description;
                        chm_insert(&mut state.channels, cid, ch);
                        proof {
                            let o = *old(state);
                            let f = *state;
                            assert(f.channels_map().dom() =~= o.channels_map().dom());
                            assert forall|t: u32| #[trigger]
                                f.clients_map().dom().contains(t) implies {
                                let c2 = f.clients_map()[t];
                                &&& c2.session_id == t
                                &&& 1 <= t < f.next_session_id
                                &&& crate::client::client_wf(c2)
                                &&& f.channels_map().dom().contains(c2.channel_id)
                                &&& f.channels_map()[c2.channel_id].members@.contains(t)
                            } by {
                                assert(o.clients_map().dom().contains(t));
                                if o.clients_map()[t].channel_id == cid {
                                    assert(f.channels_map()[cid].members@.contains(t));
                                }
                            }
                            assert forall|c2: u32| #[trigger]
                                f.channels_map().dom().contains(c2) implies {
                                let ch2 = f.channels_map()[c2];
                                &&& ch2.id == c2
                                &&& crate::chan::channel_wf(ch2)
                                &&& (c2 != crate::registry::ROOT_CHANNEL ==> (ch2.parent_id
                                    matches Some(p) && f.channels_map().dom().contains(p) && p
                                    != c2))
                                &&& forall|m: u32|
                                    #![trigger ch2.members@.contains(m)]
                                    ch2.members@.contains(m) ==> f.clients_map().dom().contains(
                                        m,
                                    ) && f.clients_map()[m].channel_id == c2
                            } by {
                                assert(o.channels_map().dom().contains(c2));
                                let ch2 = f.channels_map()[c2];
                                assert forall|m: u32|
                                    #![trigger ch2.members@.contains(m)]
                                    ch2.members@.contains(m) implies f.clients_map(
                                ).dom().contains(m) && f.clients_map()[m].channel_id == c2 by {
                                    assert(o.channels_map()[c2].members@.contains(m));
                                }
                            }
                            assert(f.inv_socket());
                            assert(f.inv_awaiting());
                        }
                        let c2opt = chm_get(&state.channels, cid);
                        let c2 = c2opt.unwrap();
                        let bc = ChannelStateMsg {
                            channel_id: Some(cid),
                            parent: (match c2.parent_id {
                                Some(p) => p,
                                None => cid,
                            }),
                            name: c2.name.clone(),
                            description: c2.description.clone(),
                            temporary: c2.temporary,
                        };
                        let effects = state.broadcast_message(
                            MessageKind::ChannelState,
                            &ControlMessage::ChannelState(bc),
                        );
                        Ok(effects)
                    },
                }
            },
        }
    }

    /// A voice packet that arrived inline over the control channel: decode
    /// it and route it as if it had come over UDP from this session. A
    /// malformed packet is dropped without effects, as is one too large to
    /// re-frame.
    pub fn handle_udp_tunnel(state: &mut ServerState, session: u32, bytes: &Vec<u8>) -> (r: Vec<
        Effect,
    >)
        requires
            old(state).inv(),
            old(state).clients_map().dom().contains(session),
        ensures
            final(state).inv(),
            final(state).clients_map().dom() == old(state).clients_map().dom(),
            final(state).socket_map() == old(state).socket_map(),
            final(state).awaiting_set() == old(state).awaiting_set(),
            final(state).channels_map() == old(state).channels_map(),
            (bytes@.len() < 1 || crate::voice::spec_decode_varint(bytes@.skip(1)) is None) ==> (
            *final(state) == *old(state) && r@.len() == 0),
            (bytes@.len() >= 1 && crate::voice::spec_decode_varint(bytes@.skip(1)) is Some
                && bytes@.len() + 24 <= usize::MAX) ==> (crate::voice::spec_decode_varint(
                bytes@.skip(1),
            ) matches Some(d) && crate::router::routed(
                *old(state),
                *final(state),
                session,
                bytes@[0] >> 5,
                bytes@[0] & 0x1f,
                d.0,
                bytes@.skip(1 + d.1),
                r@,
            )),
    {
        match decode_voice_packet(bytes) {
            None => Vec::new(),
            Some(pk) => {
                if pk.payload.len() > usize::MAX - 24 {
                    return Vec::new();
                }
                proof {
                    let h = bytes@[0];
                    assert(h & 0x1f <= 31) by (bit_vector);
                }
                route_voice_packet(state, session, pk)
            },
        }
    }

    /// The per-connection dispatch switch: one typed control message in, the
    /// session's effects out. Unknown or server-only kinds are ignored.
    pub fn handle_message(
        state: &mut ServerState,
        session: u32,
        msg: ControlMessage,
        now: u64,
    ) -> (r: Result<Vec<Effect>, MumbleError>)
        requires
            old(state).inv(),
            old(state).clients_map().dom().contains(session),
        ensures
            final(state).inv(),
            msg matches ControlMessage::Version(v) ==> (final(state).clients_map()[session]
                == (Client { version: v.version, ..old(state).clients_map()[session] }) && (r
                matches Ok(effs) && effs@.len() == 1 && effs@[0] == (Effect::Reply {
                session,
                msg: ControlMessage::Version(VersionMsg { version: SERVER_VERSION }),
            }))),
            msg matches ControlMessage::Ping(p) ==> (final(state).clients_map()[session]
                == (Client { last_ping: now, ..old(state).clients_map()[session] }) && (r
                matches Ok(effs) && effs@.len() == 1 && effs@[0] == (Effect::Reply {
                session,
                msg: ControlMessage::Ping(PingMsg {
                    timestamp: p.timestamp,
                    good: old(state).clients_map()[session].crypt.good,
                    late: old(state).clients_map()[session].crypt.late,
                    lost: old(state).clients_map()[session].crypt.lost,
                    resync: old(state).clients_map()[session].crypt.resync,
                }),
            }))),
            msg matches ControlMessage::CryptSetup(c) ==> (final(state).clients_map()[session]
                == (Client {
                crypt: (CryptState {
                    key: c.key,
                    encrypt_nonce: c.server_nonce,
                    decrypt_nonce: c.client_nonce,
                    history: 0,
                    resync: sat_inc(old(state).clients_map()[session].crypt.resync),
                    last_good: now,
                    ..old(state).clients_map()[session].crypt
                }),
                ..old(state).clients_map()[session]
            }) && (r matches Ok(effs) && effs@.len() == 0)),
            msg matches ControlMessage::PermissionQuery(q) ==> (*final(state) == *old(state) && (
            r matches Ok(effs) && effs@.len() == 1 && effs@[0] == (Effect::Reply {
                session,
                msg: ControlMessage::PermissionQuery(PermissionQueryMsg {
                    channel_id: q.channel_id,
                    permissions: PERMISSIVE_PERMISSIONS,
                }),
            }))),
            msg matches ControlMessage::UserState(u) ==> ({
                let target = (match u.session {
                    Some(t) => t,
                    None => session,
                });
                &&& (r is Err <==> (!old(state).clients_map().dom().contains(target) || (
                u.channel_id matches Some(cid) && !old(state).channels_map().dom().contains(
                    cid,
                ))))
                &&& (r is Err ==> *final(state) == *old(state))
                &&& (r is Ok ==> {
                    let oc = old(state).clients_map()[target];
                    let newc = final(state).clients_map()[target];
                    &&& final(state).clients_map().dom() == old(state).clients_map().dom()
                    &&& newc.mute == (match u.mute {
                        Some(b) => b,
                        None => oc.mute,
                    })
                    &&& newc.deaf == (match u.deaf {
                        Some(b) => b,
                        None => oc.deaf,
                    })
                    &&& newc.self_mute == (match u.self_mute {
                        Some(b) => b,
                        None => oc.self_mute,
                    })
                    &&& newc.self_deaf == (match u.self_deaf {
                        Some(b) => b,
                        None => oc.self_deaf,
                    })
                    &&& newc.channel_id == (match u.channel_id {
                        Some(cid) => cid,
                        None => oc.channel_id,
                    })
                    &&& ServerState::covers_user_state(
                        r.unwrap()@,
                        old(state).clients_map().dom(),
                        target,
                        newc.channel_id,
                    )
                })
            }),
            msg matches ControlMessage::VoiceTarget(vt) ==> ({
                &&& (r is Err <==> !(1 <= vt.id <= NUM_TARGETS))
                &&& (r is Err ==> *final(state) == *old(state))
                &&& (r is Ok ==> {
                    let slot = final(state).clients_map()[session].targets@[vt.id - 1];
                    &&& final(state).clients_map().dom() == old(state).clients_map().dom()
                    &&& (forall|t: u32|
                        slot.sessions@.contains(t) <==> vt.slot.sessions@.contains(t))
                    &&& (forall|cid: u32|
                        slot.channels@.contains(cid) <==> vt.slot.channels@.contains(cid))
                    &&& r.unwrap()@.len() == 0
                })
            }),
            msg matches ControlMessage::ChannelState(cs) ==> ({
                &&& (cs.channel_id is None ==> {
                    &&& (r is Err <==> !(old(state).channels_map().dom().contains(cs.parent)
                        && old(state).channels_map().dom().len() + 2 < u32::MAX))
                    &&& (r is Err ==> *final(state) == *old(state))
                    &&& (r matches Ok(effs) ==> exists|cid: u32|
                        #![auto]
                        {
                            &&& crate::registry::is_first_free_channel_id(
                                old(state).channels_map(),
                                cid,
                            )
                            &&& final(state).channels_map().dom() == old(
                                state,
                            ).channels_map().dom().insert(cid)
                            &&& final(state).channels_map()[cid].name == cs.name
                            &&& final(state).channels_map()[cid].parent_id == Some(cs.parent)
                            &&& final(state).channels_map()[cid].temporary == cs.temporary
                            &&& final(state).clients_map() == old(state).clients_map()
                            &&& Self::channel_state_broadcast(
                                effs@,
                                *final(state),
                                (ChannelStateMsg {
                                    channel_id: Some(cid),
                                    parent: cs.parent,
                                    name: cs.name,
                                    description: cs.description,
                                    temporary: cs.temporary,
                                }),
                            )
                        })
                })
                &&& (cs.channel_id matches Some(cid) ==> {
                    &&& (r is Err <==> !old(state).channels_map().dom().contains(cid))
                    &&& (r is Err ==> *final(state) == *old(state))
                    &&& (r is Ok ==> {
                        &&& final(state).channels_map().dom() == old(state).channels_map().dom()
                        &&& final(state).channels_map()[cid] == (crate::chan::Channel {
                            name: cs.name,
                            description: cs.description,
                            ..old(state).channels_map()[cid]
                        })
                        &&& final(state).clients_map() == old(state).clients_map()
                    })
                })
            }),
            msg matches ControlMessage::UdpTunnel(b) ==> (r matches Ok(effs) && ({
                &&& final(state).clients_map().dom() == old(state).clients_map().dom()
                &&& final(state).socket_map() == old(state).socket_map()
                &&& final(state).awaiting_set() == old(state).awaiting_set()
                &&& final(state).channels_map() == old(state).channels_map()
                &&& ((b@.len() < 1 || crate::voice::spec_decode_varint(b@.skip(1)) is None) ==> (
                *final(state) == *old(state) && effs@.len() == 0))
                &&& ((b@.len() >= 1 && crate::voice::spec_decode_varint(b@.skip(1)) is Some
                    && b@.len() + 24 <= usize::MAX) ==> (crate::voice::spec_decode_varint(
                    b@.skip(1),
                ) matches Some(d) && crate::router::routed(
                    *old(state),
                    *final(state),
                    session,
                    b@[0] >> 5,
                    b@[0] & 0x1f,
                    d.0,
                    b@.skip(1 + d.1),
                    effs@,
                )))
            })),
            (msg is Authenticate || msg is UserRemove || msg is ChannelRemove || msg
                is CodecVersion) ==> (*final(state) == *old(state) && (r matches Ok(e)
                && e@.len() == 0)),
    {
        match msg {
            ControlMessage::Version(v) => Ok(Self::handle_version(state, session, &v)),
            ControlMessage::Ping(p) => Ok(Self::handle_ping(state, session, &p, now)),
            ControlMessage::CryptSetup(c) => Ok(
                Self::handle_crypt_setup(state, session, &c, now),
            ),
            ControlMessage::PermissionQuery(q) => Ok(Self::handle_permission_query(session, &q)),
            ControlMessage::UserState(u) => Self::handle_user_state(state, session, u),
            ControlMessage::VoiceTarget(vt) => Self::handle_voice_target(state, session, vt),
            ControlMessage::ChannelState(cs) => Self::handle_channel_state(state, session, cs),
            ControlMessage::UdpTunnel(b) => Ok(Self::handle_udp_tunnel(state, session, &b)),
            ControlMessage::Authenticate(_) => Ok(Vec::new()),
            ControlMessage::UserRemove(_) => Ok(Vec::new()),
            ControlMessage::ChannelRemove(_) => Ok(Vec::new()),
            ControlMessage::CodecVersion(_) => Ok(Vec::new()),
        }
    }

    /// A direct reply to `to` carrying the state of channel `cid`.
    pub open spec fn reply_channel_state(e: Effect, to: u32, cid: u32, st: ServerState) -> bool {
        e matches Effect::Reply { session, msg } && session == to && (msg
            matches ControlMessage::ChannelState(c) && c.channel_id == Some(cid) && c.name
            == st.channels_map()[cid].name && c.temporary == st.channels_map()[cid].temporary)
    }

    /// Every channel of `st` is announced to `to` by some reply.
    pub open spec fn covers_channel_list(effs: Seq<Effect>, to: u32, st: ServerState) -> bool {
        forall|cid: u32| #[trigger]
            st.channels_map().dom().contains(cid) ==> exists|i: int|
                0 <= i < effs.len() && Self::reply_channel_state(#[trigger] effs[i], to, cid, st)
    }

    /// A direct reply to `to` carrying the state of session `t`.
    pub open spec fn reply_user_state(e: Effect, to: u32, t: u32, st: ServerState) -> bool {
        e matches Effect::Reply { session, msg } && session == to && (msg
            matches ControlMessage::UserState(u) && u.session == Some(t) && u.channel_id == Some(
            st.clients_map()[t].channel_id,
        ) && (u.name matches Some(n) && n == st.clients_map()[t].username))
    }

    /// Every connected session of `st` is announced to `to` by some reply.
    pub open spec fn covers_user_list(effs: Seq<Effect>, to: u32, st: ServerState) -> bool {
        forall|t: u32| #[trigger]
            st.clients_map().dom().contains(t) ==> exists|i: int|
                0 <= i < effs.len() && Self::reply_user_state(#[trigger] effs[i], to, t, st)
    }

    /// Connection setup after a successful TLS handshake: validates username
    /// uniqueness, provisions the crypto session from the given key,
    /// registers the session, and replies with `CryptSetup`, `CodecVersion`,
    /// the full channel list and a `UserState` for every connected session,
    /// then broadcasts the newcomer's state. Fails — closing the connection
    /// — exactly when the username is taken, the server is full, or the id
    /// space is exhausted.
    pub fn connect_client(
        state: &mut ServerState,
        version: &VersionMsg,
        auth: AuthenticateMsg,
        key: u64,
        now: u64,
    ) -> (r: Result<(u32, Vec<Effect>), MumbleError>)
        requires
            old(state).inv(),
            auth.celt_versions@.len() <= MAX_CODECS,
        ensures
            final(state).inv(),
            r is Err ==> *final(state) == *old(state),
            r matches Err(e) ==> e == MumbleError::ForceDisconnect,
            r is Ok <==> ((forall|s: u32| #[trigger]
                old(state).clients_map().dom().contains(s) ==> old(
                    state,
                ).clients_map()[s].username@ != auth.username@) && old(
                state,
            ).clients_map().dom().len() < crate::registry::MAX_CLIENTS && old(
                state,
            ).next_session_id < u32::MAX),
            r matches Ok((sid, effects)) ==> {
                &&& sid == old(state).next_session_id
                &&& !old(state).clients_map().dom().contains(sid)
                &&& final(state).clients_map().dom() == old(state).clients_map().dom().insert(
                    sid,
                )
                &&& final(state).clients_map()[sid].username == auth.username
                &&& final(state).clients_map()[sid].channel_id
                    == crate::registry::ROOT_CHANNEL
                &&& final(state).clients_map()[sid].crypt.key == key
                &&& final(state).clients_map()[sid].udp_addr is None
                &&& final(state).awaiting_set() == old(state).awaiting_set().insert(sid)
                &&& final(state).socket_map() == old(state).socket_map()
                &&& final(state).channels_map().dom() == old(state).channels_map().dom()
                &&& (forall|c2: u32|
                    c2 != crate::registry::ROOT_CHANNEL && old(
                        state,
                    ).channels_map().dom().contains(c2) ==> final(state).channels_map()[c2]
                        == old(state).channels_map()[c2])
                &&& final(state).channels_map()[
                    crate::registry::ROOT_CHANNEL].members@.to_set() == old(
                    state,
                ).channels_map()[crate::registry::ROOT_CHANNEL].members@.to_set().insert(sid)
                &&& final(state).codec_state == old(state).codec_state
                &&& final(state).next_session_id == sid + 1
                &&& effects@.len() >= 2
                &&& effects@[0] == (Effect::Reply {
                    session: sid,
                    msg: ControlMessage::CryptSetup(CryptSetupMsg {
                        key,
                        client_nonce: 0,
                        server_nonce: 0,
                    }),
                })
                &&& effects@[1] == (Effect::Reply {
                    session: sid,
                    msg: ControlMessage::CodecVersion(old(state).codec_state.spec_codec_msg()),
                })
                &&& Self::covers_channel_list(effects@, sid, *final(state))
                &&& Self::covers_user_list(effects@, sid, *final(state))
                &&& ServerState::covers_user_state(
                    effects@,
                    final(state).clients_map().dom(),
                    sid,
                    crate::registry::ROOT_CHANNEL,
                )
            },
    {
        if state.get_client_by_name(&auth.username).is_some() {
            return Err(MumbleError::ForceDisconnect);
        }
        let crypt = CryptState::new(key, now);
        let added = state.add_client(version, auth, crypt, now);
        if added.is_none() {
            return Err(MumbleError::ForceDisconnect);
        }
        let sid = added.unwrap();
        let mut effects: Vec<Effect> = Vec::new();
        effects.push(
            Effect::Reply {
                session: sid,
                msg: ControlMessage::CryptSetup(
                    CryptSetupMsg { key, client_nonce: 0, server_nonce: 0 },
                ),
            },
        );
        effects.push(
            Effect::Reply {
                session: sid,
                msg: ControlMessage::CodecVersion(state.codec_state.get_codec_version()),
            },
        );
        let ckeys = chm_keys(&state.channels);
        let cn: usize = ckeys.len();
        let mut k: usize = 0;
        while k < cn
            invariant
                k <= cn,
                state.inv(),
                cn == ckeys@.len(),
                ckeys@.no_duplicates(),
                forall|x: u32| ckeys@.contains(x) <==> state.channels_map().dom().contains(x),
                effects@.len() == 2 + k,
                forall|j: int|
                    0 <= j < k ==> Self::reply_channel_state(
                        #[trigger] effects@[2 + j],
                        sid,
                        ckeys@[j],
                        *state,
                    ),
                effects@[0] == (Effect::Reply {
                    session: sid,
                    msg: ControlMessage::CryptSetup(CryptSetupMsg {
                        key,
                        client_nonce: 0,
                        server_nonce: 0,
                    }),
                }),
                effects@[1] == (Effect::Reply {
                    session: sid,
                    msg: ControlMessage::CodecVersion(state.codec_state.spec_codec_msg()),
                }),
            decreases cn - k,
        {
            let cid = ckeys[k];
            proof {
                assert(ckeys@.contains(ckeys@[k as int]));
            }
            let chopt = chm_get(&state.channels, cid);
            let ch = chopt.unwrap();
            effects.push(
                Effect::Reply {
                    session: sid,
                    msg: ControlMessage::ChannelState(
                        ChannelStateMsg {
                            channel_id: Some(cid),
                            parent: (match ch.parent_id {
                                Some(p) => p,
                                None => cid,
                            }),
                            name: ch.name.clone(),
                            description: ch.description.clone(),
                            temporary: ch.temporary,
                        },
                    ),
                },
            );
            k = k + 1;
        }
        let ghost after_channels = effects@;
        let ukeys = cm_keys(&state.clients);
        let un: usize = ukeys.len();
        let mut u: usize = 0;
        while u < un
            invariant
                u <= un,
                state.inv(),
                un == ukeys@.len(),
                ukeys@.no_duplicates(),
                forall|x: u32| ukeys@.contains(x) <==> state.clients_map().dom().contains(x),
                effects@.len() == after_channels.len() + u,
                forall|j: int| 0 <= j < after_channels.len() ==> effects@[j] == after_channels[j],
                forall|j: int|
                    0 <= j < u ==> Self::reply_user_state(
                        #[trigger] effects@[after_channels.len() + j],
                        sid,
                        ukeys@[j],
                        *state,
                    ),
            decreases un - u,
        {
            let t = ukeys[u];
            proof {
                assert(ukeys@.contains(ukeys@[u as int]));
            }
            let copt = cm_get(&state.clients, t);
            let c = copt.unwrap();
            effects.push(Effect::Reply { session: sid, msg: ControlMessage::UserState(
                c.get_user_state(),
            ) });
            u = u + 1;
        }
        let ghost after_users = effects@;
        let newopt = cm_get(&state.clients, sid);
        let newc = newopt.unwrap();
        let us = newc.get_user_state();
        let mut bcast = state.broadcast_message(
            MessageKind::UserState,
            &ControlMessage::UserState(us),
        );
        proof {
            Self::lemma_broadcast_user_state_covers(
                *state,
                bcast@,
                sid,
                crate::registry::ROOT_CHANNEL,
            );
        }
        let ghost bseq = bcast@;
        effects.append(&mut bcast);
        proof {
            let f = *state;
            assert(effects@ == after_users + bseq);
            assert forall|cid: u32| #[trigger]
                f.channels_map().dom().contains(cid) implies exists|i: int|
                0 <= i < effects@.len() && Self::reply_channel_state(
                    #[trigger] effects@[i],
                    sid,
                    cid,
                    f,
                ) by {
                assert(ckeys@.contains(cid));
                let j = choose|j: int| 0 <= j < ckeys@.len() && ckeys@[j] == cid;
                assert(after_channels[2 + j] == effects@[2 + j]);
                assert(Self::reply_channel_state(effects@[2 + j], sid, cid, f));
            }
            assert(Self::covers_channel_list(effects@, sid, f));
            assert forall|t: u32| #[trigger]
                f.clients_map().dom().contains(t) implies exists|i: int|
                0 <= i < effects@.len() && Self::reply_user_state(
                    #[trigger] effects@[i],
                    sid,
                    t,
                    f,
                ) by {
                assert(ukeys@.contains(t));
                let j = choose|j: int| 0 <= j < ukeys@.len() && ukeys@[j] == t;
                assert(after_users[after_channels.len() + j] == effects@[after_channels.len()
                    + j]);
                assert(Self::reply_user_state(effects@[after_channels.len() + j], sid, t, f));
            }
            assert(Self::covers_user_list(effects@, sid, f));
            assert forall|s2: u32| #[trigger]
                f.clients_map().dom().contains(s2) implies exists|i: int|
                0 <= i < effects@.len() && ServerState::mailbox_user_state(
                    #[trigger] effects@[i],
                    s2,
                    sid,
                    crate::registry::ROOT_CHANNEL,
                ) by {
                let j = choose|j: int|
                    0 <= j < bseq.len() && ServerState::mailbox_user_state(
                        #[trigger] bseq[j],
                        s2,
                        sid,
                        crate::registry::ROOT_CHANNEL,
                    );
                assert(effects@[after_users.len() + j] == bseq[j]);
            }
            assert(ServerState::covers_user_state(
                effects@,
                f.clients_map().dom(),
                sid,
                crate::registry::ROOT_CHANNEL,
            ));
        }
        Ok((sid, effects))
    }

    /// Consumes one item from the session's own mailbox: route a voice
    /// packet onward, tunnel one to this client, forward a control message,
    /// or terminate the connection.
    pub fn handle_mailbox(state: &mut ServerState, session: u32, item: ClientMessage) -> (r:
        Result<Vec<Effect>, MumbleError>)
        requires
            old(state).inv(),
            old(state).clients_map().dom().contains(session),
        ensures
            final(state).inv(),
            item is Disconnect <==> (r matches Err(e) && e == MumbleError::ForceDisconnect),
            item matches ClientMessage::SendMessage { kind, msg } ==> (*final(state) == *old(state) && (r matches Ok(effs) && effs@.len() == 1 && effs@[0] == (Effect::Reply {
                session,
                msg: msg,
            }))),
            item matches ClientMessage::SendVoicePacket(p) ==> (*final(state) == *old(state)
                && (p.payload@.len() + 24 <= usize::MAX ==> (r matches Ok(effs) && effs@.len()
                == 1 && (effs@[0] matches Effect::Reply { session: to, msg } && to == session && (
                msg matches ControlMessage::UdpTunnel(b) && b@ == crate::voice::spec_encode_cb(
                    p.typ,
                    p.target,
                    p.session,
                    p.seq,
                    p.payload@,
                )))))),
            item matches ClientMessage::RouteVoicePacket(p) ==> {
                &&& ((!old(state).clients_map().dom().contains(p.session) || p.payload@.len()
                    + 24 > usize::MAX || p.target > 31) ==> (*final(state) == *old(state) && (r
                    matches Ok(effs) && effs@.len() == 0)))
                &&& ((old(state).clients_map().dom().contains(p.session) && p.payload@.len() + 24
                    <= usize::MAX && p.target <= 31) ==> (r matches Ok(effs)
                    && crate::router::routed(
                    *old(state),
                    *final(state),
                    p.session,
                    p.typ,
                    p.target,
                    p.seq,
                    p.payload@,
                    effs@,
                )))
            },
    {
        match item {
            ClientMessage::Disconnect => Err(MumbleError::ForceDisconnect),
            ClientMessage::SendMessage { kind: _, msg } => {
                let mut r: Vec<Effect> = Vec::new();
                r.push(Effect::Reply { session, msg });
                Ok(r)
            },
            ClientMessage::SendVoicePacket(p) => {
                if p.payload.len() > usize::MAX - 24 {
                    return Ok(Vec::new());
                }
                let bytes = encode_client_bound(&p);
                let mut r: Vec<Effect> = Vec::new();
                r.push(Effect::Reply { session, msg: ControlMessage::UdpTunnel(bytes) });
                Ok(r)
            },
            ClientMessage::RouteVoicePacket(p) => {
                if p.payload.len() > usize::MAX - 24 || p.target > 31 {
                    return Ok(Vec::new());
                }
                let sender = p.session;
                let copt = cm_get(&state.clients, sender);
                if copt.is_none() {
                    return Ok(Vec::new());
                }
                let sb = VoicePacketServerBound {
                    typ: p.typ,
                    target: p.target,
                    seq: p.seq,
                    payload: p.payload,
                };
                Ok(route_voice_packet(state, sender, sb))
            },
        }
    }
}

} // verus!

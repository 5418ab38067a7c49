//! The voice router: given a decoded voice packet and its sender, computes
//! the recipient set from the sender's voice targets and channel, then
//! forwards each copy over UDP (re-encrypted for the recipient) or over the
//! recipient's TCP tunnel mailbox.

use crate::client::Client;
use crate::crypt::{nonce_succ, spec_encrypt_bytes, CryptState};
use crate::msg::{ClientMessage, Effect};
use crate::registry::ServerState;
use crate::smap::{chm_get, cm_get, cm_keys};
use crate::vecset::{copy_vec, vs_contains, vs_push};
use crate::voice::{
    decode_voice_packet, encode_client_bound, lemma_varint_len, spec_encode_client_bound, vp_eq,
    VoicePacketClientBound, VoicePacketServerBound,
};
use vstd::prelude::*;

verus! {

/// The loopback target: the packet is sent back to the sender alone.
pub const LOOPBACK_TARGET: u8 = 31;

/// Who receives a packet from `sender` addressed to `target`: the sender's
/// channel for 0, the sender alone for the loopback target, and the union of
/// a voice-target slot's explicit sessions and channel memberships otherwise.
/// The sender never receives its own packet except over loopback; recipients
/// are always connected clients.
pub open spec fn spec_recipients(st: ServerState, sender: u32, target: u8) -> Set<u32> {
    if target == LOOPBACK_TARGET {
        Set::empty().insert(sender)
    } else if target == 0 {
        Set::new(
            |t: u32|
                t != sender && st.clients_map().dom().contains(t) && st.clients_map()[t].channel_id
                    == st.clients_map()[sender].channel_id,
        )
    } else {
        let slot = st.clients_map()[sender].targets@[target - 1];
        Set::new(
            |t: u32|
                t != sender && st.clients_map().dom().contains(t) && (slot.sessions@.contains(t)
                    || exists|cid: u32|
                    #![auto]
                    slot.channels@.contains(cid) && st.channels_map().dom().contains(cid)
                        && st.channels_map()[cid].members@.contains(t)),
        )
    }
}

/// Computes the recipient sessions of a packet, duplicate-free.
pub fn compute_recipients(st: &ServerState, sender: u32, target: u8) -> (r: Vec<u32>)
    requires
        st.inv(),
        st.clients_map().dom().contains(sender),
        target <= 31,
    ensures
        r@.no_duplicates(),
        forall|t: u32| r@.contains(t) <==> spec_recipients(*st, sender, target).contains(t),
{
    let mut out: Vec<u32> = Vec::new();
    if target == LOOPBACK_TARGET {
        out.push(sender);
        proof {
            assert(out@.len() == 1 && out@[0] == sender);
            assert forall|t: u32|
                out@.contains(t) <==> spec_recipients(*st, sender, target).contains(t) by {
                if out@.contains(t) {
                    let j = choose|j: int| 0 <= j < out@.len() && out@[j] == t;
                    assert(t == sender);
                }
                if spec_recipients(*st, sender, target).contains(t) {
                    assert(t == sender);
                }
            }
        }
        return out;
    }
    if target == 0 {
        let keys = cm_keys(&st.clients);
        let kn: usize = keys.len();
        let mut k: usize = 0;
        let sopt = cm_get(&st.clients, sender);
        let sc = sopt.unwrap();
        while k < kn
            invariant
                k <= kn,
                st.inv(),
                st.clients_map().dom().contains(sender),
                sc == st.clients_map()[sender],
                kn == keys@.len(),
                keys@.no_duplicates(),
                forall|x: u32| keys@.contains(x) <==> st.clients_map().dom().contains(x),
                out@.no_duplicates(),
                out@.len() <= k,
                forall|t: u32| #[trigger]
                    out@.contains(t) ==> spec_recipients(*st, sender, 0).contains(t),
                forall|j: int|
                    0 <= j < k ==> (spec_recipients(*st, sender, 0).contains(
                        #[trigger] keys@[j],
                    ) ==> out@.contains(keys@[j])),
            decreases kn - k,
        {
            let t = keys[k];
            proof {
                assert(keys@.contains(keys@[k as int]));
            }
            if t != sender {
                let topt = cm_get(&st.clients, t);
                let tc = topt.unwrap();
                if tc.channel_id == sc.channel_id && !vs_contains(&out, t) {
                    proof {
                        assert(spec_recipients(*st, sender, 0).contains(t));
                    }
                    vs_push(&mut out, t);
                }
            }
            k = k + 1;
        }
        proof {
            assert forall|t: u32|
                out@.contains(t) <==> spec_recipients(*st, sender, 0).contains(t) by {
                if spec_recipients(*st, sender, 0).contains(t) {
                    assert(keys@.contains(t));
                    let j = choose|j: int| 0 <= j < keys@.len() && keys@[j] == t;
                }
            }
        }
        return out;
    }
    let copt = cm_get(&st.clients, sender);
    let c = copt.unwrap();
    let idx: usize = (target - 1) as usize;
    let slot_sessions: Vec<u32> = copy_vec(&c.targets[idx].sessions);
    let slot_channels: Vec<u32> = copy_vec(&c.targets[idx].channels);
    let n: usize = slot_sessions.len();
    let mut i: usize = 0;
    while i < n
        invariant
            i <= n,
            st.inv(),
            st.clients_map().dom().contains(sender),
            1 <= target <= 30,
            n == slot_sessions@.len(),
            slot_sessions@ == st.clients_map()[sender].targets@[target - 1].sessions@,
            out@.no_duplicates(),
            out@.len() <= i,
            forall|t: u32| #[trigger]
                out@.contains(t) ==> spec_recipients(*st, sender, target).contains(t),
            forall|j: int|
                0 <= j < i ==> ((#[trigger] slot_sessions@[j]) != sender
                    && st.clients_map().dom().contains(slot_sessions@[j]) ==> out@.contains(
                    slot_sessions@[j],
                )),
        decreases n - i,
    {
        let t = slot_sessions[i];
        proof {
            assert(slot_sessions@.contains(slot_sessions@[i as int]));
        }
        if t != sender {
            let present = cm_get(&st.clients, t).is_some();
            if present && !vs_contains(&out, t) {
                proof {
                    assert(spec_recipients(*st, sender, target).contains(t));
                }
                vs_push(&mut out, t);
            }
        }
        i = i + 1;
    }
    let cn: usize = slot_channels.len();
    let mut ci: usize = 0;
    while ci < cn
        invariant
            ci <= cn,
            st.inv(),
            st.clients_map().dom().contains(sender),
            1 <= target <= 30,
            cn == slot_channels@.len(),
            slot_channels@ == st.clients_map()[sender].targets@[target - 1].channels@,
            out@.no_duplicates(),
            forall|t: u32| #[trigger]
                out@.contains(t) ==> spec_recipients(*st, sender, target).contains(t),
            forall|t: u32| #[trigger]
                st.clients_map()[sender].targets@[target - 1].sessions@.contains(t) ==> (t
                    != sender && st.clients_map().dom().contains(t) ==> out@.contains(t)),
            forall|j: int, t: u32|
                #![auto]
                0 <= j < ci && st.channels_map().dom().contains(slot_channels@[j])
                    && st.channels_map()[slot_channels@[j]].members@.contains(t) && t != sender
                    ==> out@.contains(t),
        decreases cn - ci,
    {
        let cid = slot_channels[ci];
        let chopt = chm_get(&st.channels, cid);
        match chopt {
            Some(ch) => {
                let mn: usize = ch.members.len();
                let mut mi: usize = 0;
                while mi < mn
                    invariant
                        mi <= mn,
                        st.inv(),
                        st.clients_map().dom().contains(sender),
                        1 <= target <= 30,
                        ci < cn,
                        cn == slot_channels@.len(),
                        slot_channels@ == st.clients_map()[sender].targets@[target
                            - 1].channels@,
                        st.channels_map().dom().contains(slot_channels@[ci as int]),
                        ch == st.channels_map()[slot_channels@[ci as int]],
                        mn == ch.members@.len(),
                        out@.no_duplicates(),
                        forall|t: u32| #[trigger]
                            out@.contains(t) ==> spec_recipients(*st, sender, target).contains(
                                t,
                            ),
                        forall|t: u32| #[trigger]
                            st.clients_map()[sender].targets@[target
                                - 1].sessions@.contains(t) ==> (t != sender
                                && st.clients_map().dom().contains(t) ==> out@.contains(t)),
                        forall|j: int, t: u32|
                            #![auto]
                            0 <= j < ci && st.channels_map().dom().contains(slot_channels@[j])
                                && st.channels_map()[slot_channels@[j]].members@.contains(t) && t
                                != sender ==> out@.contains(t),
                        forall|j: int|
                            0 <= j < mi && (#[trigger] ch.members@[j]) != sender
                                ==> out@.contains(ch.members@[j]),
                    decreases mn - mi,
                {
                    let t = ch.members[mi];
                    proof {
                        assert(ch.members@.contains(ch.members@[mi as int]));
                    }
                    if t != sender && !vs_contains(&out, t) {
                        proof {
                            assert(st.channels_map()[slot_channels@[
                            ci as int]].members@.contains(t));
                            assert(st.clients_map().dom().contains(t));
                            assert(spec_recipients(*st, sender, target).contains(t));
                            out@.unique_seq_to_set();
                            assert forall|x: u32| out@.to_set().contains(x) implies
                                st.clients_map().dom().contains(x) by {
                                assert(out@.contains(x));
                            }
                            vstd::set_lib::lemma_len_subset(
                                out@.to_set(),
                                st.clients_map().dom(),
                            );
                        }
                        vs_push(&mut out, t);
                    }
                    mi = mi + 1;
                }
                proof {
                    assert forall|t: u32|
                        ch.members@.contains(t) && t != sender implies out@.contains(t) by {
                        let j = choose|j: int| 0 <= j < ch.members@.len() && ch.members@[j] == t;
                    }
                }
            },
            None => {},
        }
        ci = ci + 1;
    }
    proof {
        assert forall|t: u32|
            out@.contains(t) <==> spec_recipients(*st, sender, target).contains(t) by {
            if spec_recipients(*st, sender, target).contains(t) {
                if st.clients_map()[sender].targets@[target - 1].sessions@.contains(t) {
                } else {
                    let cid = choose|cid: u32|
                        #![auto]
                        st.clients_map()[sender].targets@[target - 1].channels@.contains(cid)
                            && st.channels_map().dom().contains(cid) && st.channels_map()[
                        cid].members@.contains(t);
                    let j = choose|j: int|
                        0 <= j < slot_channels@.len() && slot_channels@[j] == cid;
                }
            }
        }
    }
    out
}

/// One delivery of the packet with the given fields to recipient `t`, as the
/// state `st` stood: an encrypted datagram to a bound recipient, a tunnel
/// mailbox item otherwise.
pub open spec fn delivery_for_view(
    e: Effect,
    st: ServerState,
    t: u32,
    typ: u8,
    target: u8,
    session: u32,
    seq: u64,
    payload: Seq<u8>,
) -> bool {
    match st.clients_map()[t].udp_addr {
        Some(a) => e matches Effect::SendUdp { addr, bytes } && addr == a && bytes@
            == spec_encrypt_bytes(
            st.clients_map()[t].crypt.key,
            nonce_succ(st.clients_map()[t].crypt.encrypt_nonce),
            crate::voice::spec_encode_cb(typ, target, session, seq, payload),
        ),
        None => e matches Effect::Mailbox { session: to, item } && to == t && (item
            matches ClientMessage::SendVoicePacket(p) && p.typ == typ && p.target == target
            && p.session == session && p.seq == seq && p.payload@ == payload),
    }
}

/// One delivery of packet `cb` to recipient `t`, as the state `st` stood.
pub open spec fn delivery_for(e: Effect, st: ServerState, t: u32, cb: VoicePacketClientBound)
    -> bool {
    delivery_for_view(e, st, t, cb.typ, cb.target, cb.session, cb.seq, cb.payload@)
}

/// The routing step in full: from state `st0`, the packet with the given
/// fields sent by `sender` yields exactly one delivery per recipient, the
/// bound recipients' send nonces advance, and nothing else changes.
pub open spec fn routed(
    st0: ServerState,
    st1: ServerState,
    sender: u32,
    typ: u8,
    target: u8,
    seq: u64,
    payload: Seq<u8>,
    effs: Seq<Effect>,
) -> bool {
    &&& st1.clients_map().dom() == st0.clients_map().dom()
    &&& st1.socket_map() == st0.socket_map()
    &&& st1.awaiting_set() == st0.awaiting_set()
    &&& st1.channels_map() == st0.channels_map()
    &&& exists|rs: Seq<u32>|
        #![auto]
        {
            &&& rs.no_duplicates()
            &&& (forall|t: u32| rs.contains(t) <==> spec_recipients(st0, sender, target).contains(t))
            &&& effs.len() == rs.len()
            &&& (forall|i: int|
                0 <= i < rs.len() ==> delivery_for_view(
                    effs[i],
                    st0,
                    rs[i],
                    typ,
                    target,
                    sender,
                    seq,
                    payload,
                ))
        }
    &&& forall|t: u32|
        spec_recipients(st0, sender, target).contains(t) && st0.clients_map()[t].udp_addr
            is Some ==> st1.clients_map()[t] == (Client {
            crypt: (CryptState {
                encrypt_nonce: nonce_succ(st0.clients_map()[t].crypt.encrypt_nonce),
                ..st0.clients_map()[t].crypt
            }),
            ..st0.clients_map()[t]
        })
    &&& forall|t: u32|
        st0.clients_map().dom().contains(t) && (!spec_recipients(st0, sender, target).contains(t)
            || st0.clients_map()[t].udp_addr is None) ==> st1.clients_map()[t]
            == st0.clients_map()[t]
}

/// Routes one voice packet from `sender`: one delivery per recipient, bound
/// recipients re-encrypted under their own crypto state (advancing their
/// send nonce), unbound recipients tunneled. The router itself never blocks
/// or drops; a full mailbox is the shell's concern.
pub fn route_voice_packet(st: &mut ServerState, sender: u32, packet: VoicePacketServerBound) -> (r:
    Vec<Effect>)
    requires
        old(st).inv(),
        old(st).clients_map().dom().contains(sender),
        packet.target <= 31,
        packet.payload@.len() + 24 <= usize::MAX,
    ensures
        final(st).inv(),
        routed(
            *old(st),
            *final(st),
            sender,
            packet.typ,
            packet.target,
            packet.seq,
            packet.payload@,
            r@,
        ),
        final(st).clients_map().dom() == old(st).clients_map().dom(),
        final(st).socket_map() == old(st).socket_map(),
        final(st).awaiting_set() == old(st).awaiting_set(),
        final(st).channels_map() == old(st).channels_map(),
        exists|rs: Seq<u32>|
            #![auto]
            {
                &&& rs.no_duplicates()
                &&& (forall|t: u32|
                    rs.contains(t) <==> spec_recipients(*old(st), sender, packet.target).contains(
                        t,
                    ))
                &&& r@.len() == rs.len()
                &&& (forall|i: int|
                    0 <= i < rs.len() ==> delivery_for(
                        r@[i],
                        *old(st),
                        rs[i],
                        (VoicePacketClientBound {
                            typ: packet.typ,
                            target: packet.target,
                            session: sender,
                            seq: packet.seq,
                            payload: packet.payload,
                        }),
                    ))
            },
        forall|t: u32|
            spec_recipients(*old(st), sender, packet.target).contains(t) && old(st).clients_map()[t].udp_addr is Some ==> final(st).clients_map()[t] == (Client {
                crypt: (CryptState {
                    encrypt_nonce: nonce_succ(old(st).clients_map()[t].crypt.encrypt_nonce),
                    ..old(st).clients_map()[t].crypt
                }),
                ..old(st).clients_map()[t]
            }),
        forall|t: u32|
            old(st).clients_map().dom().contains(t) && (!spec_recipients(
                *old(st),
                sender,
                packet.target,
            ).contains(t) || old(st).clients_map()[t].udp_addr is None) ==> final(st).clients_map()[t] == old(st).clients_map()[t],
{
    let recips = compute_recipients(st, sender, packet.target);
    let cb = VoicePacketClientBound {
        typ: packet.typ,
        target: packet.target,
        session: sender,
        seq: packet.seq,
        payload: packet.payload,
    };
    proof {
        lemma_varint_len(sender as u64);
        lemma_varint_len(packet.seq);
    }
    let encoded = encode_client_bound(&cb);
    let mut out: Vec<Effect> = Vec::new();
    let n: usize = recips.len();
    let mut i: usize = 0;
    while i < n
        invariant
            i <= n,
            st.inv(),
            n == recips@.len(),
            recips@.no_duplicates(),
            st.clients_map().dom() == old(st).clients_map().dom(),
            st.socket_map() == old(st).socket_map(),
            st.awaiting_set() == old(st).awaiting_set(),
            st.channels_map() == old(st).channels_map(),
            forall|t: u32|
                recips@.contains(t) <==> spec_recipients(*old(st), sender, packet.target).contains(
                    t,
                ),
            forall|t: u32| #[trigger]
                recips@.contains(t) ==> old(st).clients_map().dom().contains(t),
            cb.typ == packet.typ && cb.target == packet.target && cb.session == sender && cb.seq
                == packet.seq && cb.payload == packet.payload,
            encoded@ == spec_encode_client_bound(cb),
            encoded@.len() + 5 <= usize::MAX,
            out@.len() == i,
            forall|j: int|
                0 <= j < i ==> delivery_for(#[trigger] out@[j], *old(st), recips@[j], cb),
            forall|t: u32|
                old(st).clients_map().dom().contains(t) && (!recips@.take(i as int).contains(t)
                    || old(st).clients_map()[t].udp_addr is None) ==> st.clients_map()[t] == old(st).clients_map()[t],
            forall|t: u32|
                recips@.take(i as int).contains(t) && old(st).clients_map()[t].udp_addr is Some
                    ==> st.clients_map()[t] == (Client {
                    crypt: (CryptState {
                        encrypt_nonce: nonce_succ(old(st).clients_map()[t].crypt.encrypt_nonce),
                        ..old(st).clients_map()[t].crypt
                    }),
                    ..old(st).clients_map()[t]
                }),
        decreases n - i,
    {
        let t = recips[i];
        proof {
            assert(recips@.contains(recips@[i as int]));
            assert(!recips@.take(i as int).contains(t)) by {
                if recips@.take(i as int).contains(t) {
                    let j = choose|j: int| 0 <= j < i && recips@.take(i as int)[j] == t;
                    assert(recips@[j] == recips@[i as int]);
                }
            }
        }
        let copt = cm_get(&st.clients, t);
        let mut c = copt.unwrap();
        let ghost st_pre = *st;
        match c.udp_addr {
            Some(a) => {
                let bytes = c.crypt.encrypt(&encoded);
                st.put_client_same_shape(t, c);
                out.push(Effect::SendUdp { addr: a, bytes });
            },
            None => {
                out.push(
                    Effect::Mailbox {
                        session: t,
                        item: ClientMessage::SendVoicePacket(cb.duplicate()),
                    },
                );
            },
        }
        proof {
            assert(recips@.take(i + 1) =~= recips@.take(i as int).push(recips@[i as int]));
            assert(recips@.take(i + 1)[i as int] == t);
            assert forall|t2: u32|
                recips@.take(i + 1).contains(t2) implies (recips@.take(i as int).contains(t2)
                || t2 == t) by {
                let tk = recips@.take(i + 1);
                let j = choose|j: int| 0 <= j < tk.len() && tk[j] == t2;
                if j < i {
                    assert(recips@.take(i as int)[j] == t2);
                }
            }
            assert forall|t2: u32|
                old(st).clients_map().dom().contains(t2) && (!recips@.take(i + 1).contains(t2)
                    || old(st).clients_map()[t2].udp_addr is None) implies st.clients_map()[t2]
                == old(st).clients_map()[t2] by {
                if t2 == t {
                    assert(recips@.take(i + 1).contains(t));
                    assert(old(st).clients_map()[t].udp_addr is None);
                    assert(st_pre.clients_map()[t] == old(st).clients_map()[t]);
                } else {
                    assert(st_pre.clients_map()[t2] == old(st).clients_map()[t2]);
                }
            }
            assert forall|t2: u32|
                recips@.take(i + 1).contains(t2) && old(st).clients_map()[t2].udp_addr is Some
                    implies st.clients_map()[t2] == (Client {
                    crypt: (CryptState {
                        encrypt_nonce: nonce_succ(old(st).clients_map()[t2].crypt.encrypt_nonce),
                        ..old(st).clients_map()[t2].crypt
                    }),
                    ..old(st).clients_map()[t2]
                }) by {
                if t2 != t {
                    assert(recips@.take(i as int).contains(t2));
                } else {
                    assert(st_pre.clients_map()[t] == old(st).clients_map()[t]);
                }
            }
        }
        i = i + 1;
    }
    proof {
        assert(recips@.take(n as int) =~= recips@);
    }
    out
}

/// One UDP datagram's worth of work: an unauthenticated server ping is
/// answered in place; anything else runs through the crypto demultiplexer
/// and, on a successful decrypt, the voice router. Nothing else ever
/// changes the registry from the UDP path.
#[verifier::rlimit(80)]
pub fn handle_udp_datagram(
    st: &mut ServerState,
    bytes: &Vec<u8>,
    from: crate::msg::UdpAddr,
    now: u64,
    max_users: u32,
    bandwidth: u32,
) -> (r: Vec<Effect>)
    requires
        old(st).inv(),
    ensures
        final(st).inv(),
        final(st).clients_map().dom() == old(st).clients_map().dom(),
        final(st).channels_map() == old(st).channels_map(),
        crate::frame::spec_is_udp_ping(bytes@) ==> (*final(st) == *old(st) && r@.len() == 1 && (
        r@[0] matches Effect::SendUdp { addr, bytes: reply } && addr == from)),
        (!crate::frame::spec_is_udp_ping(bytes@) && !old(st).socket_map().dom().contains(from)
            && (forall|t: u32| #[trigger]
            old(st).awaiting_set().contains(t) ==> crate::crypt::spec_decrypt_result(
                old(st).clients_map()[t].crypt,
                bytes@,
                now,
            ) is Err)) ==> (*final(st) == *old(st) && r@.len() == 0),
        (!crate::frame::spec_is_udp_ping(bytes@) && !old(st).socket_map().dom().contains(from)
            && (exists|t: u32| #[trigger]
            old(st).awaiting_set().contains(t) && crate::crypt::spec_decrypt_result(
                old(st).clients_map()[t].crypt,
                bytes@,
                now,
            ) is Ok)) ==> ({
            let t0 = final(st).socket_map()[from];
            &&& final(st).socket_map().dom().contains(from)
            &&& old(st).awaiting_set().contains(t0)
            &&& !final(st).awaiting_set().contains(t0)
            &&& final(st).awaiting_set() == old(st).awaiting_set().remove(t0)
            &&& (crate::crypt::spec_decrypt_result(old(st).clients_map()[t0].crypt, bytes@, now)
                matches Ok(plain) && ({
                let decodes = plain.len() >= 1 && crate::voice::spec_decode_varint(
                    plain.skip(1),
                ) is Some;
                let dropped = !decodes || (crate::voice::spec_decode_varint(plain.skip(1))
                    matches Some(d0) && plain.skip(1 + d0.1).len() + 24 > usize::MAX);
                &&& (dropped ==> (r@.len() == 0 && final(st).clients_map() == old(st).clients_map().insert(t0, (Client {
                    udp_addr: Some(from),
                    crypt: crate::crypt::spec_decrypt_state(
                        old(st).clients_map()[t0].crypt,
                        bytes@,
                        now,
                    ),
                    ..old(st).clients_map()[t0]
                }))))
                &&& (!dropped && decodes
                    ==> (crate::voice::spec_decode_varint(plain.skip(1)) matches Some(d) && exists|
                    mid: ServerState,
                |
                    #![trigger mid.clients_map()]
                    {
                        &&& mid.clients_map() == old(st).clients_map().insert(t0, (Client {
                            udp_addr: Some(from),
                            crypt: crate::crypt::spec_decrypt_state(
                                old(st).clients_map()[t0].crypt,
                                bytes@,
                                now,
                            ),
                            ..old(st).clients_map()[t0]
                        }))
                        &&& mid.socket_map() == old(st).socket_map().insert(from, t0)
                        &&& mid.awaiting_set() == old(st).awaiting_set().remove(t0)
                        &&& mid.channels_map() == old(st).channels_map()
                        &&& routed(
                            mid,
                            *final(st),
                            t0,
                            plain[0] >> 5,
                            plain[0] & 0x1f,
                            d.0,
                            plain.skip(1 + d.1),
                            r@,
                        )
                    }))
            }))
        }),
        (!crate::frame::spec_is_udp_ping(bytes@) && old(st).socket_map().dom().contains(from))
            ==> ({
            let s = old(st).socket_map()[from];
            let res = crate::crypt::spec_decrypt_result(old(st).clients_map()[s].crypt, bytes@, now);
            &&& final(st).socket_map() == old(st).socket_map()
            &&& final(st).awaiting_set() == old(st).awaiting_set()
            &&& (res is Err ==> (r@.len() == 0 && final(st).clients_map() == old(st).clients_map().insert(s, (Client {
                crypt: crate::crypt::spec_decrypt_state(
                    old(st).clients_map()[s].crypt,
                    bytes@,
                    now,
                ),
                ..old(st).clients_map()[s]
            }))))
            &&& (res matches Ok(plain) ==> ({
                let decodes = plain.len() >= 1 && crate::voice::spec_decode_varint(
                    plain.skip(1),
                ) is Some;
                let dropped = !decodes || (crate::voice::spec_decode_varint(plain.skip(1))
                    matches Some(d0) && plain.skip(1 + d0.1).len() + 24 > usize::MAX);
                &&& (dropped ==> (r@.len() == 0 && final(st).clients_map() == old(st).clients_map().insert(s, (Client {
                    crypt: crate::crypt::spec_decrypt_state(
                        old(st).clients_map()[s].crypt,
                        bytes@,
                        now,
                    ),
                    ..old(st).clients_map()[s]
                }))))
                &&& (!dropped && decodes
                    ==> (crate::voice::spec_decode_varint(plain.skip(1)) matches Some(d) && exists|
                    mid: ServerState,
                |
                    #![trigger mid.clients_map()]
                    {
                        &&& mid.clients_map() == old(st).clients_map().insert(s, (Client {
                            crypt: crate::crypt::spec_decrypt_state(
                                old(st).clients_map()[s].crypt,
                                bytes@,
                                now,
                            ),
                            ..old(st).clients_map()[s]
                        }))
                        &&& mid.socket_map() == old(st).socket_map()
                        &&& mid.awaiting_set() == old(st).awaiting_set()
                        &&& mid.channels_map() == old(st).channels_map()
                        &&& routed(
                            mid,
                            *final(st),
                            s,
                            plain[0] >> 5,
                            plain[0] & 0x1f,
                            d.0,
                            plain.skip(1 + d.1),
                            r@,
                        )
                    }))
            }))
        }),
{
    if crate::frame::is_udp_ping(bytes) {
        let ident: u32 = if bytes.len() >= 8 {
            crate::wire::read_u32_be(bytes, 4)
        } else {
            0
        };
        let users = crate::smap::cm_len(&st.clients) as u32;
        let reply = crate::frame::encode_ping_reply(ident, now, users, max_users, bandwidth);
        let mut out: Vec<Effect> = Vec::new();
        out.push(Effect::SendUdp { addr: from, bytes: reply });
        return out;
    }
    match st.find_client_with_decrypt(bytes, from, now) {
        None => {
            proof {
                if old(st).socket_map().dom().contains(from) {
                    let s = old(st).socket_map()[from];
                    assert(old(st).clients_map().dom().contains(s));
                    assert(st.clients_map() =~= old(st).clients_map().insert(s, (Client {
                        crypt: crate::crypt::spec_decrypt_state(
                            old(st).clients_map()[s].crypt,
                            bytes@,
                            now,
                        ),
                        ..old(st).clients_map()[s]
                    })));
                }
            }
            Vec::new()
        },
        Some((session, plain)) => {
            let ghost mid_state = *st;
            proof {
                if old(st).socket_map().dom().contains(from) {
                    let s = old(st).socket_map()[from];
                    assert(old(st).clients_map().dom().contains(s));
                    assert(session == s);
                    assert(mid_state.clients_map() =~= old(st).clients_map().insert(s, (Client {
                        crypt: crate::crypt::spec_decrypt_state(
                            old(st).clients_map()[s].crypt,
                            bytes@,
                            now,
                        ),
                        ..old(st).clients_map()[s]
                    })));
                } else {
                    assert(mid_state.socket_map()[from] == session);
                    assert(old(st).clients_map().dom().contains(session));
                    assert(mid_state.clients_map() =~= old(st).clients_map().insert(
                        session,
                        (Client {
                            udp_addr: Some(from),
                            crypt: crate::crypt::spec_decrypt_state(
                                old(st).clients_map()[session].crypt,
                                bytes@,
                                now,
                            ),
                            ..old(st).clients_map()[session]
                        }),
                    ));
                }
            }
            match decode_voice_packet(&plain) {
                None => Vec::new(),
                Some(pk) => {
                    if pk.payload.len() > usize::MAX - 24 {
                        return Vec::new();
                    }
                    proof {
                        let h = plain@[0];
                        assert(h & 0x1f <= 31) by (bit_vector);
                    }
                    let out = route_voice_packet(st, session, pk);
                    proof {
                        let d = crate::voice::spec_decode_varint(plain@.skip(1)).unwrap();
                        assert(routed(
                            mid_state,
                            *st,
                            session,
                            plain@[0] >> 5,
                            plain@[0] & 0x1f,
                            d.0,
                            plain@.skip(1 + d.1),
                            out@,
                        ));
                    }
                    out
                },
            }
        },
    }
}

} // verus!

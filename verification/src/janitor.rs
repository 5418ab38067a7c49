//! The janitor: a periodic sweep enforcing liveness and crypto-resync
//! policy. Sessions whose mailbox closed or whose last control ping is older
//! than the timeout are removed; live sessions without a recent good UDP
//! packet get their crypto reset so the client renegotiates.

use crate::client::Client;
use crate::crypt::{sat_inc, CryptState};
use crate::msg::{ClientMessage, ControlMessage, CryptSetupMsg, Effect};
use crate::registry::ServerState;
use crate::smap::cm_keys;
use crate::vecset::{vs_contains, vs_push};
use vstd::prelude::*;

verus! {

/// Milliseconds without a control ping after which a session is reaped.
pub const PING_TIMEOUT_MS: u64 = 30_000;

/// Milliseconds without a good UDP packet after which crypto is reset.
pub const CRYPT_STALE_MS: u64 = 8_000;

/// Whether the sweep at `now` removes session `s`: its mailbox closed, or
/// its last ping is older than the timeout.
pub open spec fn janitor_removes(st: ServerState, now: u64, closed: Seq<u32>, s: u32) -> bool {
    st.clients_map().dom().contains(s) && (closed.contains(s) || st.clients_map()[s].last_ping
        + PING_TIMEOUT_MS < now)
}

/// Whether the sweep at `now` resets session `s`'s crypto: it stays, but its
/// last good UDP packet is stale.
pub open spec fn janitor_resets(st: ServerState, now: u64, closed: Seq<u32>, s: u32) -> bool {
    st.clients_map().dom().contains(s) && !janitor_removes(st, now, closed, s)
        && st.clients_map()[s].crypt.last_good + CRYPT_STALE_MS < now
}

/// The effect telling session `s`'s mailbox to exit is among `effs`.
pub open spec fn has_disconnect_signal(effs: Seq<Effect>, s: u32) -> bool {
    exists|i: int|
        0 <= i < effs.len() && effs[i] == (Effect::Mailbox {
            session: s,
            item: ClientMessage::Disconnect,
        })
}

/// A `CryptSetup` renegotiation reply to `s`, carrying its key and send
/// nonce, is among `effs`.
pub open spec fn has_crypt_setup_reply(effs: Seq<Effect>, s: u32, key: u64, server_nonce: u64)
    -> bool {
    exists|i: int|
        0 <= i < effs.len() && effs[i] == (Effect::Reply {
            session: s,
            msg: ControlMessage::CryptSetup(CryptSetupMsg { key, client_nonce: 0, server_nonce }),
        })
}

/// What one sweep effect may be: a renegotiation reply to a session the
/// sweep resets, a mailbox-exit signal or a `UserRemove` announcement for a
/// session the sweep removes, or the `ChannelRemove` of a collected channel.
/// In particular, untouched sessions receive nothing addressed to them, and
/// no removed session is asked to renegotiate.
pub open spec fn sweep_effect_ok(st: ServerState, now: u64, closed: Seq<u32>, e: Effect) -> bool {
    ||| exists|s: u32|
        #![auto]
        janitor_resets(st, now, closed, s) && e == (Effect::Reply {
            session: s,
            msg: ControlMessage::CryptSetup(CryptSetupMsg {
                key: st.clients_map()[s].crypt.key,
                client_nonce: 0,
                server_nonce: st.clients_map()[s].crypt.encrypt_nonce,
            }),
        })
    ||| exists|s: u32|
        #![auto]
        janitor_removes(st, now, closed, s) && (e == (Effect::Mailbox {
            session: s,
            item: ClientMessage::Disconnect,
        }) || ServerState::mailbox_user_remove(e, ServerState::effect_target(e), s))
    ||| exists|cid: u32|
        #![auto]
        ServerState::mailbox_channel_remove(e, ServerState::effect_target(e), cid)
}

/// Appending effects preserves the presence of a signal.
proof fn lemma_signals_extend(a: Seq<Effect>, b: Seq<Effect>)
    ensures
        forall|s: u32, key: u64, sn: u64| #[trigger]
            has_crypt_setup_reply(a, s, key, sn) ==> has_crypt_setup_reply(a + b, s, key, sn),
        forall|s: u32| #[trigger] has_disconnect_signal(a, s) ==> has_disconnect_signal(a + b, s),
{
    assert forall|s: u32, key: u64, sn: u64| #[trigger]
        has_crypt_setup_reply(a, s, key, sn) implies has_crypt_setup_reply(a + b, s, key, sn) by {
        let i = choose|i: int|
            0 <= i < a.len() && a[i] == (Effect::Reply {
                session: s,
                msg: ControlMessage::CryptSetup(
                    CryptSetupMsg { key, client_nonce: 0, server_nonce: sn },
                ),
            });
        assert((a + b)[i] == a[i]);
    }
    assert forall|s: u32| #[trigger]
        has_disconnect_signal(a, s) implies has_disconnect_signal(a + b, s) by {
        let i = choose|i: int|
            0 <= i < a.len() && a[i] == (Effect::Mailbox {
                session: s,
                item: ClientMessage::Disconnect,
            });
        assert((a + b)[i] == a[i]);
    }
}

/// A `UserRemove` coverage survives appending effects and shrinking the
/// audience.
proof fn lemma_covers_extend(a: Seq<Effect>, b: Seq<Effect>, t1: Set<u32>, t2: Set<u32>, rm: u32)
    requires
        ServerState::covers_user_remove(a, t1, rm),
        t2.subset_of(t1),
    ensures
        ServerState::covers_user_remove(a + b, t2, rm),
{
    assert forall|s: u32| #[trigger] t2.contains(s) implies exists|i: int|
        0 <= i < (a + b).len() && ServerState::mailbox_user_remove(#[trigger] (a + b)[i], s, rm) by {
        assert(t1.contains(s));
        let i = choose|i: int|
            0 <= i < a.len() && ServerState::mailbox_user_remove(#[trigger] a[i], s, rm);
        assert((a + b)[i] == a[i]);
    }
}

/// A `UserRemove` coverage by a suffix covers the concatenation.
proof fn lemma_covers_prepend(a: Seq<Effect>, b: Seq<Effect>, targets: Set<u32>, rm: u32)
    requires
        ServerState::covers_user_remove(b, targets, rm),
    ensures
        ServerState::covers_user_remove(a + b, targets, rm),
{
    assert forall|s: u32| #[trigger] targets.contains(s) implies exists|i: int|
        0 <= i < (a + b).len() && ServerState::mailbox_user_remove(#[trigger] (a + b)[i], s, rm) by {
        let i = choose|i: int|
            0 <= i < b.len() && ServerState::mailbox_user_remove(#[trigger] b[i], s, rm);
        assert((a + b)[a.len() + i] == b[i]);
    }
}

/// One janitor sweep at time `now`; `closed` lists the sessions whose egress
/// mailbox the shell observed closed. Scans first, then applies: reaped
/// sessions are disconnected, stale ones re-enter the awaiting-UDP state
/// with a fresh `CryptSetup` on the way. Every session the sweep does not
/// touch is left exactly as it was.
pub fn clean_run(st: &mut ServerState, now: u64, closed: &Vec<u32>) -> (r: Vec<Effect>)
    requires
        old(st).inv(),
    ensures
        final(st).inv(),
        forall|s: u32| #[trigger]
            old(st).clients_map().dom().contains(s) ==> (janitor_removes(
                *old(st),
                now,
                closed@,
                s,
            ) <==> !final(st).clients_map().dom().contains(s)),
        forall|s: u32|
            !old(st).clients_map().dom().contains(s) ==> !final(st).clients_map().dom().contains(
                s,
            ),
        forall|s: u32| #[trigger]
            janitor_resets(*old(st), now, closed@, s) ==> {
                &&& final(st).awaiting_set().contains(s)
                &&& final(st).clients_map()[s] == (Client {
                    udp_addr: None,
                    crypt: (CryptState {
                        decrypt_nonce: 0,
                        history: 0,
                        resync: sat_inc(old(st).clients_map()[s].crypt.resync),
                        last_good: now,
                        ..old(st).clients_map()[s].crypt
                    }),
                    ..old(st).clients_map()[s]
                })
                &&& has_crypt_setup_reply(
                    r@,
                    s,
                    old(st).clients_map()[s].crypt.key,
                    old(st).clients_map()[s].crypt.encrypt_nonce,
                )
            },
        forall|s: u32| #[trigger]
            old(st).clients_map().dom().contains(s) && !janitor_removes(
                *old(st),
                now,
                closed@,
                s,
            ) && !janitor_resets(*old(st), now, closed@, s) ==> final(st).clients_map()[s] == old(st).clients_map()[s],
        forall|s: u32| #[trigger]
            janitor_removes(*old(st), now, closed@, s) ==> has_disconnect_signal(r@, s)
                && ServerState::covers_user_remove(r@, final(st).clients_map().dom(), s),
        forall|i: int| 0 <= i < r@.len() ==> sweep_effect_ok(*old(st), now, closed@, #[trigger] r@[i]),
{
    let keys = cm_keys(&st.clients);
    let n: usize = keys.len();
    let mut to_remove: Vec<u32> = Vec::new();
    let mut to_reset: Vec<u32> = Vec::new();
    let mut i: usize = 0;
    while i < n
        invariant
            i <= n,
            st.inv(),
            *st == *old(st),
            n == keys@.len(),
            keys@.no_duplicates(),
            forall|k: u32| keys@.contains(k) <==> st.clients_map().dom().contains(k),
            to_remove@.no_duplicates(),
            to_reset@.no_duplicates(),
            to_remove@.len() <= i,
            to_reset@.len() <= i,
            forall|s: u32| #[trigger]
                to_remove@.contains(s) ==> janitor_removes(*old(st), now, closed@, s),
            forall|s: u32| #[trigger]
                to_reset@.contains(s) ==> janitor_resets(*old(st), now, closed@, s),
            forall|j: int|
                0 <= j < i ==> (janitor_removes(*old(st), now, closed@, #[trigger] keys@[j])
                    ==> to_remove@.contains(keys@[j])),
            forall|j: int|
                0 <= j < i ==> (janitor_resets(*old(st), now, closed@, #[trigger] keys@[j])
                    ==> to_reset@.contains(keys@[j])),
        decreases n - i,
    {
        let s = keys[i];
        proof {
            assert(keys@.contains(keys@[i as int]));
        }
        let copt = st.get_client(s);
        let c = copt.unwrap();
        let is_closed = vs_contains(closed, s);
        let stale_ping = now > PING_TIMEOUT_MS && c.last_ping < now - PING_TIMEOUT_MS;
        if is_closed || stale_ping {
            if !vs_contains(&to_remove, s) {
                vs_push(&mut to_remove, s);
            }
        } else {
            let stale_crypt = now > CRYPT_STALE_MS && c.crypt.last_good < now - CRYPT_STALE_MS;
            if stale_crypt {
                if !vs_contains(&to_reset, s) {
                    vs_push(&mut to_reset, s);
                }
            }
        }
        i = i + 1;
    }
    let mut effects: Vec<Effect> = Vec::new();
    let rn: usize = to_reset.len();
    let mut ri: usize = 0;
    while ri < rn
        invariant
            ri <= rn,
            st.inv(),
            rn == to_reset@.len(),
            to_reset@.no_duplicates(),
            forall|s: u32| #[trigger]
                to_reset@.contains(s) ==> janitor_resets(*old(st), now, closed@, s),
            st.clients_map().dom() == old(st).clients_map().dom(),
            forall|s: u32|
                old(st).clients_map().dom().contains(s) && !to_reset@.take(ri as int).contains(
                    s,
                ) ==> st.clients_map()[s] == old(st).clients_map()[s],
            forall|j: int|
                0 <= j < ri ==> {
                    let s = #[trigger] to_reset@[j];
                    &&& st.awaiting_set().contains(s)
                    &&& st.clients_map()[s] == (Client {
                        udp_addr: None,
                        crypt: (CryptState {
                            decrypt_nonce: 0,
                            history: 0,
                            resync: sat_inc(old(st).clients_map()[s].crypt.resync),
                            last_good: now,
                            ..old(st).clients_map()[s].crypt
                        }),
                        ..old(st).clients_map()[s]
                    })
                    &&& has_crypt_setup_reply(
                        effects@,
                        s,
                        old(st).clients_map()[s].crypt.key,
                        old(st).clients_map()[s].crypt.encrypt_nonce,
                    )
                },
            forall|i: int|
                0 <= i < effects@.len() ==> sweep_effect_ok(
                    *old(st),
                    now,
                    closed@,
                    #[trigger] effects@[i],
                ),
        decreases rn - ri,
    {
        let s = to_reset[ri];
        proof {
            assert(to_reset@.contains(to_reset@[ri as int]));
            assert(!to_reset@.take(ri as int).contains(s)) by {
                if to_reset@.take(ri as int).contains(s) {
                    let j = choose|j: int| 0 <= j < ri && to_reset@.take(ri as int)[j] == s;
                    assert(to_reset@[j] == to_reset@[ri as int]);
                }
            }
        }
        let ghost st_pre = *st;
        let ghost eff_pre = effects@;
        match st.reset_client_crypt(s, now) {
            Some(mut e) => {
                let ghost eseq = e@;
                effects.append(&mut e);
                proof {
                    lemma_signals_extend(eff_pre, eseq);
                    assert(effects@ == eff_pre + eseq);
                    assert(st_pre.clients_map()[s] == old(st).clients_map()[s]);
                    assert(eseq[0] == (Effect::Reply {
                        session: s,
                        msg: ControlMessage::CryptSetup(CryptSetupMsg {
                            key: old(st).clients_map()[s].crypt.key,
                            client_nonce: 0,
                            server_nonce: old(st).clients_map()[s].crypt.encrypt_nonce,
                        }),
                    }));
                    assert(effects@[eff_pre.len() as int] == eseq[0]);
                    assert(has_crypt_setup_reply(
                        effects@,
                        s,
                        old(st).clients_map()[s].crypt.key,
                        old(st).clients_map()[s].crypt.encrypt_nonce,
                    ));
                    assert forall|i2: int|
                        0 <= i2 < effects@.len() implies sweep_effect_ok(
                        *old(st),
                        now,
                        closed@,
                        #[trigger] effects@[i2],
                    ) by {
                        if i2 < eff_pre.len() {
                            assert(effects@[i2] == eff_pre[i2]);
                        } else {
                            assert(effects@[i2] == eseq[i2 - eff_pre.len()]);
                            assert(eseq.len() == 1);
                            assert(janitor_resets(*old(st), now, closed@, s));
                        }
                    }
                }
            },
            None => {},
        }
        proof {
            assert(to_reset@.take(ri + 1) =~= to_reset@.take(ri as int).push(
                to_reset@[ri as int],
            ));
            assert forall|s2: u32|
                old(st).clients_map().dom().contains(s2) && !to_reset@.take(ri + 1).contains(
                    s2,
                ) implies st.clients_map()[s2] == old(st).clients_map()[s2] by {
                let tk = to_reset@.take(ri + 1);
                assert(tk[ri as int] == s);
                assert(s2 != s);
                assert(!to_reset@.take(ri as int).contains(s2)) by {
                    if to_reset@.take(ri as int).contains(s2) {
                        let j = choose|j: int|
                            0 <= j < ri && to_reset@.take(ri as int)[j] == s2;
                        assert(tk[j] == s2);
                    }
                }
                assert(st_pre.clients_map()[s2] == old(st).clients_map()[s2]);
            }
            assert forall|j: int| 0 <= j < ri + 1 implies {
                let s2 = #[trigger] to_reset@[j];
                &&& st.awaiting_set().contains(s2)
                &&& st.clients_map()[s2] == (Client {
                    udp_addr: None,
                    crypt: (CryptState {
                        decrypt_nonce: 0,
                        history: 0,
                        resync: sat_inc(old(st).clients_map()[s2].crypt.resync),
                        last_good: now,
                        ..old(st).clients_map()[s2].crypt
                    }),
                    ..old(st).clients_map()[s2]
                })
                &&& has_crypt_setup_reply(
                    effects@,
                    s2,
                    old(st).clients_map()[s2].crypt.key,
                    old(st).clients_map()[s2].crypt.encrypt_nonce,
                )
            } by {
                let s2 = to_reset@[j];
                if j < ri {
                    assert(s2 != s);
                } else {
                    assert(st_pre.clients_map()[s] == old(st).clients_map()[s]);
                }
            }
        }
        ri = ri + 1;
    }
    proof {
        assert(to_reset@.take(rn as int) =~= to_reset@);
    }
    let ghost mid = *st;
    let bn: usize = to_remove.len();
    let mut bi: usize = 0;
    while bi < bn
        invariant
            bi <= bn,
            st.inv(),
            bn == to_remove@.len(),
            to_remove@.no_duplicates(),
            forall|s: u32| #[trigger]
                to_remove@.contains(s) ==> janitor_removes(*old(st), now, closed@, s),
            mid.clients_map().dom() == old(st).clients_map().dom(),
            forall|s: u32| #[trigger]
                st.clients_map().dom().contains(s) <==> (old(st).clients_map().dom().contains(s)
                    && !to_remove@.take(bi as int).contains(s)),
            forall|s: u32|
                st.clients_map().dom().contains(s) ==> st.clients_map()[s] == mid.clients_map()[
                s],
            forall|s: u32| #[trigger]
                to_reset@.contains(s) && st.clients_map().dom().contains(s) ==> {
                    &&& st.awaiting_set().contains(s)
                    &&& st.clients_map()[s].udp_addr is None
                    &&& st.clients_map()[s].crypt.resync == sat_inc(
                        old(st).clients_map()[s].crypt.resync,
                    )
                    &&& st.clients_map()[s].crypt.last_good == now
                },
            forall|j: int|
                0 <= j < rn ==> has_crypt_setup_reply(
                    effects@,
                    #[trigger] to_reset@[j],
                    old(st).clients_map()[to_reset@[j]].crypt.key,
                    old(st).clients_map()[to_reset@[j]].crypt.encrypt_nonce,
                ),
            forall|j: int|
                0 <= j < bi ==> has_disconnect_signal(effects@, #[trigger] to_remove@[j]),
            forall|j: int|
                0 <= j < bi ==> ServerState::covers_user_remove(
                    effects@,
                    st.clients_map().dom(),
                    #[trigger] to_remove@[j],
                ),
            forall|i: int|
                0 <= i < effects@.len() ==> sweep_effect_ok(
                    *old(st),
                    now,
                    closed@,
                    #[trigger] effects@[i],
                ),
        decreases bn - bi,
    {
        let s = to_remove[bi];
        proof {
            assert(to_remove@.contains(to_remove@[bi as int]));
            assert(!to_remove@.take(bi as int).contains(s)) by {
                if to_remove@.take(bi as int).contains(s) {
                    let j = choose|j: int| 0 <= j < bi && to_remove@.take(bi as int)[j] == s;
                    assert(to_remove@[j] == to_remove@[bi as int]);
                }
            }
        }
        let ghost st_pre = *st;
        let ghost eff_pre = effects@;
        let mut e = st.disconnect(s);
        let ghost eseq = e@;
        effects.append(&mut e);
        proof {
            assert(effects@ == eff_pre + eseq);
            assert(st_pre.clients_map().dom().contains(s));
            lemma_signals_extend(eff_pre, eseq);
            assert(eseq[0] == (Effect::Mailbox { session: s, item: ClientMessage::Disconnect }));
            assert(effects@[eff_pre.len() as int] == eseq[0]);
            assert(has_disconnect_signal(effects@, s));
            assert(st.clients_map().dom() == st_pre.clients_map().dom().remove(s));
            assert(st.clients_map().dom().subset_of(st_pre.clients_map().dom()));
            assert(ServerState::covers_user_remove(
                eseq,
                st.clients_map().dom(),
                s,
            )) by {
                assert forall|t: u32| #[trigger]
                    st.clients_map().dom().contains(t) implies exists|i2: int|
                    0 <= i2 < eseq.len() && ServerState::mailbox_user_remove(
                        #[trigger] eseq[i2],
                        t,
                        s,
                    ) by {
                    assert(st_pre.clients_map().dom().remove(s).contains(t));
                }
            }
            lemma_covers_prepend(eff_pre, eseq, st.clients_map().dom(), s);
            assert forall|j: int|
                0 <= j < bi + 1 implies ServerState::covers_user_remove(
                effects@,
                st.clients_map().dom(),
                #[trigger] to_remove@[j],
            ) by {
                if j < bi {
                    lemma_covers_extend(
                        eff_pre,
                        eseq,
                        st_pre.clients_map().dom(),
                        st.clients_map().dom(),
                        to_remove@[j],
                    );
                }
            }
            assert forall|j: int|
                0 <= j < rn implies has_crypt_setup_reply(
                effects@,
                #[trigger] to_reset@[j],
                old(st).clients_map()[to_reset@[j]].crypt.key,
                old(st).clients_map()[to_reset@[j]].crypt.encrypt_nonce,
            ) by {}
            let och = st_pre.clients_map()[s].channel_id;
            assert forall|i2: int|
                0 <= i2 < effects@.len() implies sweep_effect_ok(
                *old(st),
                now,
                closed@,
                #[trigger] effects@[i2],
            ) by {
                if i2 < eff_pre.len() {
                    assert(effects@[i2] == eff_pre[i2]);
                } else {
                    let k = i2 - eff_pre.len();
                    assert(effects@[i2] == eseq[k]);
                    assert(janitor_removes(*old(st), now, closed@, s));
                    assert(eseq[k] == (Effect::Mailbox {
                        session: s,
                        item: ClientMessage::Disconnect,
                    }) || ServerState::mailbox_user_remove(
                        eseq[k],
                        ServerState::effect_target(eseq[k]),
                        s,
                    ) || ServerState::mailbox_channel_remove(
                        eseq[k],
                        ServerState::effect_target(eseq[k]),
                        och,
                    ));
                }
            }
            assert(to_remove@.take(bi + 1) =~= to_remove@.take(bi as int).push(
                to_remove@[bi as int],
            ));
            assert forall|s2: u32| #[trigger]
                st.clients_map().dom().contains(s2) <==> (old(st).clients_map().dom().contains(
                    s2,
                ) && !to_remove@.take(bi + 1).contains(s2)) by {
                let tk = to_remove@.take(bi + 1);
                assert(tk[bi as int] == s);
                if st.clients_map().dom().contains(s2) {
                    assert(s2 != s);
                    assert(!to_remove@.take(bi as int).contains(s2)) by {
                        if to_remove@.take(bi as int).contains(s2) {
                            let j = choose|j: int|
                                0 <= j < bi && to_remove@.take(bi as int)[j] == s2;
                            assert(tk[j] == s2);
                        }
                    }
                } else {
                    if old(st).clients_map().dom().contains(s2) && !tk.contains(s2) {
                        assert(!to_remove@.take(bi as int).contains(s2)) by {
                            if to_remove@.take(bi as int).contains(s2) {
                                let j = choose|j: int|
                                    0 <= j < bi && to_remove@.take(bi as int)[j] == s2;
                                assert(tk[j] == s2);
                            }
                        }
                        assert(st_pre.clients_map().dom().contains(s2));
                        assert(s2 != s);
                        assert(false);
                    }
                }
            }
        }
        bi = bi + 1;
    }
    proof {
        assert(to_remove@.take(bn as int) =~= to_remove@);
        assert forall|s: u32| #[trigger]
            old(st).clients_map().dom().contains(s) implies (janitor_removes(
            *old(st),
            now,
            closed@,
            s,
        ) <==> !st.clients_map().dom().contains(s)) by {
            assert(keys@.contains(s));
            let j = choose|j: int| 0 <= j < keys@.len() && keys@[j] == s;
        }
        assert forall|s: u32| #[trigger]
            janitor_resets(*old(st), now, closed@, s) implies st.awaiting_set().contains(s)
            && st.clients_map()[s] == (Client {
            udp_addr: None,
            crypt: (CryptState {
                decrypt_nonce: 0,
                history: 0,
                resync: sat_inc(old(st).clients_map()[s].crypt.resync),
                last_good: now,
                ..old(st).clients_map()[s].crypt
            }),
            ..old(st).clients_map()[s]
        }) && has_crypt_setup_reply(
            effects@,
            s,
            old(st).clients_map()[s].crypt.key,
            old(st).clients_map()[s].crypt.encrypt_nonce,
        ) by {
            assert(keys@.contains(s));
            let j = choose|j: int| 0 <= j < keys@.len() && keys@[j] == s;
            assert(to_reset@.contains(s));
            let j2 = choose|j2: int| 0 <= j2 < to_reset@.len() && to_reset@[j2] == s;
            assert(!janitor_removes(*old(st), now, closed@, s));
            assert(st.clients_map().dom().contains(s));
            assert(st.clients_map()[s] == mid.clients_map()[s]);
        }
        assert forall|s: u32| #[trigger]
            janitor_removes(*old(st), now, closed@, s) implies has_disconnect_signal(effects@, s)
            && ServerState::covers_user_remove(effects@, st.clients_map().dom(), s) by {
            assert(keys@.contains(s));
            let j = choose|j: int| 0 <= j < keys@.len() && keys@[j] == s;
            assert(to_remove@.contains(s));
            let j2 = choose|j2: int| 0 <= j2 < to_remove@.len() && to_remove@[j2] == s;
        }
        assert forall|s: u32| #[trigger]
            old(st).clients_map().dom().contains(s) && !janitor_removes(
            *old(st),
            now,
            closed@,
            s,
        ) && !janitor_resets(*old(st), now, closed@, s) implies st.clients_map()[s] == old(st).clients_map()[s] by {
            assert(keys@.contains(s));
            let j = choose|j: int| 0 <= j < keys@.len() && keys@[j] == s;
            assert(!to_remove@.contains(s));
            assert(!to_reset@.contains(s));
            assert(st.clients_map().dom().contains(s));
            assert(mid.clients_map()[s] == old(st).clients_map()[s]);
        }
    }
    effects
}

} // verus!

//! The session registry: the authoritative directory of connected clients,
//! indexed by session id, by remote UDP address and by awaiting-UDP-binding
//! status, together with the channel tree and the codec preference state.

use crate::chan::{channel_wf, Channel};
use crate::client::{client_wf, Client};
use crate::codec::{CodecState, CodecVersionMsg};
use crate::crypt::{spec_decrypt_result, spec_decrypt_state, CryptState};
use crate::msg::{
    ChannelRemoveMsg, ChannelStateMsg, MumbleError, UserRemoveMsg,
    msg_eq, AuthenticateMsg, ClientMessage, ControlMessage, CryptSetupMsg, Effect, MessageKind,
    UdpAddr, VersionMsg,
};
use crate::smap::{
    am_contents, am_insert, am_keys, am_new, am_remove, chm_contains, chm_contents, chm_get, chm_len,
    chm_insert, chm_keys, chm_new, chm_remove, cm_contents, cm_get, cm_insert, cm_keys, cm_len,
    cm_new, cm_remove, sockm_contents, sockm_get, sockm_insert, sockm_new, sockm_remove,
};
use crate::vecset::{vs_contains, vs_insert, vs_remove};
use vstd::prelude::*;

verus! {

/// Hard cap on concurrently connected clients.
pub const MAX_CLIENTS: usize = 1024;

/// The pre-created Root channel's id.
pub const ROOT_CHANNEL: u32 = 0;

/// The server's in-memory state: all indexes, the channel tree and the codec
/// vote.
pub struct ServerState {
    /// Primary index: session id to client.
    pub clients: scc::HashMap<u32, Client>,
    /// Sessions with a bound UDP address, by that address.
    pub clients_by_socket: scc::HashMap<UdpAddr, u32>,
    /// Sessions between authentication and their first successful UDP
    /// decrypt; each key maps to itself.
    pub awaiting_udp: scc::HashMap<u32, u32>,
    /// The channel tree, by channel id.
    pub channels: scc::HashMap<u32, Channel>,
    /// The advertised codec versions.
    pub codec_state: CodecState,
    /// Monotonic session id allocator; ids below it are never re-issued.
    pub next_session_id: u32,
}

/// How many entries of `s` equal `v`.
pub open spec fn votes_rec(s: Seq<i32>, v: i32) -> nat
    decreases s.len(),
{
    if s.len() == 0 {
        0
    } else {
        ((if s[0] == v {
            1nat
        } else {
            0nat
        }) + votes_rec(s.drop_first(), v)) as nat
    }
}

/// How many codec entries equal to `v` the clients listed in `ks` announce
/// in total.
pub open spec fn count_codec(m: Map<u32, Client>, ks: Seq<u32>, v: i32) -> nat
    decreases ks.len(),
{
    if ks.len() == 0 {
        0
    } else {
        ((if m.dom().contains(ks[0]) {
            votes_rec(m[ks[0]].codecs@, v)
        } else {
            0nat
        }) + count_codec(m, ks.drop_first(), v)) as nat
    }
}

/// The count an association list records for `v`; zero when absent.
pub open spec fn tally_get(t: Seq<(i32, u64)>, v: i32) -> u64
    decreases t.len(),
{
    if t.len() == 0 {
        0u64
    } else if t[0].0 == v {
        t[0].1
    } else {
        tally_get(t.drop_first(), v)
    }
}

/// The association list's keys are distinct.
pub open spec fn tally_firsts_nodup(t: Seq<(i32, u64)>) -> bool {
    forall|a: int, b: int| 0 <= a < b < t.len() ==> (#[trigger] t[a]).0 != (#[trigger] t[b]).0
}

/// Appending one vote for `x` leaves every other count unchanged.
pub proof fn lemma_votes_rec_snoc(s: Seq<i32>, x: i32, v: i32)
    ensures
        votes_rec(s + seq![x], v) == votes_rec(s, v) + (if x == v {
            1nat
        } else {
            0nat
        }),
    decreases s.len(),
{
    if s.len() == 0 {
        assert((s + seq![x]).len() == 1);
        assert((s + seq![x]).drop_first() =~= Seq::empty());
        assert((s + seq![x])[0] == x);
        assert(votes_rec((s + seq![x]).drop_first(), v) == 0);
        assert(votes_rec(s + seq![x], v) == (if x == v {
            1nat
        } else {
            0nat
        }));
        assert(votes_rec(s, v) == 0);
    } else {
        assert((s + seq![x]).drop_first() =~= s.drop_first() + seq![x]);
        assert((s + seq![x])[0] == s[0]);
        lemma_votes_rec_snoc(s.drop_first(), x, v);
        assert(votes_rec(s + seq![x], v) == (if s[0] == v {
            1nat
        } else {
            0nat
        }) + votes_rec(s.drop_first() + seq![x], v));
        assert(votes_rec(s, v) == (if s[0] == v {
            1nat
        } else {
            0nat
        }) + votes_rec(s.drop_first(), v));
    }
}

/// Appending one client adds exactly that client's votes.
pub proof fn lemma_count_codec_snoc(m: Map<u32, Client>, ks: Seq<u32>, k: u32)
    ensures
        forall|v: i32|
            count_codec(m, ks.push(k), v) == count_codec(m, ks, v) + (if m.dom().contains(k) {
                votes_rec(m[k].codecs@, v)
            } else {
                0nat
            }),
    decreases ks.len(),
{
    assert forall|v: i32|
        count_codec(m, ks.push(k), v) == count_codec(m, ks, v) + (if m.dom().contains(k) {
            votes_rec(m[k].codecs@, v)
        } else {
            0nat
        }) by {
        lemma_count_codec_snoc_one(m, ks, k, v);
    }
}

/// Appending one client adds exactly that client's votes for `v`.
pub proof fn lemma_count_codec_snoc_one(m: Map<u32, Client>, ks: Seq<u32>, k: u32, v: i32)
    ensures
        count_codec(m, ks.push(k), v) == count_codec(m, ks, v) + (if m.dom().contains(k) {
            votes_rec(m[k].codecs@, v)
        } else {
            0nat
        }),
    decreases ks.len(),
{
    if ks.len() == 0 {
        assert(ks.push(k).len() == 1);
        assert(ks.push(k).drop_first() =~= Seq::empty());
        assert(ks.push(k)[0] == k);
        assert(count_codec(m, ks.push(k).drop_first(), v) == 0);
        assert(count_codec(m, ks.push(k), v) == (if m.dom().contains(k) {
            votes_rec(m[k].codecs@, v)
        } else {
            0nat
        }));
        assert(count_codec(m, ks, v) == 0);
    } else {
        assert(ks.push(k).drop_first() =~= ks.drop_first().push(k));
        assert(ks.push(k)[0] == ks[0]);
        lemma_count_codec_snoc_one(m, ks.drop_first(), k, v);
        assert(count_codec(m, ks.push(k), v) == (if m.dom().contains(ks[0]) {
            votes_rec(m[ks[0]].codecs@, v)
        } else {
            0nat
        }) + count_codec(m, ks.drop_first().push(k), v));
        assert(count_codec(m, ks, v) == (if m.dom().contains(ks[0]) {
            votes_rec(m[ks[0]].codecs@, v)
        } else {
            0nat
        }) + count_codec(m, ks.drop_first(), v));
    }
}

/// Looking a present key up yields its recorded count.
pub proof fn lemma_tally_get_at(t: Seq<(i32, u64)>, u: int)
    requires
        tally_firsts_nodup(t),
        0 <= u < t.len(),
    ensures
        tally_get(t, t[u].0) == t[u].1,
    decreases t.len(),
{
    if u > 0 {
        assert(t[0].0 != t[u].0);
        assert(t.drop_first()[u - 1] == t[u]);
        lemma_tally_get_at(t.drop_first(), u - 1);
    }
}

/// Looking an absent key up yields zero.
pub proof fn lemma_tally_get_absent(t: Seq<(i32, u64)>, x: i32)
    requires
        forall|u: int| 0 <= u < t.len() ==> (#[trigger] t[u]).0 != x,
    ensures
        tally_get(t, x) == 0,
    decreases t.len(),
{
    if t.len() > 0 {
        lemma_tally_get_absent(t.drop_first(), x);
    }
}

/// Updating one entry's count changes that key's count alone.
pub proof fn lemma_tally_set_at(t: Seq<(i32, u64)>, u: int, c2: u64)
    requires
        tally_firsts_nodup(t),
        0 <= u < t.len(),
    ensures
        tally_firsts_nodup(t.update(u, (t[u].0, c2))),
        tally_get(t.update(u, (t[u].0, c2)), t[u].0) == c2,
        forall|v: i32| v != t[u].0 ==> tally_get(t.update(u, (t[u].0, c2)), v) == tally_get(t, v),
    decreases t.len(),
{
    let t2 = t.update(u, (t[u].0, c2));
    assert forall|a: int, b: int| 0 <= a < b < t2.len() implies (#[trigger] t2[a]).0 != (
    #[trigger] t2[b]).0 by {
        assert(t2[a].0 == t[a].0 && t2[b].0 == t[b].0);
    }
    if u == 0 {
        assert(t2[0] == (t[0].0, c2));
        assert(t2.drop_first() =~= t.drop_first());
        assert(tally_get(t2, t[0].0) == c2);
        assert forall|v: i32| v != t[u].0 implies tally_get(t2, v) == tally_get(t, v) by {
            assert(tally_get(t2, v) == tally_get(t2.drop_first(), v));
            assert(tally_get(t, v) == tally_get(t.drop_first(), v));
        }
    } else {
        assert(t2[0] == t[0]);
        assert(t2.drop_first() =~= t.drop_first().update(u - 1, (t[u].0, c2)));
        assert(t.drop_first()[u - 1] == t[u]);
        lemma_tally_set_at(t.drop_first(), u - 1, c2);
        assert(t[0].0 != t[u].0);
        assert(tally_get(t2, t[u].0) == tally_get(t2.drop_first(), t[u].0));
        assert(tally_get(t2, t[u].0) == c2);
        assert forall|v: i32| v != t[u].0 implies tally_get(t2, v) == tally_get(t, v) by {
            if v == t[0].0 {
                assert(tally_get(t2, v) == t2[0].1);
                assert(tally_get(t, v) == t[0].1);
            } else {
                assert(tally_get(t2, v) == tally_get(t2.drop_first(), v));
                assert(tally_get(t, v) == tally_get(t.drop_first(), v));
            }
        }
    }
}

/// Appending a fresh key records its count and changes no other.
pub proof fn lemma_tally_push(t: Seq<(i32, u64)>, x: i32, c: u64)
    requires
        tally_firsts_nodup(t),
        forall|u: int| 0 <= u < t.len() ==> (#[trigger] t[u]).0 != x,
    ensures
        tally_firsts_nodup(t.push((x, c))),
        tally_get(t.push((x, c)), x) == c,
        forall|v: i32| v != x ==> tally_get(t.push((x, c)), v) == tally_get(t, v),
    decreases t.len(),
{
    let t2 = t.push((x, c));
    assert forall|a: int, b: int| 0 <= a < b < t2.len() implies (#[trigger] t2[a]).0 != (
    #[trigger] t2[b]).0 by {
        if b == t.len() {
            assert(t2[a] == t[a] && t2[b] == (x, c));
        } else {
            assert(t2[a] == t[a] && t2[b] == t[b]);
        }
    }
    if t.len() == 0 {
        assert(t2[0] == (x, c));
        assert(t2.drop_first() =~= Seq::empty());
        assert(tally_get(t2, x) == c);
        assert forall|v: i32| v != x implies tally_get(t2, v) == tally_get(t, v) by {
            assert(tally_get(t2, v) == tally_get(t2.drop_first(), v));
            assert(tally_get(t2.drop_first(), v) == 0);
            assert(tally_get(t, v) == 0);
        }
    } else {
        assert(t2[0] == t[0]);
        assert(t2.drop_first() =~= t.drop_first().push((x, c)));
        lemma_tally_push(t.drop_first(), x, c);
        assert(t[0].0 != x);
        assert(tally_get(t2, x) == tally_get(t2.drop_first(), x));
        assert forall|v: i32| v != x implies tally_get(t2, v) == tally_get(t, v) by {
            if v == t[0].0 {
                assert(tally_get(t2, v) == t2[0].1);
                assert(tally_get(t, v) == t[0].1);
            } else {
                assert(tally_get(t2, v) == tally_get(t2.drop_first(), v));
                assert(tally_get(t, v) == tally_get(t.drop_first(), v));
            }
        }
    }
}

/// Every recorded count bounded by `mx` bounds every lookup.
pub proof fn lemma_tally_get_le_max(t: Seq<(i32, u64)>, mx: u64, v: i32)
    requires
        forall|u: int| 0 <= u < t.len() ==> (#[trigger] t[u]).1 <= mx,
    ensures
        tally_get(t, v) <= mx,
    decreases t.len(),
{
    if t.len() > 0 {
        lemma_tally_get_le_max(t.drop_first(), mx, v);
    }
}

/// The index of `x` in the tally, if recorded.
fn tally_find(t: &Vec<(i32, u64)>, x: i32) -> (r: Option<usize>)
    ensures
        r matches Some(u) ==> u < t@.len() && t@[u as int].0 == x,
        r is None ==> forall|u: int| 0 <= u < t@.len() ==> (#[trigger] t@[u]).0 != x,
{
    let n: usize = t.len();
    let mut i: usize = 0;
    while i < n
        invariant
            i <= n,
            n == t@.len(),
            forall|u: int| 0 <= u < i ==> (#[trigger] t@[u]).0 != x,
        decreases n - i,
    {
        if t[i].0 == x {
            return Some(i);
        }
        i = i + 1;
    }
    None
}

/// Whether `cid` is the smallest channel id at or above 1 that the tree
/// does not hold: the id `add_channel` re-uses after garbage collection.
pub open spec fn is_first_free_channel_id(m: Map<u32, Channel>, cid: u32) -> bool {
    &&& 1 <= cid
    &&& !m.dom().contains(cid)
    &&& forall|j: u32| 1 <= j < cid ==> m.dom().contains(j)
}

/// Session ids are issued by a monotonic allocator: every live session's id
/// lies below `next_session_id`, and `add_client` hands out exactly that
/// value, so concurrently issued ids are all distinct and never re-used.
pub proof fn lemma_session_ids_below_allocator(st: ServerState, s: u32)
    requires
        st.inv(),
        st.clients_map().dom().contains(s),
    ensures
        s < st.next_session_id,
        !st.clients_map().dom().contains(st.next_session_id),
{
    if st.clients_map().dom().contains(st.next_session_id) {
        assert(st.next_session_id < st.next_session_id);
    }
}

/// In a well-formed registry, no channel can hold more members than the
/// client cap: membership is duplicate-free and drawn from the client map.
pub proof fn lemma_members_bounded(st: ServerState, cid: u32)
    requires
        st.inv(),
        st.channels_map().dom().contains(cid),
    ensures
        st.channels_map()[cid].members@.len() <= MAX_CLIENTS,
{
    let ms = st.channels_map()[cid].members@;
    ms.unique_seq_to_set();
    assert forall|x: u32| ms.to_set().contains(x) implies st.clients_map().dom().contains(
        x,
    ) by {
        assert(ms.contains(x));
    }
    vstd::set_lib::lemma_len_subset(ms.to_set(), st.clients_map().dom());
}

impl ServerState {
    /// The client directory as a mathematical map.
    pub open spec fn clients_map(self) -> Map<u32, Client> {
        cm_contents(self.clients)
    }

    /// The socket index as a mathematical map.
    pub open spec fn socket_map(self) -> Map<UdpAddr, u32> {
        sockm_contents(self.clients_by_socket)
    }

    /// The set of sessions awaiting a UDP binding.
    pub open spec fn awaiting_set(self) -> Set<u32> {
        am_contents(self.awaiting_udp).dom()
    }

    /// The channel tree as a mathematical map.
    pub open spec fn channels_map(self) -> Map<u32, Channel> {
        chm_contents(self.channels)
    }

    /// Client-side invariants: ids match keys and stay below the allocator,
    /// every client is well-formed and a member of its (existing) channel,
    /// and the cap holds.
    pub open spec fn inv_clients(self) -> bool {
        &&& self.clients_map().dom().finite()
        &&& self.clients_map().dom().len() <= MAX_CLIENTS
        &&& self.next_session_id >= 1
        &&& forall|s: u32| #[trigger]
            self.clients_map().dom().contains(s) ==> {
                let c = self.clients_map()[s];
                &&& c.session_id == s
                &&& 1 <= s < self.next_session_id
                &&& client_wf(c)
                &&& self.channels_map().dom().contains(c.channel_id)
                &&& self.channels_map()[c.channel_id].members@.contains(s)
            }
    }

    /// Channel-side invariants: Root exists, is permanent and parentless and
    /// never removed; every other channel's parent is present; ids match
    /// keys; membership points back at clients placed in the channel.
    pub open spec fn inv_channels(self) -> bool {
        &&& self.channels_map().dom().finite()
        &&& self.channels_map().dom().contains(ROOT_CHANNEL)
        &&& self.channels_map()[ROOT_CHANNEL].parent_id is None
        &&& !self.channels_map()[ROOT_CHANNEL].temporary
        &&& forall|cid: u32| #[trigger]
            self.channels_map().dom().contains(cid) ==> {
                let ch = self.channels_map()[cid];
                &&& ch.id == cid
                &&& channel_wf(ch)
                &&& (cid != ROOT_CHANNEL ==> (ch.parent_id matches Some(p)
                    && self.channels_map().dom().contains(p) && p != cid))
                &&& forall|m: u32|
                    #![trigger ch.members@.contains(m)]
                    ch.members@.contains(m) ==> self.clients_map().dom().contains(m)
                        && self.clients_map()[m].channel_id == cid
            }
    }

    /// Socket-index invariants: a bound session and its index entry mirror
    /// each other exactly.
    pub open spec fn inv_socket(self) -> bool {
        &&& self.socket_map().dom().finite()
        &&& forall|a: UdpAddr| #[trigger]
            self.socket_map().dom().contains(a) ==> {
                let s = self.socket_map()[a];
                self.clients_map().dom().contains(s) && self.clients_map()[s].udp_addr == Some(a)
            }
        &&& forall|s: u32| #[trigger]
            self.clients_map().dom().contains(s) ==> (self.clients_map()[s].udp_addr matches Some(
                a,
            ) ==> self.socket_map().dom().contains(a) && self.socket_map()[a] == s)
    }

    /// Awaiting-UDP invariants: a session is awaiting exactly when it is
    /// connected and unbound.
    pub open spec fn inv_awaiting(self) -> bool {
        &&& self.awaiting_set().finite()
        &&& forall|s: u32|
            #![trigger self.awaiting_set().contains(s)]
            #![trigger self.clients_map().dom().contains(s)]
            self.awaiting_set().contains(s) <==> (self.clients_map().dom().contains(s)
                && self.clients_map()[s].udp_addr is None)
    }

    /// The registry's full well-formedness invariant.
    pub open spec fn inv(self) -> bool {
        &&& self.inv_clients()
        &&& self.inv_channels()
        &&& self.inv_socket()
        &&& self.inv_awaiting()
    }

    /// A fresh registry: no clients, no bindings, only the Root channel.
    pub fn new() -> (r: ServerState)
        ensures
            r.inv(),
            forall|s: u32| !r.clients_map().dom().contains(s),
            forall|a: UdpAddr| !r.socket_map().dom().contains(a),
            forall|s: u32| !r.awaiting_set().contains(s),
            r.channels_map().dom() =~= Set::empty().insert(ROOT_CHANNEL),
            r.channels_map()[ROOT_CHANNEL].members@.len() == 0,
            r.channels_map()[ROOT_CHANNEL].name@ == "Root"@,
            r.channels_map()[ROOT_CHANNEL].description@ == "Root channel"@,
            r.channels_map()[ROOT_CHANNEL].parent_id is None,
            !r.channels_map()[ROOT_CHANNEL].temporary,
            r.next_session_id == 1,
            r.codec_state.opus == true,
            r.codec_state.alpha == 0 && r.codec_state.beta == 0 && !r.codec_state.prefer_alpha,
    {
        let mut channels = chm_new();
        let root = Channel::new(
            ROOT_CHANNEL,
            None,
            String::from_str("Root"),
            String::from_str("Root channel"),
            false,
        );
        chm_insert(&mut channels, ROOT_CHANNEL, root);
        let r = ServerState {
            clients: cm_new(),
            clients_by_socket: sockm_new(),
            awaiting_udp: am_new(),
            channels,
            codec_state: CodecState::default(),
            next_session_id: 1,
        };
        proof {
            assert(r.clients_map().dom() =~= Set::empty());
            assert(r.socket_map().dom() =~= Set::empty());
            assert(r.awaiting_set() =~= Set::empty());
            assert(r.channels_map().dom() =~= Set::empty().insert(ROOT_CHANNEL));
        }
        r
    }

    /// Registers a newly authenticated client: allocates a fresh session id,
    /// places the client in Root, and marks it awaiting a UDP binding. Emits
    /// no broadcast. Returns `None` exactly when the server is full or the
    /// id space is exhausted.
    pub fn add_client(
        &mut self,
        version: &VersionMsg,
        auth: AuthenticateMsg,
        crypt: CryptState,
        now: u64,
    ) -> (r: Option<u32>)
        requires
            old(self).inv(),
            auth.celt_versions@.len() <= crate::client::MAX_CODECS,
        ensures
            final(self).inv(),
            r is Some <==> (old(self).clients_map().dom().len() < MAX_CLIENTS && old(
                self,
            ).next_session_id < u32::MAX),
            r is None ==> *final(self) == *old(self),
            r matches Some(sid) ==> {
                &&& sid == old(self).next_session_id
                &&& !old(self).clients_map().dom().contains(sid)
                &&& final(self).clients_map().dom() == old(self).clients_map().dom().insert(sid)
                &&& final(self).clients_map().dom().contains(sid)
                &&& final(self).clients_map()[sid].session_id == sid
                &&& final(self).clients_map()[sid].username == auth.username
                &&& final(self).clients_map()[sid].version == version.version
                &&& final(self).clients_map()[sid].channel_id == ROOT_CHANNEL
                &&& final(self).clients_map()[sid].crypt == crypt
                &&& final(self).clients_map()[sid].udp_addr is None
                &&& final(self).clients_map()[sid].last_ping == now
                &&& forall|t: u32|
                    t != sid && old(self).clients_map().dom().contains(t)
                        ==> final(self).clients_map()[t] == old(self).clients_map()[t]
                &&& final(self).awaiting_set() == old(self).awaiting_set().insert(sid)
                &&& final(self).socket_map() == old(self).socket_map()
                &&& final(self).next_session_id == sid + 1
                &&& final(self).codec_state == old(self).codec_state
                &&& final(self).channels_map().dom() == old(self).channels_map().dom()
                &&& forall|cid: u32|
                    cid != ROOT_CHANNEL && old(self).channels_map().dom().contains(cid)
                        ==> final(self).channels_map()[cid] == old(self).channels_map()[cid]
                &&& final(self).channels_map()[ROOT_CHANNEL] == (Channel {
                    members: final(self).channels_map()[ROOT_CHANNEL].members,
                    ..old(self).channels_map()[ROOT_CHANNEL]
                })
                &&& final(self).channels_map()[ROOT_CHANNEL].members@.to_set() == old(
                    self,
                ).channels_map()[ROOT_CHANNEL].members@.to_set().insert(sid)
            },
    {
        let n = cm_len(&self.clients);
        if n >= MAX_CLIENTS || self.next_session_id == u32::MAX {
            proof {
                if self.next_session_id == u32::MAX {
                } else {
                    assert(self.clients_map().dom().len() >= MAX_CLIENTS);
                }
            }
            return None;
        }
        let sid = self.next_session_id;
        proof {
            assert(!self.clients_map().dom().contains(sid));
        }
        self.next_session_id = sid + 1;
        let client = Client::new(version, auth, sid, ROOT_CHANNEL, crypt, now);
        cm_insert(&mut self.clients, sid, client);
        am_insert(&mut self.awaiting_udp, sid, sid);
        let root_opt = chm_get(&self.channels, ROOT_CHANNEL);
        let mut root = root_opt.unwrap();
        proof {
            lemma_members_bounded(*old(self), ROOT_CHANNEL);
        }
        vs_insert(&mut root.members, sid);
        chm_insert(&mut self.channels, ROOT_CHANNEL, root);
        proof {
            let o = *old(self);
            let f = *self;
            assert(f.clients_map().dom() =~= o.clients_map().dom().insert(sid));
            assert(f.awaiting_set() =~= o.awaiting_set().insert(sid));
            assert(f.clients_map().dom().len() == o.clients_map().dom().len() + 1);
            assert(f.channels_map().dom() =~= o.channels_map().dom());
            assert forall|s: u32| #[trigger]
                f.clients_map().dom().contains(s) implies {
                let c = f.clients_map()[s];
                &&& c.session_id == s
                &&& 1 <= s < f.next_session_id
                &&& client_wf(c)
                &&& f.channels_map().dom().contains(c.channel_id)
                &&& f.channels_map()[c.channel_id].members@.contains(s)
            } by {
                if s == sid {
                    assert(f.channels_map()[ROOT_CHANNEL].members@.contains(sid));
                } else {
                    assert(o.clients_map().dom().contains(s));
                    let c = o.clients_map()[s];
                    if c.channel_id == ROOT_CHANNEL {
                        assert(f.channels_map()[ROOT_CHANNEL].members@.contains(s));
                    } else {
                        assert(f.channels_map()[c.channel_id] == o.channels_map()[c.channel_id]);
                    }
                }
            }
            assert forall|cid: u32| #[trigger]
                f.channels_map().dom().contains(cid) implies {
                let ch = f.channels_map()[cid];
                &&& ch.id == cid
                &&& channel_wf(ch)
                &&& (cid != ROOT_CHANNEL ==> (ch.parent_id matches Some(p)
                    && f.channels_map().dom().contains(p) && p != cid))
                &&& forall|m: u32|
                    #![trigger ch.members@.contains(m)]
                    ch.members@.contains(m) ==> f.clients_map().dom().contains(m)
                        && f.clients_map()[m].channel_id == cid
            } by {
                assert(o.channels_map().dom().contains(cid));
                let och = o.channels_map()[cid];
                let ch = f.channels_map()[cid];
                if cid == ROOT_CHANNEL {
                    assert forall|m: u32|
                        #![trigger ch.members@.contains(m)]
                        ch.members@.contains(m) implies f.clients_map().dom().contains(m)
                        && f.clients_map()[m].channel_id == cid by {
                        if m != sid {
                            assert(och.members@.contains(m));
                        }
                    }
                } else {
                    assert(ch == och);
                    assert forall|m: u32|
                        #![trigger ch.members@.contains(m)]
                        ch.members@.contains(m) implies f.clients_map().dom().contains(m)
                        && f.clients_map()[m].channel_id == cid by {
                        assert(och.members@.contains(m));
                        assert(m != sid);
                    }
                }
            }
            assert(f.inv_socket());
            assert forall|s: u32|
                #![trigger f.awaiting_set().contains(s)]
                #![trigger f.clients_map().dom().contains(s)]
                f.awaiting_set().contains(s) <==> (f.clients_map().dom().contains(s)
                    && f.clients_map()[s].udp_addr is None) by {
                if s != sid {
                    assert(f.awaiting_set().contains(s) == o.awaiting_set().contains(s));
                }
            }
        }
        Some(sid)
    }

    /// Looks a client up by session id.
    pub fn get_client(&self, session: u32) -> (r: Option<Client>)
        ensures
            r is Some <==> self.clients_map().dom().contains(session),
            r matches Some(c) ==> c == self.clients_map()[session],
    {
        cm_get(&self.clients, session)
    }

    /// The session bound to a UDP address, if any.
    pub fn get_client_by_socket(&self, socket_addr: UdpAddr) -> (r: Option<u32>)
        ensures
            r is Some <==> self.socket_map().dom().contains(socket_addr),
            r matches Some(s) ==> s == self.socket_map()[socket_addr],
    {
        sockm_get(&self.clients_by_socket, socket_addr)
    }

    /// Unbinds session `s`: clears its UDP address, drops the socket-index
    /// entry, and marks it awaiting a binding again.
    fn unbind_session(&mut self, s: u32)
        requires
            old(self).inv(),
            old(self).clients_map().dom().contains(s),
        ensures
            final(self).inv(),
            final(self).clients_map().dom() == old(self).clients_map().dom(),
            final(self).clients_map()[s] == (Client {
                udp_addr: None,
                ..old(self).clients_map()[s]
            }),
            forall|t: u32|
                t != s && old(self).clients_map().dom().contains(t)
                    ==> final(self).clients_map()[t] == old(self).clients_map()[t],
            final(self).socket_map() == (match old(self).clients_map()[s].udp_addr {
                Some(pa) => old(self).socket_map().remove(pa),
                None => old(self).socket_map(),
            }),
            final(self).awaiting_set() == old(self).awaiting_set().insert(s),
            final(self).channels_map() == old(self).channels_map(),
            final(self).next_session_id == old(self).next_session_id,
            final(self).codec_state == old(self).codec_state,
    {
        let copt = cm_get(&self.clients, s);
        let mut c = copt.unwrap();
        match c.udp_addr {
            Some(pa) => {
                sockm_remove(&mut self.clients_by_socket, pa);
            },
            None => {},
        }
        c.udp_addr = None;
        cm_insert(&mut self.clients, s, c);
        am_insert(&mut self.awaiting_udp, s, s);
        proof {
            let o = *old(self);
            let f = *self;
            assert(f.clients_map().dom() =~= o.clients_map().dom());
            assert(f.awaiting_set() =~= o.awaiting_set().insert(s));
            match o.clients_map()[s].udp_addr {
                Some(pa) => {
                    assert(f.socket_map() =~= o.socket_map().remove(pa));
                },
                None => {
                    assert(f.socket_map() =~= o.socket_map());
                },
            }
            assert(f.clients_map()[s] == (Client { udp_addr: None, ..o.clients_map()[s] }));
            assert forall|t: u32| #[trigger]
                f.clients_map().dom().contains(t) implies {
                let c2 = f.clients_map()[t];
                &&& c2.session_id == t
                &&& 1 <= t < f.next_session_id
                &&& client_wf(c2)
                &&& f.channels_map().dom().contains(c2.channel_id)
                &&& f.channels_map()[c2.channel_id].members@.contains(t)
            } by {
                assert(o.clients_map().dom().contains(t));
            }
            assert forall|cid: u32| #[trigger]
                f.channels_map().dom().contains(cid) implies {
                let ch = f.channels_map()[cid];
                forall|m: u32|
                    #![trigger ch.members@.contains(m)]
                    ch.members@.contains(m) ==> f.clients_map().dom().contains(m)
                        && f.clients_map()[m].channel_id == cid
            } by {
                let ch = f.channels_map()[cid];
                assert(o.channels_map().dom().contains(cid));
                assert forall|m: u32|
                    #![trigger ch.members@.contains(m)]
                    ch.members@.contains(m) implies f.clients_map().dom().contains(m)
                    && f.clients_map()[m].channel_id == cid by {
                    assert(o.channels_map()[cid].members@.contains(m));
                }
            }
            assert(f.inv_channels());
            assert forall|a: UdpAddr| #[trigger]
                f.socket_map().dom().contains(a) implies {
                let t = f.socket_map()[a];
                f.clients_map().dom().contains(t) && f.clients_map()[t].udp_addr == Some(a)
            } by {
                assert(o.socket_map().dom().contains(a));
                let t = o.socket_map()[a];
                if t == s {
                    assert(o.clients_map()[s].udp_addr == Some(a));
                    assert(false);
                }
            }
            assert forall|t: u32| #[trigger]
                f.clients_map().dom().contains(t) implies (f.clients_map()[t].udp_addr matches
                Some(a) ==> f.socket_map().dom().contains(a) && f.socket_map()[a] == t) by {
                if t != s {
                    if o.clients_map()[t].udp_addr is Some {
                        let a = o.clients_map()[t].udp_addr.unwrap();
                        assert(o.socket_map()[a] == t);
                        match o.clients_map()[s].udp_addr {
                            Some(pa) => {
                                if pa == a {
                                    assert(o.socket_map()[pa] == s);
                                    assert(false);
                                }
                            },
                            None => {},
                        }
                    }
                }
            }
            assert(f.inv_socket());
            assert forall|t: u32|
                #![trigger f.awaiting_set().contains(t)]
                #![trigger f.clients_map().dom().contains(t)]
                f.awaiting_set().contains(t) <==> (f.clients_map().dom().contains(t)
                    && f.clients_map()[t].udp_addr is None) by {
                if t != s {
                    assert(f.awaiting_set().contains(t) == o.awaiting_set().contains(t));
                }
            }
        }
    }

    /// Binds session `session` to UDP address `addr`: any session previously
    /// holding the address is unbound first, the session's previous address
    /// is dropped from the index, and the session stops awaiting a binding.
    pub fn set_client_socket(&mut self, session: u32, addr: UdpAddr)
        requires
            old(self).inv(),
            old(self).clients_map().dom().contains(session),
        ensures
            final(self).inv(),
            final(self).clients_map().dom() == old(self).clients_map().dom(),
            final(self).clients_map()[session] == (Client {
                udp_addr: Some(addr),
                ..old(self).clients_map()[session]
            }),
            final(self).socket_map().dom().contains(addr) && final(self).socket_map()[addr]
                == session,
            !final(self).awaiting_set().contains(session),
            final(self).channels_map() == old(self).channels_map(),
            ({
                let stolen = old(self).socket_map().dom().contains(addr) && old(
                    self,
                ).socket_map()[addr] != session;
                let t0 = old(self).socket_map()[addr];
                &&& (!stolen ==> final(self).awaiting_set() == old(self).awaiting_set().remove(
                    session,
                ) && (forall|t: u32|
                    t != session && old(self).clients_map().dom().contains(t)
                        ==> final(self).clients_map()[t] == old(self).clients_map()[t]))
                &&& (stolen ==> final(self).awaiting_set() == old(self).awaiting_set().insert(
                    t0,
                ).remove(session) && final(self).clients_map()[t0] == (Client {
                    udp_addr: None,
                    ..old(self).clients_map()[t0]
                }) && (forall|t: u32|
                    t != session && t != t0 && old(self).clients_map().dom().contains(t)
                        ==> final(self).clients_map()[t] == old(self).clients_map()[t]))
            }),
    {
        match sockm_get(&self.clients_by_socket, addr) {
            Some(t0) => {
                if t0 != session {
                    self.unbind_session(t0);
                }
            },
            None => {},
        }
        self.unbind_session(session);
        let copt = cm_get(&self.clients, session);
        let mut c = copt.unwrap();
        c.udp_addr = Some(addr);
        cm_insert(&mut self.clients, session, c);
        sockm_insert(&mut self.clients_by_socket, addr, session);
        am_remove(&mut self.awaiting_udp, session);
        proof {
            let o = *old(self);
            let f = *self;
            let stolen = o.socket_map().dom().contains(addr) && o.socket_map()[addr] != session;
            let t0 = o.socket_map()[addr];
            assert(f.clients_map().dom() =~= o.clients_map().dom());
            if stolen {
                assert(f.awaiting_set() =~= o.awaiting_set().insert(t0).remove(session));
            } else {
                assert(f.awaiting_set() =~= o.awaiting_set().remove(session));
            }
            assert forall|t: u32| #[trigger]
                f.clients_map().dom().contains(t) implies {
                let c2 = f.clients_map()[t];
                &&& c2.session_id == t
                &&& 1 <= t < f.next_session_id
                &&& client_wf(c2)
                &&& f.channels_map().dom().contains(c2.channel_id)
                &&& f.channels_map()[c2.channel_id].members@.contains(t)
            } by {
                assert(o.clients_map().dom().contains(t));
            }
            assert forall|cid: u32| #[trigger]
                f.channels_map().dom().contains(cid) implies {
                let ch = f.channels_map()[cid];
                forall|m: u32|
                    #![trigger ch.members@.contains(m)]
                    ch.members@.contains(m) ==> f.clients_map().dom().contains(m)
                        && f.clients_map()[m].channel_id == cid
            } by {
                let ch = f.channels_map()[cid];
                assert(o.channels_map().dom().contains(cid));
                assert forall|m: u32|
                    #![trigger ch.members@.contains(m)]
                    ch.members@.contains(m) implies f.clients_map().dom().contains(m)
                    && f.clients_map()[m].channel_id == cid by {
                    assert(o.channels_map()[cid].members@.contains(m));
                }
            }
            assert(f.inv_channels());
            assert(f.inv_socket());
            assert(f.inv_awaiting());
        }
    }

    /// Drops a UDP binding by address: the bound session, if any, becomes
    /// unbound and awaits a new binding.
    pub fn remove_client_by_socket(&mut self, socket_addr: UdpAddr)
        requires
            old(self).inv(),
        ensures
            final(self).inv(),
            !final(self).socket_map().dom().contains(socket_addr),
            final(self).clients_map().dom() == old(self).clients_map().dom(),
            final(self).channels_map() == old(self).channels_map(),
            !old(self).socket_map().dom().contains(socket_addr) ==> *final(self) == *old(self),
            old(self).socket_map().dom().contains(socket_addr) ==> {
                let s = old(self).socket_map()[socket_addr];
                &&& final(self).socket_map() == old(self).socket_map().remove(socket_addr)
                &&& final(self).clients_map()[s] == (Client {
                    udp_addr: None,
                    ..old(self).clients_map()[s]
                })
                &&& final(self).awaiting_set() == old(self).awaiting_set().insert(s)
                &&& forall|t: u32|
                    t != s && old(self).clients_map().dom().contains(t)
                        ==> final(self).clients_map()[t] == old(self).clients_map()[t]
            },
    {
        match sockm_get(&self.clients_by_socket, socket_addr) {
            Some(s) => {
                self.unbind_session(s);
                proof {
                    assert(old(self).clients_map()[s].udp_addr == Some(socket_addr));
                }
            },
            None => {},
        }
    }

    /// Puts session `session` back in the awaiting-UDP state, clears its
    /// binding, resets its receive-side crypto, and asks the client to
    /// renegotiate with a `CryptSetup`. Fails only on an unknown session.
    pub fn reset_client_crypt(&mut self, session: u32, now: u64) -> (r: Option<Vec<Effect>>)
        requires
            old(self).inv(),
        ensures
            final(self).inv(),
            r is Some <==> old(self).clients_map().dom().contains(session),
            r is None ==> *final(self) == *old(self),
            r matches Some(effects) ==> {
                let oc = old(self).clients_map()[session];
                &&& final(self).clients_map().dom() == old(self).clients_map().dom()
                &&& final(self).awaiting_set() == old(self).awaiting_set().insert(session)
                &&& final(self).clients_map()[session].udp_addr is None
                &&& final(self).socket_map() == (match oc.udp_addr {
                    Some(pa) => old(self).socket_map().remove(pa),
                    None => old(self).socket_map(),
                })
                &&& final(self).clients_map()[session] == (Client {
                    udp_addr: None,
                    crypt: (CryptState {
                        decrypt_nonce: 0,
                        history: 0,
                        resync: crate::crypt::sat_inc(oc.crypt.resync),
                        last_good: now,
                        ..oc.crypt
                    }),
                    ..oc
                })
                &&& forall|t: u32|
                    t != session && old(self).clients_map().dom().contains(t)
                        ==> final(self).clients_map()[t] == old(self).clients_map()[t]
                &&& final(self).channels_map() == old(self).channels_map()
                &&& effects@.len() == 1
                &&& effects@[0] == (Effect::Reply {
                    session,
                    msg: ControlMessage::CryptSetup(CryptSetupMsg {
                        key: oc.crypt.key,
                        client_nonce: 0,
                        server_nonce: oc.crypt.encrypt_nonce,
                    }),
                })
            },
    {
        let copt = cm_get(&self.clients, session);
        if copt.is_none() {
            return None;
        }
        self.unbind_session(session);
        let copt2 = cm_get(&self.clients, session);
        let mut c = copt2.unwrap();
        c.crypt.reset_decrypt(now);
        let key = c.crypt.key;
        let server_nonce = c.crypt.encrypt_nonce;
        cm_insert(&mut self.clients, session, c);
        let mut effects: Vec<Effect> = Vec::new();
        effects.push(
            Effect::Reply {
                session,
                msg: ControlMessage::CryptSetup(
                    CryptSetupMsg { key, client_nonce: 0, server_nonce },
                ),
            },
        );
        proof {
            let o = *old(self);
            let f = *self;
            assert(f.clients_map().dom() =~= o.clients_map().dom());
            assert(f.awaiting_set() =~= o.awaiting_set().insert(session));
            assert forall|t: u32| #[trigger]
                f.clients_map().dom().contains(t) implies {
                let c2 = f.clients_map()[t];
                &&& c2.session_id == t
                &&& 1 <= t < f.next_session_id
                &&& client_wf(c2)
                &&& f.channels_map().dom().contains(c2.channel_id)
                &&& f.channels_map()[c2.channel_id].members@.contains(t)
            } by {
                assert(o.clients_map().dom().contains(t));
            }
            assert forall|cid: u32| #[trigger]
                f.channels_map().dom().contains(cid) implies {
                let ch = f.channels_map()[cid];
                forall|m: u32|
                    #![trigger ch.members@.contains(m)]
                    ch.members@.contains(m) ==> f.clients_map().dom().contains(m)
                        && f.clients_map()[m].channel_id == cid
            } by {
                let ch = f.channels_map()[cid];
                assert(o.channels_map().dom().contains(cid));
                assert forall|m: u32|
                    #![trigger ch.members@.contains(m)]
                    ch.members@.contains(m) implies f.clients_map().dom().contains(m)
                    && f.clients_map()[m].channel_id == cid by {
                    assert(o.channels_map()[cid].members@.contains(m));
                }
            }
            assert(f.inv_channels());
            assert(f.inv_socket());
            assert(f.inv_awaiting());
        }
        Some(effects)
    }

    /// Replaces a client's record with one that keeps its identity, channel
    /// and binding: the fields the indexes rest on.
    pub(crate) fn put_client_same_shape(&mut self, s: u32, c: Client)
        requires
            old(self).inv(),
            old(self).clients_map().dom().contains(s),
            c.session_id == s,
            c.channel_id == old(self).clients_map()[s].channel_id,
            c.udp_addr == old(self).clients_map()[s].udp_addr,
            client_wf(c),
        ensures
            final(self).inv(),
            final(self).clients_map() == old(self).clients_map().insert(s, c),
            final(self).clients_map().dom() == old(self).clients_map().dom(),
            final(self).socket_map() == old(self).socket_map(),
            final(self).awaiting_set() == old(self).awaiting_set(),
            final(self).channels_map() == old(self).channels_map(),
            final(self).next_session_id == old(self).next_session_id,
            final(self).codec_state == old(self).codec_state,
    {
        cm_insert(&mut self.clients, s, c);
        proof {
            let o = *old(self);
            let f = *self;
            assert(f.clients_map().dom() =~= o.clients_map().dom());
            assert forall|t: u32| #[trigger]
                f.clients_map().dom().contains(t) implies {
                let c2 = f.clients_map()[t];
                &&& c2.session_id == t
                &&& 1 <= t < f.next_session_id
                &&& client_wf(c2)
                &&& f.channels_map().dom().contains(c2.channel_id)
                &&& f.channels_map()[c2.channel_id].members@.contains(t)
            } by {
                assert(o.clients_map().dom().contains(t));
            }
            assert forall|cid: u32| #[trigger]
                f.channels_map().dom().contains(cid) implies {
                let ch = f.channels_map()[cid];
                forall|m: u32|
                    #![trigger ch.members@.contains(m)]
                    ch.members@.contains(m) ==> f.clients_map().dom().contains(m)
                        && f.clients_map()[m].channel_id == cid
            } by {
                let ch = f.channels_map()[cid];
                assert(o.channels_map().dom().contains(cid));
                assert forall|m: u32|
                    #![trigger ch.members@.contains(m)]
                    ch.members@.contains(m) implies f.clients_map().dom().contains(m)
                    && f.clients_map()[m].channel_id == cid by {
                    assert(o.channels_map()[cid].members@.contains(m));
                }
            }
            assert(f.inv_channels());
            assert(f.inv_socket());
            assert(f.inv_awaiting());
        }
    }

    /// The session of an effect aimed at one session.
    pub open spec fn effect_target(e: Effect) -> u32 {
        match e {
            Effect::Reply { session, .. } => session,
            Effect::Mailbox { session, .. } => session,
            Effect::SendUdp { .. } => 0,
        }
    }

    /// Fans a control message out to every connected client's mailbox, one
    /// effect per client, each carrying the same content. A full mailbox is
    /// the shell's concern: it drops for that recipient only.
    pub fn broadcast_message(&self, kind: MessageKind, message: &ControlMessage) -> (r: Vec<
        Effect,
    >)
        ensures
            forall|i: int|
                0 <= i < r@.len() ==> ((#[trigger] r@[i]) matches Effect::Mailbox {
                    session,
                    item,
                } && self.clients_map().dom().contains(session) && (item
                    matches ClientMessage::SendMessage { kind: k2, msg: m2 } && k2 == kind
                    && msg_eq(m2, *message))),
            forall|s: u32| #[trigger]
                self.clients_map().dom().contains(s) ==> exists|i: int|
                    0 <= i < r@.len() && Self::effect_target(#[trigger] r@[i]) == s,
            forall|i: int, j: int|
                0 <= i < j < r@.len() ==> Self::effect_target(r@[i]) != Self::effect_target(
                    r@[j],
                ),
    {
        let keys = cm_keys(&self.clients);
        let n: usize = keys.len();
        let mut out: Vec<Effect> = Vec::new();
        let mut i: usize = 0;
        while i < n
            invariant
                i <= n,
                n == keys@.len(),
                keys@.no_duplicates(),
                forall|k: u32| keys@.contains(k) <==> self.clients_map().dom().contains(k),
                out@.len() == i,
                forall|j: int|
                    0 <= j < i ==> ((#[trigger] out@[j]) matches Effect::Mailbox {
                        session,
                        item,
                    } && session == keys@[j] && (item matches ClientMessage::SendMessage {
                        kind: k2,
                        msg: m2,
                    } && k2 == kind && msg_eq(m2, *message))),
                forall|j: int| 0 <= j < i ==> Self::effect_target(out@[j]) == keys@[j],
            decreases n - i,
        {
            out.push(
                Effect::Mailbox {
                    session: keys[i],
                    item: ClientMessage::SendMessage { kind, msg: message.duplicate() },
                },
            );
            i = i + 1;
        }
        proof {
            assert forall|j: int|
                0 <= j < out@.len() implies ((#[trigger] out@[j]) matches Effect::Mailbox {
                session,
                item,
            } && self.clients_map().dom().contains(session) && (item
                matches ClientMessage::SendMessage { kind: k2, msg: m2 } && k2 == kind && msg_eq(
                m2,
                *message,
            ))) by {
                assert(keys@.contains(keys@[j]));
            }
            assert forall|s: u32| #[trigger]
                self.clients_map().dom().contains(s) implies exists|i2: int|
                0 <= i2 < out@.len() && Self::effect_target(#[trigger] out@[i2]) == s by {
                assert(keys@.contains(s));
                let j = choose|j: int| 0 <= j < keys@.len() && keys@[j] == s;
                assert(Self::effect_target(out@[j]) == s);
            }
        }
        out
    }

    /// The UDP binding algorithm. A datagram from a bound address is tried
    /// against that session alone, updating its telemetry. Otherwise every
    /// session awaiting a binding is tried without side effects; the first
    /// success binds the sender to the address and removes it from the
    /// awaiting set. No match leaves the registry unchanged.
    pub fn find_client_with_decrypt(&mut self, bytes: &Vec<u8>, from: UdpAddr, now: u64) -> (r:
        Option<(u32, Vec<u8>)>)
        requires
            old(self).inv(),
        ensures
            final(self).inv(),
            old(self).socket_map().dom().contains(from) ==> {
                let s = old(self).socket_map()[from];
                let oc = old(self).clients_map()[s].crypt;
                &&& (r is Some <==> spec_decrypt_result(oc, bytes@, now) is Ok)
                &&& (r matches Some((t, p)) ==> t == s && (spec_decrypt_result(oc, bytes@, now)
                    matches Ok(q) && p@ == q))
                &&& final(self).clients_map()[s] == (Client {
                    crypt: spec_decrypt_state(oc, bytes@, now),
                    ..old(self).clients_map()[s]
                })
                &&& forall|t: u32|
                    t != s && old(self).clients_map().dom().contains(t)
                        ==> final(self).clients_map()[t] == old(self).clients_map()[t]
                &&& final(self).clients_map().dom() == old(self).clients_map().dom()
                &&& final(self).socket_map() == old(self).socket_map()
                &&& final(self).awaiting_set() == old(self).awaiting_set()
                &&& final(self).channels_map() == old(self).channels_map()
            },
            !old(self).socket_map().dom().contains(from) ==> {
                &&& (r is None ==> *final(self) == *old(self))
                &&& (r is None ==> forall|t: u32| #[trigger]
                    old(self).awaiting_set().contains(t) ==> spec_decrypt_result(
                        old(self).clients_map()[t].crypt,
                        bytes@,
                        now,
                    ) is Err)
                &&& (r matches Some((t, p)) ==> {
                    let oc = old(self).clients_map()[t].crypt;
                    &&& old(self).awaiting_set().contains(t)
                    &&& (spec_decrypt_result(oc, bytes@, now) matches Ok(q) && p@ == q)
                    &&& final(self).socket_map() == old(self).socket_map().insert(from, t)
                    &&& !final(self).awaiting_set().contains(t)
                    &&& final(self).awaiting_set() == old(self).awaiting_set().remove(t)
                    &&& final(self).clients_map()[t] == (Client {
                        udp_addr: Some(from),
                        crypt: spec_decrypt_state(oc, bytes@, now),
                        ..old(self).clients_map()[t]
                    })
                    &&& forall|u: u32|
                        u != t && old(self).clients_map().dom().contains(u)
                            ==> final(self).clients_map()[u] == old(self).clients_map()[u]
                    &&& final(self).clients_map().dom() == old(self).clients_map().dom()
                    &&& final(self).channels_map() == old(self).channels_map()
                })
            },
    {
        match sockm_get(&self.clients_by_socket, from) {
            Some(s) => {
                let copt = cm_get(&self.clients, s);
                let mut c = copt.unwrap();
                let res = c.crypt.decrypt(bytes, now);
                self.put_client_same_shape(s, c);
                match res {
                    Ok(p) => Some((s, p)),
                    Err(_) => None,
                }
            },
            None => {
                let keys = am_keys(&self.awaiting_udp);
                let n: usize = keys.len();
                let mut i: usize = 0;
                while i < n
                    invariant
                        i <= n,
                        n == keys@.len(),
                        old(self).inv(),
                        *self == *old(self),
                        !old(self).socket_map().dom().contains(from),
                        keys@.no_duplicates(),
                        forall|k: u32|
                            keys@.contains(k) <==> old(self).awaiting_set().contains(k),
                        forall|j: int|
                            0 <= j < i ==> spec_decrypt_result(
                                old(self).clients_map()[#[trigger] keys@[j]].crypt,
                                bytes@,
                                now,
                            ) is Err,
                    decreases n - i,
                {
                    let t = keys[i];
                    proof {
                        assert(keys@.contains(t));
                    }
                    let copt = cm_get(&self.clients, t);
                    let mut c = copt.unwrap();
                    let mut trial: CryptState = c.crypt;
                    let res = trial.decrypt(bytes, now);
                    match res {
                        Ok(p) => {
                            c.crypt = trial;
                            self.put_client_same_shape(t, c);
                            self.set_client_socket(t, from);
                            proof {
                                let o = *old(self);
                                let f = *self;
                                assert(f.awaiting_set() =~= o.awaiting_set().remove(t));
                                assert(f.socket_map() =~= o.socket_map().insert(from, t));
                            }
                            return Some((t, p));
                        },
                        Err(_) => {},
                    }
                    i = i + 1;
                }
                proof {
                    assert forall|t: u32| #[trigger]
                        old(self).awaiting_set().contains(t) implies spec_decrypt_result(
                        old(self).clients_map()[t].crypt,
                        bytes@,
                        now,
                    ) is Err by {
                        assert(keys@.contains(t));
                        let j = choose|j: int| 0 <= j < keys@.len() && keys@[j] == t;
                    }
                }
                None
            },
        }
    }

    /// An effect enqueueing a `UserState` about `moved` (now in `cid`) on
    /// session `to`'s mailbox.
    pub open spec fn mailbox_user_state(e: Effect, to: u32, moved: u32, cid: u32) -> bool {
        e matches Effect::Mailbox { session, item } && session == to && (item
            matches ClientMessage::SendMessage { kind, msg } && kind == MessageKind::UserState
            && (msg matches ControlMessage::UserState(u) && u.session == Some(moved)
            && u.channel_id == Some(cid)))
    }

    /// An effect enqueueing a `ChannelRemove` for `cid` on session `to`'s
    /// mailbox.
    pub open spec fn mailbox_channel_remove(e: Effect, to: u32, cid: u32) -> bool {
        e matches Effect::Mailbox { session, item } && session == to && (item
            matches ClientMessage::SendMessage { kind, msg } && kind == MessageKind::ChannelRemove
            && (msg matches ControlMessage::ChannelRemove(c) && c.channel_id == cid))
    }

    /// An effect enqueueing a `UserRemove` for `removed` on session `to`'s
    /// mailbox.
    pub open spec fn mailbox_user_remove(e: Effect, to: u32, removed: u32) -> bool {
        e matches Effect::Mailbox { session, item } && session == to && (item
            matches ClientMessage::SendMessage { kind, msg } && kind == MessageKind::UserRemove
            && (msg matches ControlMessage::UserRemove(u) && u.session == removed))
    }

    /// Every session in `targets` is sent a `ChannelRemove` for `cid`.
    pub open spec fn covers_channel_remove(effs: Seq<Effect>, targets: Set<u32>, cid: u32) -> bool {
        forall|s: u32| #[trigger]
            targets.contains(s) ==> exists|i: int|
                0 <= i < effs.len() && Self::mailbox_channel_remove(#[trigger] effs[i], s, cid)
    }

    /// Every session in `targets` is sent a `UserRemove` for `removed`.
    pub open spec fn covers_user_remove(effs: Seq<Effect>, targets: Set<u32>, removed: u32) -> bool {
        forall|s: u32| #[trigger]
            targets.contains(s) ==> exists|i: int|
                0 <= i < effs.len() && Self::mailbox_user_remove(#[trigger] effs[i], s, removed)
    }

    /// Every session in `targets` is sent a `UserState` placing `moved` in
    /// `cid`.
    pub open spec fn covers_user_state(
        effs: Seq<Effect>,
        targets: Set<u32>,
        moved: u32,
        cid: u32,
    ) -> bool {
        forall|s: u32| #[trigger]
            targets.contains(s) ==> exists|i: int|
                0 <= i < effs.len() && Self::mailbox_user_state(#[trigger] effs[i], s, moved, cid)
    }

    /// Whether leaving `cid` garbage-collects it: a temporary, empty,
    /// non-Root channel with no child channels.
    pub open spec fn spec_gc_applies(self, cid: u32) -> bool {
        &&& self.channels_map().dom().contains(cid)
        &&& cid != ROOT_CHANNEL
        &&& self.channels_map()[cid].temporary
        &&& self.channels_map()[cid].members@.len() == 0
        &&& forall|c2: u32| #[trigger]
            self.channels_map().dom().contains(c2) ==> self.channels_map()[c2].parent_id != Some(
                cid,
            )
    }

    /// Creates a channel under the parent named by the message; fails when
    /// the parent is absent or the id space is exhausted.
    pub fn add_channel(&mut self, state: &ChannelStateMsg) -> (r: Option<u32>)
        requires
            old(self).inv(),
        ensures
            final(self).inv(),
            r is Some <==> (old(self).channels_map().dom().contains(state.parent) && old(
                self,
            ).channels_map().dom().len() + 2 < u32::MAX),
            r is None ==> *final(self) == *old(self),
            r matches Some(cid) ==> {
                &&& is_first_free_channel_id(old(self).channels_map(), cid)
                &&& !old(self).channels_map().dom().contains(cid)
                &&& final(self).channels_map().dom() == old(self).channels_map().dom().insert(cid)
                &&& final(self).channels_map()[cid].id == cid
                &&& final(self).channels_map()[cid].parent_id == Some(state.parent)
                &&& final(self).channels_map()[cid].name == state.name
                &&& final(self).channels_map()[cid].description == state.description
                &&& final(self).channels_map()[cid].temporary == state.temporary
                &&& final(self).channels_map()[cid].members@.len() == 0
                &&& forall|c2: u32|
                    c2 != cid && old(self).channels_map().dom().contains(c2)
                        ==> final(self).channels_map()[c2] == old(self).channels_map()[c2]
                &&& final(self).clients_map() == old(self).clients_map()
                &&& final(self).socket_map() == old(self).socket_map()
                &&& final(self).awaiting_set() == old(self).awaiting_set()
                &&& final(self).next_session_id == old(self).next_session_id
                &&& final(self).codec_state == old(self).codec_state
            },
    {
        let parent_opt = chm_get(&self.channels, state.parent);
        let n: usize = chm_len(&self.channels);
        if parent_opt.is_none() || n >= (u32::MAX as usize) - 2 {
            return None;
        }
        let mut cid: u32 = 1;
        while chm_contains(&self.channels, cid)
            invariant
                self.inv(),
                *self == *old(self),
                1 <= cid,
                n == self.channels_map().dom().len(),
                n < (u32::MAX as usize) - 2,
                forall|j: u32| 1 <= j < cid ==> self.channels_map().dom().contains(j),
                cid <= n + 1,
            decreases n + 1 - cid,
        {
            proof {
                let dom = self.channels_map().dom();
                let ids = Seq::new((cid + 1) as nat, |k: int| k as u32);
                assert forall|a: int, b: int|
                    0 <= a < ids.len() && 0 <= b < ids.len() && a != b implies ids[a]
                    != ids[b] by {
                    assert(ids[a] == a as u32 && ids[b] == b as u32);
                }
                assert forall|x: u32| ids.to_set().contains(x) implies dom.contains(x) by {
                    assert(ids.contains(x));
                    let k = choose|k: int| 0 <= k < ids.len() && ids[k] == x;
                    if k == 0 {
                        assert(x == ROOT_CHANNEL);
                    } else if k < cid {
                        assert(1 <= x < cid);
                    } else {
                        assert(x == cid);
                    }
                }
                ids.unique_seq_to_set();
                vstd::set_lib::lemma_len_subset(ids.to_set(), dom);
                assert(cid + 1 <= n);
            }
            cid = cid + 1;
        }
        proof {
            assert(is_first_free_channel_id(self.channels_map(), cid));
        }
        let ch = Channel::new(
            cid,
            Some(state.parent),
            state.name.clone(),
            state.description.clone(),
            state.temporary,
        );
        chm_insert(&mut self.channels, cid, ch);
        proof {
            let o = *old(self);
            let f = *self;
            assert(f.channels_map().dom() =~= o.channels_map().dom().insert(cid));
            assert forall|t: u32| #[trigger]
                f.clients_map().dom().contains(t) implies {
                let c2 = f.clients_map()[t];
                &&& c2.session_id == t
                &&& 1 <= t < f.next_session_id
                &&& client_wf(c2)
                &&& f.channels_map().dom().contains(c2.channel_id)
                &&& f.channels_map()[c2.channel_id].members@.contains(t)
            } by {
                assert(o.clients_map().dom().contains(t));
                assert(o.channels_map().dom().contains(o.clients_map()[t].channel_id));
                assert(o.clients_map()[t].channel_id != cid);
            }
            assert forall|c2: u32| #[trigger]
                f.channels_map().dom().contains(c2) implies {
                let ch2 = f.channels_map()[c2];
                &&& ch2.id == c2
                &&& channel_wf(ch2)
                &&& (c2 != ROOT_CHANNEL ==> (ch2.parent_id matches Some(p)
                    && f.channels_map().dom().contains(p) && p != c2))
                &&& forall|m: u32|
                    #![trigger ch2.members@.contains(m)]
                    ch2.members@.contains(m) ==> f.clients_map().dom().contains(m)
                        && f.clients_map()[m].channel_id == c2
            } by {
                if c2 != cid {
                    assert(o.channels_map().dom().contains(c2));
                    assert(f.channels_map()[c2] == o.channels_map()[c2]);
                }
            }
            assert(f.inv_socket());
            assert(f.inv_awaiting());
        }
        Some(cid)
    }

    /// Garbage-collects a channel a session just left: a temporary, empty,
    /// non-Root channel with no children is removed and its removal
    /// broadcast. This is the only path that deletes a channel.
    fn handle_client_left_channel(&mut self, leave_channel_id: u32) -> (r: (
        Option<u32>,
        Vec<Effect>,
    ))
        requires
            old(self).inv(),
        ensures
            final(self).inv(),
            final(self).clients_map() == old(self).clients_map(),
            final(self).socket_map() == old(self).socket_map(),
            final(self).awaiting_set() == old(self).awaiting_set(),
            final(self).next_session_id == old(self).next_session_id,
            final(self).codec_state == old(self).codec_state,
            !old(self).spec_gc_applies(leave_channel_id) ==> (*final(self) == *old(self) && r.0
                is None && r.1@.len() == 0),
            old(self).spec_gc_applies(leave_channel_id) ==> {
                &&& final(self).channels_map() == old(self).channels_map().remove(
                    leave_channel_id,
                )
                &&& r.0 == Some(leave_channel_id)
                &&& Self::covers_channel_remove(
                    r.1@,
                    old(self).clients_map().dom(),
                    leave_channel_id,
                )
                &&& forall|i: int|
                    0 <= i < r.1@.len() ==> Self::mailbox_channel_remove(
                        #[trigger] r.1@[i],
                        Self::effect_target(r.1@[i]),
                        leave_channel_id,
                    )
            },
    {
        let chopt = chm_get(&self.channels, leave_channel_id);
        if chopt.is_none() {
            return (None, Vec::new());
        }
        let ch = chopt.unwrap();
        if leave_channel_id == ROOT_CHANNEL || !ch.temporary || ch.members.len() > 0 {
            return (None, Vec::new());
        }
        let keys = chm_keys(&self.channels);
        let n: usize = keys.len();
        let mut i: usize = 0;
        while i < n
            invariant
                i <= n,
                n == keys@.len(),
                *self == *old(self),
                old(self).inv(),
                keys@.no_duplicates(),
                forall|k: u32| keys@.contains(k) <==> self.channels_map().dom().contains(k),
                forall|j: int|
                    0 <= j < i ==> self.channels_map()[#[trigger] keys@[j]].parent_id != Some(
                        leave_channel_id,
                    ),
            decreases n - i,
        {
            proof {
                assert(keys@.contains(keys@[i as int]));
            }
            let c2opt = chm_get(&self.channels, keys[i]);
            let c2 = c2opt.unwrap();
            let is_child = match c2.parent_id {
                Some(p) => p == leave_channel_id,
                None => false,
            };
            if is_child {
                return (None, Vec::new());
            }
            i = i + 1;
        }
        proof {
            assert forall|c2: u32| #[trigger]
                self.channels_map().dom().contains(c2) implies self.channels_map()[
            c2].parent_id != Some(leave_channel_id) by {
                assert(keys@.contains(c2));
                let j = choose|j: int| 0 <= j < keys@.len() && keys@[j] == c2;
            }
            assert(old(self).spec_gc_applies(leave_channel_id));
        }
        let effects = self.broadcast_message(
            MessageKind::ChannelRemove,
            &ControlMessage::ChannelRemove(ChannelRemoveMsg { channel_id: leave_channel_id }),
        );
        chm_remove(&mut self.channels, leave_channel_id);
        proof {
            let o = *old(self);
            let f = *self;
            assert(f.channels_map() =~= o.channels_map().remove(leave_channel_id));
            assert forall|t: u32| #[trigger]
                f.clients_map().dom().contains(t) implies {
                let c2 = f.clients_map()[t];
                &&& c2.session_id == t
                &&& 1 <= t < f.next_session_id
                &&& client_wf(c2)
                &&& f.channels_map().dom().contains(c2.channel_id)
                &&& f.channels_map()[c2.channel_id].members@.contains(t)
            } by {
                assert(o.clients_map().dom().contains(t));
                if o.clients_map()[t].channel_id == leave_channel_id {
                    assert(o.channels_map()[leave_channel_id].members@.contains(t));
                    assert(false);
                }
            }
            assert forall|c2: u32| #[trigger]
                f.channels_map().dom().contains(c2) implies {
                let ch2 = f.channels_map()[c2];
                &&& ch2.id == c2
                &&& channel_wf(ch2)
                &&& (c2 != ROOT_CHANNEL ==> (ch2.parent_id matches Some(p)
                    && f.channels_map().dom().contains(p) && p != c2))
                &&& forall|m: u32|
                    #![trigger ch2.members@.contains(m)]
                    ch2.members@.contains(m) ==> f.clients_map().dom().contains(m)
                        && f.clients_map()[m].channel_id == c2
            } by {
                assert(o.channels_map().dom().contains(c2));
                assert(f.channels_map()[c2] == o.channels_map()[c2]);
                assert(o.channels_map()[c2].parent_id != Some(leave_channel_id));
            }
            assert(f.inv_socket());
            assert(f.inv_awaiting());
            assert forall|s: u32| #[trigger]
                o.clients_map().dom().contains(s) implies exists|i2: int|
                0 <= i2 < effects@.len() && Self::mailbox_channel_remove(
                    #[trigger] effects@[i2],
                    s,
                    leave_channel_id,
                ) by {
                let j = choose|j: int|
                    0 <= j < effects@.len() && Self::effect_target(#[trigger] effects@[j]) == s;
                assert(Self::mailbox_channel_remove(effects@[j], s, leave_channel_id));
            }
            assert(Self::covers_channel_remove(
                effects@,
                o.clients_map().dom(),
                leave_channel_id,
            ));
        }
        (Some(leave_channel_id), effects)
    }

    /// Moves a client to another channel: membership moves with it, the new
    /// `UserState` is broadcast, and a temporary channel left empty is
    /// garbage-collected, its `ChannelRemove` broadcast strictly after the
    /// move's `UserState`. Fails exactly when the target channel is absent.
    pub fn set_client_channel(&mut self, session: u32, channel_id: u32) -> (r: Result<
        Vec<Effect>,
        MumbleError,
    >)
        requires
            old(self).inv(),
            old(self).clients_map().dom().contains(session),
        ensures
            final(self).inv(),
            final(self).next_session_id == old(self).next_session_id,
            final(self).codec_state == old(self).codec_state,
            r is Err <==> !old(self).channels_map().dom().contains(channel_id),
            r matches Err(e) ==> *final(self) == *old(self) && e
                == MumbleError::ChannelDoesntExist,
            r matches Ok(effects) ==> {
                let och = old(self).clients_map()[session].channel_id;
                &&& (och == channel_id ==> *final(self) == *old(self) && effects@.len() == 0)
                &&& (och != channel_id ==> {
                    let gc = och != ROOT_CHANNEL && old(self).channels_map()[och].temporary && old(
                        self,
                    ).channels_map()[och].members@.to_set().remove(session) =~= Set::empty() && (
                    forall|c2: u32| #[trigger]
                        old(self).channels_map().dom().contains(c2) ==> old(
                            self,
                        ).channels_map()[c2].parent_id != Some(och));
                    &&& final(self).clients_map().dom() == old(self).clients_map().dom()
                    &&& final(self).clients_map()[session] == (Client {
                        channel_id: channel_id,
                        ..old(self).clients_map()[session]
                    })
                    &&& forall|t: u32|
                        t != session && old(self).clients_map().dom().contains(t)
                            ==> final(self).clients_map()[t] == old(self).clients_map()[t]
                    &&& final(self).socket_map() == old(self).socket_map()
                    &&& final(self).awaiting_set() == old(self).awaiting_set()
                    &&& final(self).channels_map().dom().contains(channel_id)
                    &&& final(self).channels_map()[channel_id].members@.to_set() == old(
                        self,
                    ).channels_map()[channel_id].members@.to_set().insert(session)
                    &&& final(self).channels_map()[channel_id].members@.contains(session)
                    &&& (gc ==> final(self).channels_map().dom() == old(
                        self,
                    ).channels_map().dom().remove(och))
                    &&& (gc ==> Self::covers_channel_remove(
                        effects@,
                        old(self).clients_map().dom(),
                        och,
                    ))
                    &&& (!gc ==> final(self).channels_map().dom() == old(
                        self,
                    ).channels_map().dom() && final(self).channels_map()[och].members@.to_set()
                        == old(self).channels_map()[och].members@.to_set().remove(session))
                    &&& Self::covers_user_state(
                        effects@,
                        old(self).clients_map().dom(),
                        session,
                        channel_id,
                    )
                    &&& forall|i: int, j: int|
                        0 <= i < effects@.len() && 0 <= j < effects@.len()
                            && Self::mailbox_user_state(
                            #[trigger] effects@[i],
                            Self::effect_target(effects@[i]),
                            session,
                            channel_id,
                        ) && Self::mailbox_channel_remove(
                            #[trigger] effects@[j],
                            Self::effect_target(effects@[j]),
                            och,
                        ) ==> i < j
                })
            },
    {
        let newopt = chm_get(&self.channels, channel_id);
        if newopt.is_none() {
            return Err(MumbleError::ChannelDoesntExist);
        }
        let copt = cm_get(&self.clients, session);
        let mut c = copt.unwrap();
        let och = c.channel_id;
        if och == channel_id {
            return Ok(Vec::new());
        }
        c.channel_id = channel_id;
        cm_insert(&mut self.clients, session, c);
        let mut nch = newopt.unwrap();
        proof {
            lemma_members_bounded(*old(self), channel_id);
        }
        vs_insert(&mut nch.members, session);
        chm_insert(&mut self.channels, channel_id, nch);
        let ochopt = chm_get(&self.channels, och);
        let mut ocv = ochopt.unwrap();
        vs_remove(&mut ocv.members, session);
        chm_insert(&mut self.channels, och, ocv);
        proof {
            let o = *old(self);
            let f = *self;
            assert(f.clients_map().dom() =~= o.clients_map().dom());
            assert(f.channels_map().dom() =~= o.channels_map().dom());
            assert forall|t: u32| #[trigger]
                f.clients_map().dom().contains(t) implies {
                let c2 = f.clients_map()[t];
                &&& c2.session_id == t
                &&& 1 <= t < f.next_session_id
                &&& client_wf(c2)
                &&& f.channels_map().dom().contains(c2.channel_id)
                &&& f.channels_map()[c2.channel_id].members@.contains(t)
            } by {
                assert(o.clients_map().dom().contains(t));
                if t == session {
                    assert(f.channels_map()[channel_id].members@.contains(session));
                } else {
                    let tc = o.clients_map()[t].channel_id;
                    assert(o.channels_map()[tc].members@.contains(t));
                    if tc == channel_id {
                        assert(f.channels_map()[channel_id].members@.contains(t));
                    } else if tc == och {
                        assert(t != session);
                        assert(f.channels_map()[och].members@.contains(t));
                    } else {
                        assert(f.channels_map()[tc] == o.channels_map()[tc]);
                    }
                }
            }
            assert forall|cid: u32| #[trigger]
                f.channels_map().dom().contains(cid) implies {
                let ch2 = f.channels_map()[cid];
                &&& ch2.id == cid
                &&& channel_wf(ch2)
                &&& (cid != ROOT_CHANNEL ==> (ch2.parent_id matches Some(p)
                    && f.channels_map().dom().contains(p) && p != cid))
                &&& forall|m: u32|
                    #![trigger ch2.members@.contains(m)]
                    ch2.members@.contains(m) ==> f.clients_map().dom().contains(m)
                        && f.clients_map()[m].channel_id == cid
            } by {
                assert(o.channels_map().dom().contains(cid));
                let ch2 = f.channels_map()[cid];
                assert forall|m: u32|
                    #![trigger ch2.members@.contains(m)]
                    ch2.members@.contains(m) implies f.clients_map().dom().contains(m)
                    && f.clients_map()[m].channel_id == cid by {
                    if cid == channel_id {
                        if m != session {
                            assert(o.channels_map()[channel_id].members@.contains(m));
                            assert(o.clients_map()[m].channel_id == channel_id);
                            assert(m != session);
                        }
                    } else if cid == och {
                        assert(o.channels_map()[och].members@.contains(m));
                        assert(m != session);
                    } else {
                        assert(f.channels_map()[cid] == o.channels_map()[cid]);
                        assert(o.channels_map()[cid].members@.contains(m));
                        assert(m != session);
                    }
                }
            }
            assert(f.inv_socket());
            assert(f.inv_awaiting());
        }
        let ccopt = cm_get(&self.clients, session);
        let cc = ccopt.unwrap();
        let us = cc.get_user_state();
        let mut effects = self.broadcast_message(
            MessageKind::UserState,
            &ControlMessage::UserState(us),
        );
        let ghost mid = *self;
        let ghost us_len = effects@.len();
        proof {
            assert forall|s2: u32| #[trigger]
                old(self).clients_map().dom().contains(s2) implies exists|i: int|
                0 <= i < effects@.len() && Self::mailbox_user_state(
                    #[trigger] effects@[i],
                    s2,
                    session,
                    channel_id,
                ) by {
                let j = choose|j: int|
                    0 <= j < effects@.len() && Self::effect_target(#[trigger] effects@[j]) == s2;
                assert(Self::mailbox_user_state(effects@[j], s2, session, channel_id));
            }
        }
        let (_removed, mut gc_eff) = self.handle_client_left_channel(och);
        proof {
            assert forall|i: int|
                0 <= i < gc_eff@.len() implies !Self::mailbox_user_state(
                #[trigger] gc_eff@[i],
                Self::effect_target(gc_eff@[i]),
                session,
                channel_id,
            ) by {
                if mid.spec_gc_applies(och) {
                    assert(Self::mailbox_channel_remove(
                        gc_eff@[i],
                        Self::effect_target(gc_eff@[i]),
                        och,
                    ));
                }
            }
        }
        let ghost pre = effects@;
        let ghost gseq = gc_eff@;
        effects.append(&mut gc_eff);
        proof {
            assert(effects@ == pre + gseq);
            let o = *old(self);
            assert forall|s2: u32| #[trigger]
                o.clients_map().dom().contains(s2) implies exists|i: int|
                0 <= i < effects@.len() && Self::mailbox_user_state(
                    #[trigger] effects@[i],
                    s2,
                    session,
                    channel_id,
                ) by {
                let j = choose|j: int|
                    0 <= j < pre.len() && Self::mailbox_user_state(
                        #[trigger] pre[j],
                        s2,
                        session,
                        channel_id,
                    );
                assert(effects@[j] == pre[j]);
            }
            assert(Self::covers_user_state(effects@, o.clients_map().dom(), session, channel_id));
            if mid.spec_gc_applies(och) {
                assert(Self::covers_channel_remove(gseq, mid.clients_map().dom(), och));
                assert forall|s2: u32| #[trigger]
                    o.clients_map().dom().contains(s2) implies exists|i: int|
                    0 <= i < effects@.len() && Self::mailbox_channel_remove(
                        #[trigger] effects@[i],
                        s2,
                        och,
                    ) by {
                    assert(mid.clients_map().dom().contains(s2));
                    let j = choose|j: int|
                        0 <= j < gseq.len() && Self::mailbox_channel_remove(
                            #[trigger] gseq[j],
                            s2,
                            och,
                        );
                    assert(effects@[pre.len() + j] == gseq[j]);
                }
                assert(Self::covers_channel_remove(effects@, o.clients_map().dom(), och));
            }
        }
        proof {
            let o = *old(self);
            let f = *self;
            let gc = och != ROOT_CHANNEL && o.channels_map()[och].temporary
                && o.channels_map()[och].members@.to_set().remove(session) =~= Set::empty() && (
            forall|c2: u32| #[trigger]
                o.channels_map().dom().contains(c2) ==> o.channels_map()[c2].parent_id != Some(
                    och,
                ));
            assert(mid.channels_map()[och].members@.to_set() =~= o.channels_map()[
            och].members@.to_set().remove(session));
            if gc {
                mid.channels_map()[och].members@.unique_seq_to_set();
                assert(mid.channels_map()[och].members@.to_set().len() == 0);
                assert(mid.channels_map()[och].members@.len() == 0);
                assert forall|c2: u32| #[trigger]
                    mid.channels_map().dom().contains(c2) implies mid.channels_map()[
                c2].parent_id != Some(och) by {
                    assert(o.channels_map().dom().contains(c2));
                }
                assert(mid.spec_gc_applies(och));
                assert(f.channels_map().dom() =~= o.channels_map().dom().remove(och));
            } else {
                if mid.spec_gc_applies(och) {
                    if !(och != ROOT_CHANNEL && o.channels_map()[och].temporary) {
                        assert(false);
                    } else if !(o.channels_map()[och].members@.to_set().remove(session)
                        =~= Set::empty()) {
                        mid.channels_map()[och].members@.unique_seq_to_set();
                        assert(mid.channels_map()[och].members@.len() > 0) by {
                            let w = choose|w: u32|
                                o.channels_map()[och].members@.to_set().remove(session).contains(
                                    w,
                                );
                            assert(mid.channels_map()[och].members@.to_set().contains(w));
                        }
                        assert(false);
                    } else {
                        let c2 = choose|c2: u32|
                            #[trigger] o.channels_map().dom().contains(c2)
                                && o.channels_map()[c2].parent_id == Some(och);
                        assert(mid.channels_map().dom().contains(c2));
                        assert(mid.channels_map()[c2].parent_id == Some(och));
                        assert(false);
                    }
                }
                assert(f.channels_map().dom() =~= o.channels_map().dom());
            }
        }
        Ok(effects)
    }

    /// Removes a session from every index, drops its channel membership and
    /// listener subscriptions, signals its mailbox to exit, broadcasts
    /// `UserRemove` to the remaining clients, and garbage-collects the
    /// channel it left. Disconnecting an unknown session changes nothing and
    /// emits nothing, so the operation is idempotent.
    pub fn disconnect(&mut self, session: u32) -> (r: Vec<Effect>)
        requires
            old(self).inv(),
        ensures
            final(self).inv(),
            !final(self).clients_map().dom().contains(session),
            !old(self).clients_map().dom().contains(session) ==> (*final(self) == *old(self)
                && r@.len() == 0),
            old(self).clients_map().dom().contains(session) ==> {
                let oc = old(self).clients_map()[session];
                let och = oc.channel_id;
                let gc = och != ROOT_CHANNEL && old(self).channels_map()[och].temporary && old(
                    self,
                ).channels_map()[och].members@.to_set().remove(session) =~= Set::empty() && (
                forall|c2: u32| #[trigger]
                    old(self).channels_map().dom().contains(c2) ==> old(
                        self,
                    ).channels_map()[c2].parent_id != Some(och));
                &&& final(self).clients_map().dom() == old(self).clients_map().dom().remove(
                    session,
                )
                &&& forall|t: u32|
                    t != session && old(self).clients_map().dom().contains(t)
                        ==> final(self).clients_map()[t] == old(self).clients_map()[t]
                &&& final(self).awaiting_set() == old(self).awaiting_set().remove(session)
                &&& final(self).socket_map() == (match oc.udp_addr {
                    Some(a) => old(self).socket_map().remove(a),
                    None => old(self).socket_map(),
                })
                &&& forall|cid: u32| #[trigger]
                    final(self).channels_map().dom().contains(cid)
                        ==> !final(self).channels_map()[cid].members@.contains(session)
                        && !final(self).channels_map()[cid].listeners@.contains(session)
                &&& r@.len() >= 1
                &&& r@[0] == (Effect::Mailbox { session, item: ClientMessage::Disconnect })
                &&& Self::covers_user_remove(
                    r@,
                    old(self).clients_map().dom().remove(session),
                    session,
                )
                &&& forall|i: int|
                    0 <= i < r@.len() ==> ((#[trigger] r@[i]) == (Effect::Mailbox {
                        session,
                        item: ClientMessage::Disconnect,
                    }) || Self::mailbox_user_remove(r@[i], Self::effect_target(r@[i]), session)
                        || Self::mailbox_channel_remove(r@[i], Self::effect_target(r@[i]), och))
                &&& (gc ==> final(self).channels_map().dom() == old(
                    self,
                ).channels_map().dom().remove(och))
                &&& (!gc ==> final(self).channels_map().dom() == old(self).channels_map().dom())
            },
            final(self).next_session_id == old(self).next_session_id,
            final(self).codec_state == old(self).codec_state,
    {
        let copt = cm_get(&self.clients, session);
        if copt.is_none() {
            return Vec::new();
        }
        let c = copt.unwrap();
        let och = c.channel_id;
        cm_remove(&mut self.clients, session);
        am_remove(&mut self.awaiting_udp, session);
        match c.udp_addr {
            Some(a) => {
                sockm_remove(&mut self.clients_by_socket, a);
            },
            None => {},
        }
        let ochopt = chm_get(&self.channels, och);
        let mut ocv = ochopt.unwrap();
        vs_remove(&mut ocv.members, session);
        vs_remove(&mut ocv.listeners, session);
        chm_insert(&mut self.channels, och, ocv);
        let ghost base = *self;
        let keys = chm_keys(&self.channels);
        let n: usize = keys.len();
        let mut i: usize = 0;
        while i < n
            invariant
                i <= n,
                n == keys@.len(),
                keys@.no_duplicates(),
                forall|k: u32| keys@.contains(k) <==> base.channels_map().dom().contains(k),
                self.clients == base.clients,
                self.clients_by_socket == base.clients_by_socket,
                self.awaiting_udp == base.awaiting_udp,
                self.codec_state == base.codec_state,
                self.next_session_id == base.next_session_id,
                self.channels_map().dom() == base.channels_map().dom(),
                forall|cid: u32| #[trigger]
                    self.channels_map().dom().contains(cid) ==> {
                        let a = self.channels_map()[cid];
                        let b = base.channels_map()[cid];
                        &&& a.id == b.id
                        &&& a.parent_id == b.parent_id
                        &&& a.name == b.name
                        &&& a.description == b.description
                        &&& a.temporary == b.temporary
                        &&& a.members == b.members
                        &&& a.listeners@.no_duplicates()
                        &&& b.listeners@.no_duplicates()
                        &&& forall|y: u32|
                            #![trigger a.listeners@.contains(y)]
                            (a.listeners@.contains(y) ==> b.listeners@.contains(y)) && ((
                            b.listeners@.contains(y) && y != session)
                                ==> a.listeners@.contains(y))
                    },
                forall|j: int|
                    0 <= j < i ==> !self.channels_map()[#[trigger] keys@[j]].listeners@.contains(
                        session,
                    ),
            decreases n - i,
        {
            proof {
                assert(keys@.contains(keys@[i as int]));
                assert(base.channels_map().dom().contains(keys@[i as int]));
            }
            let c2opt = chm_get(&self.channels, keys[i]);
            let mut ch2 = c2opt.unwrap();
            if vs_contains(&ch2.listeners, session) {
                proof {
                    assert(self.channels_map()[keys@[i as int]].listeners@.no_duplicates());
                }
                vs_remove(&mut ch2.listeners, session);
                chm_insert(&mut self.channels, keys[i], ch2);
                proof {
                    assert(self.channels_map().dom() =~= base.channels_map().dom());
                }
            }
            i = i + 1;
        }
        proof {
            let o = *old(self);
            let f = *self;
            assert forall|cid: u32| #[trigger]
                f.channels_map().dom().contains(cid) implies !f.channels_map()[
            cid].listeners@.contains(session) by {
                assert(keys@.contains(cid));
                let j = choose|j: int| 0 <= j < keys@.len() && keys@[j] == cid;
            }
            assert(f.clients_map().dom() =~= o.clients_map().dom().remove(session));
            assert(f.awaiting_set() =~= o.awaiting_set().remove(session));
            match o.clients_map()[session].udp_addr {
                Some(a) => {
                    assert(f.socket_map() =~= o.socket_map().remove(a));
                },
                None => {
                    assert(f.socket_map() =~= o.socket_map());
                },
            }
            assert forall|t: u32| #[trigger]
                f.clients_map().dom().contains(t) implies {
                let c2 = f.clients_map()[t];
                &&& c2.session_id == t
                &&& 1 <= t < f.next_session_id
                &&& client_wf(c2)
                &&& f.channels_map().dom().contains(c2.channel_id)
                &&& f.channels_map()[c2.channel_id].members@.contains(t)
            } by {
                assert(o.clients_map().dom().contains(t));
                let tc = o.clients_map()[t].channel_id;
                assert(o.channels_map()[tc].members@.contains(t));
                assert(f.channels_map().dom().contains(tc));
                if tc == och {
                    assert(base.channels_map()[och].members@.contains(t));
                    assert(f.channels_map()[tc].members == base.channels_map()[tc].members);
                } else {
                    assert(base.channels_map()[tc].members == o.channels_map()[tc].members);
                    assert(f.channels_map()[tc].members == base.channels_map()[tc].members);
                }
            }
            assert forall|cid: u32| #[trigger]
                f.channels_map().dom().contains(cid) implies {
                let ch2 = f.channels_map()[cid];
                &&& ch2.id == cid
                &&& channel_wf(ch2)
                &&& (cid != ROOT_CHANNEL ==> (ch2.parent_id matches Some(p)
                    && f.channels_map().dom().contains(p) && p != cid))
                &&& forall|m: u32|
                    #![trigger ch2.members@.contains(m)]
                    ch2.members@.contains(m) ==> f.clients_map().dom().contains(m)
                        && f.clients_map()[m].channel_id == cid
            } by {
                assert(o.channels_map().dom().contains(cid));
                let ch2 = f.channels_map()[cid];
                assert(ch2.members == base.channels_map()[cid].members);
                assert forall|m: u32|
                    #![trigger ch2.members@.contains(m)]
                    ch2.members@.contains(m) implies f.clients_map().dom().contains(m)
                    && f.clients_map()[m].channel_id == cid by {
                    if cid == och {
                        assert(o.channels_map()[och].members@.contains(m));
                        assert(m != session);
                    } else {
                        assert(base.channels_map()[cid].members == o.channels_map()[cid].members);
                        assert(o.channels_map()[cid].members@.contains(m));
                        assert(m != session);
                    }
                }
            }
            assert forall|x: u32| f.clients_map().dom().contains(x) implies o.clients_map(
            ).dom().contains(x) by {}
            vstd::set_lib::lemma_len_subset(f.clients_map().dom(), o.clients_map().dom());
            assert(f.inv_clients());
            assert(f.channels_map().dom() =~= o.channels_map().dom());
            assert(f.channels_map().dom().contains(ROOT_CHANNEL));
            assert(base.channels_map()[ROOT_CHANNEL].parent_id is None && !base.channels_map()[
            ROOT_CHANNEL].temporary);
            assert(f.channels_map()[ROOT_CHANNEL].parent_id is None && !f.channels_map()[
            ROOT_CHANNEL].temporary);
            assert(f.inv_channels());
            assert(f.inv_socket());
            assert(f.inv_awaiting());
            assert(f.inv());
            assert(f.channels_map().dom().contains(och));
            assert(f.channels_map()[och].members@.to_set() =~= o.channels_map()[
            och].members@.to_set().remove(session));
            assert(f.channels_map()[och].members@.no_duplicates());
            assert forall|c2: u32| #[trigger]
                f.channels_map().dom().contains(c2) implies f.channels_map()[c2].parent_id
                == o.channels_map()[c2].parent_id by {}
        }
        let mut effects: Vec<Effect> = Vec::new();
        effects.push(Effect::Mailbox { session, item: ClientMessage::Disconnect });
        let mut um = self.broadcast_message(
            MessageKind::UserRemove,
            &ControlMessage::UserRemove(
                UserRemoveMsg { session, reason: String::from_str("disconnected") },
            ),
        );
        let ghost mid = *self;
        let ghost um_seq = um@;
        effects.append(&mut um);
        let ghost pre = effects@;
        let (_removed, mut gc_eff) = self.handle_client_left_channel(och);
        let ghost gseq = gc_eff@;
        effects.append(&mut gc_eff);
        proof {
            let o = *old(self);
            let f = *self;
            assert(pre == seq![Effect::Mailbox { session, item: ClientMessage::Disconnect }]
                + um_seq);
            assert(effects@ == pre + gseq);
            assert(effects@[0] == (Effect::Mailbox { session, item: ClientMessage::Disconnect }));
            assert forall|s2: u32| #[trigger]
                o.clients_map().dom().remove(session).contains(s2) implies exists|i: int|
                0 <= i < effects@.len() && Self::mailbox_user_remove(
                    #[trigger] effects@[i],
                    s2,
                    session,
                ) by {
                assert(mid.clients_map().dom().contains(s2));
                let j = choose|j: int|
                    0 <= j < um_seq.len() && Self::effect_target(#[trigger] um_seq[j]) == s2;
                assert(Self::mailbox_user_remove(um_seq[j], s2, session));
                assert(effects@[1 + j] == um_seq[j]);
            }
            assert(Self::covers_user_remove(
                effects@,
                o.clients_map().dom().remove(session),
                session,
            ));
            assert forall|i: int|
                0 <= i < effects@.len() implies ((#[trigger] effects@[i]) == (Effect::Mailbox {
                session,
                item: ClientMessage::Disconnect,
            }) || Self::mailbox_user_remove(effects@[i], Self::effect_target(effects@[i]), session)
                || Self::mailbox_channel_remove(
                effects@[i],
                Self::effect_target(effects@[i]),
                och,
            )) by {
                if i == 0 {
                    assert(effects@[0] == pre[0]);
                } else if i < pre.len() {
                    assert(effects@[i] == pre[i] && pre[i] == um_seq[i - 1]);
                } else {
                    assert(effects@[i] == gseq[i - pre.len()]);
                    assert(mid.spec_gc_applies(och));
                    assert(Self::mailbox_channel_remove(
                        gseq[i - pre.len()],
                        Self::effect_target(gseq[i - pre.len()]),
                        och,
                    ));
                }
            }
            let oc = o.clients_map()[session];
            let gc = och != ROOT_CHANNEL && o.channels_map()[och].temporary && o.channels_map()[
            och].members@.to_set().remove(session) =~= Set::empty() && (forall|c2: u32| #[trigger]
                o.channels_map().dom().contains(c2) ==> o.channels_map()[c2].parent_id != Some(
                    och,
                ));
            assert(mid.channels_map()[och].members@.to_set() =~= o.channels_map()[
            och].members@.to_set().remove(session));
            if gc {
                mid.channels_map()[och].members@.unique_seq_to_set();
                assert(mid.channels_map()[och].members@.to_set().len() == 0);
                assert(mid.channels_map()[och].members@.len() == 0);
                assert forall|c2: u32| #[trigger]
                    mid.channels_map().dom().contains(c2) implies mid.channels_map()[
                c2].parent_id != Some(och) by {
                    assert(o.channels_map().dom().contains(c2));
                }
                assert(mid.spec_gc_applies(och));
                assert(f.channels_map().dom() =~= o.channels_map().dom().remove(och));
            } else {
                if mid.spec_gc_applies(och) {
                    if !(och != ROOT_CHANNEL && o.channels_map()[och].temporary) {
                        assert(false);
                    } else if !(o.channels_map()[och].members@.to_set().remove(session)
                        =~= Set::empty()) {
                        mid.channels_map()[och].members@.unique_seq_to_set();
                        assert(mid.channels_map()[och].members@.len() > 0) by {
                            let w = choose|w: u32|
                                o.channels_map()[och].members@.to_set().remove(session).contains(
                                    w,
                                );
                            assert(mid.channels_map()[och].members@.to_set().contains(w));
                        }
                        assert(false);
                    } else {
                        let c2 = choose|c2: u32|
                            #[trigger] o.channels_map().dom().contains(c2)
                                && o.channels_map()[c2].parent_id == Some(och);
                        assert(mid.channels_map().dom().contains(c2));
                        assert(mid.channels_map()[c2].parent_id == Some(och));
                        assert(false);
                    }
                }
                assert(f.channels_map().dom() =~= o.channels_map().dom());
            }
            assert forall|cid: u32| #[trigger]
                f.channels_map().dom().contains(cid) implies !f.channels_map()[
            cid].members@.contains(session) && !f.channels_map()[cid].listeners@.contains(
                session,
            ) by {
                assert(mid.channels_map().dom().contains(cid));
                assert(f.channels_map()[cid] == mid.channels_map()[cid]);
                if mid.channels_map()[cid].members@.contains(session) {
                    assert(mid.clients_map().dom().contains(session));
                    assert(false);
                }
            }
        }
        effects
    }

    /// Every session in `targets` is the target of some effect.
    pub open spec fn targets_covered(effs: Seq<Effect>, targets: Set<u32>) -> bool {
        forall|s: u32| #[trigger]
            targets.contains(s) ==> exists|i: int|
                0 <= i < effs.len() && Self::effect_target(#[trigger] effs[i]) == s
    }

    /// Every effect is a mailbox `CodecVersion` carrying `m`.
    pub open spec fn all_codec_version(effs: Seq<Effect>, m: CodecVersionMsg) -> bool {
        forall|i: int|
            0 <= i < effs.len() ==> ((#[trigger] effs[i]) matches Effect::Mailbox {
                session,
                item,
            } && (item matches ClientMessage::SendMessage { kind, msg } && kind
                == MessageKind::CodecVersion && msg == ControlMessage::CodecVersion(m)))
    }

    /// Re-elects the advertised codec version: the version supported by the
    /// most client codec entries wins; a change flips the preferred slot,
    /// stores the winner there and broadcasts the new `CodecVersion`.
    /// Returns the unchanged message when the current version already wins.
    pub fn check_codec(&mut self) -> (r: (Option<CodecVersionMsg>, Vec<Effect>))
        requires
            old(self).inv(),
        ensures
            final(self).inv(),
            final(self).clients_map() == old(self).clients_map(),
            final(self).socket_map() == old(self).socket_map(),
            final(self).awaiting_set() == old(self).awaiting_set(),
            final(self).channels_map() == old(self).channels_map(),
            final(self).next_session_id == old(self).next_session_id,
            r.0 is Some ==> final(self).codec_state == old(self).codec_state && r.1@.len() == 0
                && (r.0 matches Some(mv) && mv == old(self).codec_state.spec_codec_msg()),
            r.0 is None ==> {
                let cur = old(self).codec_state.spec_version();
                let newv = final(self).codec_state.spec_version();
                &&& newv != cur
                &&& final(self).codec_state.prefer_alpha == !old(self).codec_state.prefer_alpha
                &&& final(self).codec_state.opus == old(self).codec_state.opus
                &&& (final(self).codec_state.prefer_alpha ==> final(self).codec_state.beta == old(
                    self,
                ).codec_state.beta)
                &&& (!final(self).codec_state.prefer_alpha ==> final(self).codec_state.alpha
                    == old(self).codec_state.alpha)
                &&& Self::all_codec_version(r.1@, final(self).codec_state.spec_codec_msg())
                &&& Self::targets_covered(r.1@, old(self).clients_map().dom())
            },
            exists|ks: Seq<u32>|
                #![auto]
                ks.no_duplicates() && (forall|k: u32|
                    ks.contains(k) <==> old(self).clients_map().dom().contains(k)) && (forall|
                    v: i32,
                |
                    #[trigger] count_codec(old(self).clients_map(), ks, v) <= count_codec(
                        old(self).clients_map(),
                        ks,
                        (match r.0 {
                            Some(_) => old(self).codec_state.spec_version(),
                            None => final(self).codec_state.spec_version(),
                        }),
                    )),
    {
        let current_version = self.codec_state.get_version();
        let keys = cm_keys(&self.clients);
        let ghost m = self.clients_map();
        let n: usize = keys.len();
        proof {
            keys@.unique_seq_to_set();
            assert forall|x: u32| keys@.to_set().contains(x) implies m.dom().contains(x) by {
                assert(keys@.contains(x));
            }
            vstd::set_lib::lemma_len_subset(keys@.to_set(), m.dom());
        }
        let mut tally: Vec<(i32, u64)> = Vec::new();
        let mut i: usize = 0;
        while i < n
            invariant
                i <= n,
                n == keys@.len(),
                n <= MAX_CLIENTS,
                self.inv(),
                m == self.clients_map(),
                keys@.no_duplicates(),
                forall|k: u32| keys@.contains(k) <==> m.dom().contains(k),
                tally_firsts_nodup(tally@),
                forall|v: i32| tally_get(tally@, v) == count_codec(m, keys@.take(i as int), v),
                forall|t: int|
                    0 <= t < tally@.len() ==> (#[trigger] tally@[t]).1 <= (
                    crate::client::MAX_CODECS as int) * i,
            decreases n - i,
        {
            proof {
                assert(keys@.contains(keys@[i as int]));
            }
            let copt = cm_get(&self.clients, keys[i]);
            let c = copt.unwrap();
            let ghost kc = c.codecs@;
            let cn: usize = c.codecs.len();
            let mut j: usize = 0;
            while j < cn
                invariant
                    j <= cn,
                    cn == kc.len(),
                    cn <= crate::client::MAX_CODECS,
                    i < n,
                    n <= MAX_CLIENTS,
                    kc == c.codecs@,
                    c == m[keys@[i as int]],
                    m.dom().contains(keys@[i as int]),
                    tally_firsts_nodup(tally@),
                    forall|v: i32|
                        tally_get(tally@, v) == count_codec(m, keys@.take(i as int), v)
                            + votes_rec(kc.take(j as int), v),
                    forall|t: int|
                        0 <= t < tally@.len() ==> (#[trigger] tally@[t]).1 <= (
                        crate::client::MAX_CODECS as int) * i + j,
                decreases cn - j,
            {
                let x: i32 = c.codecs[j];
                let ghost tpre = tally@;
                match tally_find(&tally, x) {
                    Some(t) => {
                        let cnt = tally[t].1;
                        proof {
                            lemma_tally_get_at(tpre, t as int);
                            assert(cnt <= (crate::client::MAX_CODECS as int) * i + j);
                            assert((crate::client::MAX_CODECS as int) * i + j + 1 <= (
                            crate::client::MAX_CODECS as int) * MAX_CLIENTS
                                + crate::client::MAX_CODECS);
                        }
                        tally.set(t, (x, cnt + 1));
                        proof {
                            lemma_tally_set_at(tpre, t as int, (cnt + 1) as u64);
                        }
                    },
                    None => {
                        proof {
                            lemma_tally_get_absent(tpre, x);
                        }
                        tally.push((x, 1));
                        proof {
                            lemma_tally_push(tpre, x, 1);
                        }
                    },
                }
                proof {
                    assert(kc.take(j + 1) =~= kc.take(j as int) + seq![kc[j as int]]);
                    let xg = kc[j as int];
                    assert forall|v: i32|
                        votes_rec(kc.take(j + 1), v) == votes_rec(kc.take(j as int), v) + (if xg
                            == v {
                            1nat
                        } else {
                            0nat
                        }) by {
                        lemma_votes_rec_snoc(kc.take(j as int), kc[j as int], v);
                        assert(kc.take(j + 1) == kc.take(j as int) + seq![kc[j as int]]);
                    }
                    assert(xg == x);
                    assert forall|v: i32|
                        tally_get(tally@, v) == count_codec(m, keys@.take(i as int), v)
                            + votes_rec(kc.take(j + 1), v) by {
                        if v == x {
                            assert(tally_get(tally@, v) == tally_get(tpre, v) + 1);
                        } else {
                            assert(tally_get(tally@, v) == tally_get(tpre, v));
                        }
                    }
                }
                j = j + 1;
            }
            proof {
                assert(kc.take(cn as int) =~= kc);
                assert(keys@.take(i + 1) =~= keys@.take(i as int).push(keys@[i as int]));
                lemma_count_codec_snoc(m, keys@.take(i as int), keys@[i as int]);
            }
            i = i + 1;
        }
        proof {
            assert(keys@.take(n as int) =~= keys@);
        }
        let mut max: u64 = 0;
        let mut new_version: i32 = current_version;
        let tn: usize = tally.len();
        let mut t: usize = 0;
        while t < tn
            invariant
                t <= tn,
                tn == tally@.len(),
                tally_firsts_nodup(tally@),
                forall|v: i32| tally_get(tally@, v) == count_codec(m, keys@, v),
                forall|u: int| 0 <= u < t ==> (#[trigger] tally@[u]).1 <= max,
                max == 0 && new_version == current_version || (exists|u: int|
                    0 <= u < tally@.len() && (#[trigger] tally@[u]) == (new_version, max)),
            decreases tn - t,
        {
            if tally[t].1 > max {
                new_version = tally[t].0;
                max = tally[t].1;
            }
            t = t + 1;
        }
        proof {
            assert forall|v: i32| count_codec(m, keys@, v) <= count_codec(
                m,
                keys@,
                new_version,
            ) by {
                lemma_tally_get_le_max(tally@, max, v);
                if max == 0 && new_version == current_version {
                } else {
                    let u = choose|u: int|
                        0 <= u < tally@.len() && (#[trigger] tally@[u]) == (new_version, max);
                    lemma_tally_get_at(tally@, u);
                }
            }
        }
        if new_version == current_version {
            let msgv = self.codec_state.get_codec_version();
            proof {
                assert(self.codec_state.spec_codec_msg() == msgv);
            }
            return (Some(msgv), Vec::new());
        }
        self.codec_state.prefer_alpha = !self.codec_state.prefer_alpha;
        if self.codec_state.prefer_alpha {
            self.codec_state.alpha = new_version;
        } else {
            self.codec_state.beta = new_version;
        }
        let msgv = self.codec_state.get_codec_version();
        let effects = self.broadcast_message(
            MessageKind::CodecVersion,
            &ControlMessage::CodecVersion(msgv),
        );
        proof {
            assert(Self::all_codec_version(effects@, self.codec_state.spec_codec_msg()));
            assert forall|s: u32| #[trigger]
                old(self).clients_map().dom().contains(s) implies exists|i2: int|
                0 <= i2 < effects@.len() && Self::effect_target(#[trigger] effects@[i2])
                    == s by {
                assert(self.clients_map().dom().contains(s));
                let j = choose|j: int|
                    0 <= j < effects@.len() && Self::effect_target(#[trigger] effects@[j]) == s;
            }
            assert(Self::targets_covered(effects@, old(self).clients_map().dom()));
        }
        (None, effects)
    }

    /// The first connected client carrying this username, if any.
    pub fn get_client_by_name(&self, name: &String) -> (r: Option<Client>)
        ensures
            r matches Some(c) ==> exists|s: u32|
                #[trigger] self.clients_map().dom().contains(s) && self.clients_map()[s] == c
                    && c.username@ == name@,
            r is None ==> forall|s: u32| #[trigger]
                self.clients_map().dom().contains(s) ==> self.clients_map()[s].username@
                    != name@,
    {
        let keys = cm_keys(&self.clients);
        let n: usize = keys.len();
        let mut i: usize = 0;
        while i < n
            invariant
                i <= n,
                n == keys@.len(),
                keys@.no_duplicates(),
                forall|k: u32| keys@.contains(k) <==> self.clients_map().dom().contains(k),
                forall|j: int|
                    0 <= j < i ==> self.clients_map()[#[trigger] keys@[j]].username@ != name@,
            decreases n - i,
        {
            proof {
                assert(keys@.contains(keys@[i as int]));
            }
            let copt = cm_get(&self.clients, keys[i]);
            let c = copt.unwrap();
            if c.username == *name {
                return Some(c);
            }
            i = i + 1;
        }
        proof {
            assert forall|s: u32| #[trigger]
                self.clients_map().dom().contains(s) implies self.clients_map()[s].username@
                != name@ by {
                assert(keys@.contains(s));
                let j = choose|j: int| 0 <= j < keys@.len() && keys@[j] == s;
            }
        }
        None
    }

    /// The first channel carrying this name, if any; names are not unique,
    /// the first match wins.
    pub fn get_channel_by_name(&self, name: &String) -> (r: Option<Channel>)
        ensures
            r matches Some(c) ==> exists|cid: u32|
                #[trigger] self.channels_map().dom().contains(cid) && self.channels_map()[cid]
                    == c && c.name@ == name@,
            r is None ==> forall|cid: u32| #[trigger]
                self.channels_map().dom().contains(cid) ==> self.channels_map()[cid].name@
                    != name@,
    {
        let keys = chm_keys(&self.channels);
        let n: usize = keys.len();
        let mut i: usize = 0;
        while i < n
            invariant
                i <= n,
                n == keys@.len(),
                keys@.no_duplicates(),
                forall|k: u32| keys@.contains(k) <==> self.channels_map().dom().contains(k),
                forall|j: int|
                    0 <= j < i ==> self.channels_map()[#[trigger] keys@[j]].name@ != name@,
            decreases n - i,
        {
            proof {
                assert(keys@.contains(keys@[i as int]));
            }
            let copt = chm_get(&self.channels, keys[i]);
            let c = copt.unwrap();
            if c.name == *name {
                return Some(c);
            }
            i = i + 1;
        }
        proof {
            assert forall|cid: u32| #[trigger]
                self.channels_map().dom().contains(cid) implies self.channels_map()[cid].name@
                != name@ by {
                assert(keys@.contains(cid));
                let j = choose|j: int| 0 <= j < keys@.len() && keys@[j] == cid;
            }
        }
        None
    }
}

} // verus!

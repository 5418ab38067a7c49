//! The status snapshot: a plain-data summary of every connected client for
//! the HTTP status endpoint. The JSON shell lives outside the core.

use crate::registry::ServerState;
use crate::smap::{chm_get, cm_get, cm_keys};
use crate::vecset::copy_vec;
use vstd::prelude::*;

verus! {

/// One voice-target slot of a client, as plain id lists.
#[derive(Clone, Debug, PartialEq)]
pub struct MumbleTarget {
    pub sessions: Vec<u32>,
    pub channels: Vec<u32>,
}

/// One connected client's summary: identity, channel name, mute state,
/// crypto telemetry and voice targets.
#[derive(Clone, Debug, PartialEq)]
pub struct MumbleClient {
    pub name: String,
    pub session_id: u32,
    pub channel: Option<String>,
    pub mute: bool,
    pub good: u32,
    pub late: u32,
    pub lost: u32,
    pub resync: u32,
    pub last_good_duration: u128,
    pub targets: Vec<MumbleTarget>,
}

/// Whether `mc` is the faithful summary of session `s` in `st` at time
/// `now`.
pub open spec fn status_matches(st: ServerState, now: u64, s: u32, mc: MumbleClient) -> bool {
    let c = st.clients_map()[s];
    &&& mc.name == c.username
    &&& mc.session_id == s
    &&& (mc.channel matches Some(n) && n == st.channels_map()[c.channel_id].name)
    &&& mc.mute == (c.mute || c.self_mute)
    &&& mc.good == c.crypt.good
    &&& mc.late == c.crypt.late
    &&& mc.lost == c.crypt.lost
    &&& mc.resync == c.crypt.resync
    &&& mc.last_good_duration == (if now >= c.crypt.last_good {
        (now - c.crypt.last_good) as u128
    } else {
        0u128
    })
    &&& mc.targets@.len() == c.targets@.len()
    &&& forall|t: int|
        0 <= t < mc.targets@.len() ==> (#[trigger] mc.targets@[t]).sessions@ == c.targets@[
        t].sessions@ && mc.targets@[t].channels@ == c.targets@[t].channels@
}

/// Builds the status summary: one entry per connected client, each faithful
/// to the registry.
pub fn get_status(st: &ServerState, now: u64) -> (r: Vec<(u32, MumbleClient)>)
    requires
        st.inv(),
    ensures
        forall|i: int|
            0 <= i < r@.len() ==> st.clients_map().dom().contains((#[trigger] r@[i]).0)
                && status_matches(*st, now, r@[i].0, r@[i].1),
        forall|s: u32| #[trigger]
            st.clients_map().dom().contains(s) ==> exists|i: int|
                0 <= i < r@.len() && (#[trigger] r@[i]).0 == s,
        forall|i: int, j: int| 0 <= i < j < r@.len() ==> (#[trigger] r@[i]).0 != (
        #[trigger] r@[j]).0,
{
    let keys = cm_keys(&st.clients);
    let n: usize = keys.len();
    let mut out: Vec<(u32, MumbleClient)> = Vec::new();
    let mut i: usize = 0;
    while i < n
        invariant
            i <= n,
            st.inv(),
            n == keys@.len(),
            keys@.no_duplicates(),
            forall|k: u32| keys@.contains(k) <==> st.clients_map().dom().contains(k),
            out@.len() == i,
            forall|j: int|
                0 <= j < i ==> (#[trigger] out@[j]).0 == keys@[j] && st.clients_map(
                ).dom().contains(out@[j].0) && status_matches(*st, now, out@[j].0, out@[j].1),
        decreases n - i,
    {
        let s = keys[i];
        proof {
            assert(keys@.contains(keys@[i as int]));
        }
        let copt = cm_get(&st.clients, s);
        let c = copt.unwrap();
        let chopt = chm_get(&st.channels, c.channel_id);
        let ch = chopt.unwrap();
        let mut targets: Vec<MumbleTarget> = Vec::new();
        let tn: usize = c.targets.len();
        let mut t: usize = 0;
        while t < tn
            invariant
                t <= tn,
                tn == c.targets@.len(),
                targets@.len() == t,
                forall|u: int|
                    0 <= u < t ==> (#[trigger] targets@[u]).sessions@ == c.targets@[
                    u].sessions@ && targets@[u].channels@ == c.targets@[u].channels@,
            decreases tn - t,
        {
            targets.push(
                MumbleTarget {
                    sessions: copy_vec(&c.targets[t].sessions),
                    channels: copy_vec(&c.targets[t].channels),
                },
            );
            t = t + 1;
        }
        let duration: u128 = if now >= c.crypt.last_good {
            (now - c.crypt.last_good) as u128
        } else {
            0u128
        };
        let mc = MumbleClient {
            name: c.username.clone(),
            session_id: s,
            channel: Some(ch.name.clone()),
            mute: c.mute || c.self_mute,
            good: c.crypt.good,
            late: c.crypt.late,
            lost: c.crypt.lost,
            resync: c.crypt.resync,
            last_good_duration: duration,
            targets,
        };
        out.push((s, mc));
        i = i + 1;
    }
    proof {
        assert forall|s: u32| #[trigger]
            st.clients_map().dom().contains(s) implies exists|i2: int|
            0 <= i2 < out@.len() && (#[trigger] out@[i2]).0 == s by {
            assert(keys@.contains(s));
            let j = choose|j: int| 0 <= j < keys@.len() && keys@[j] == s;
            assert(out@[j].0 == s);
        }
    }
    out
}

} // verus!

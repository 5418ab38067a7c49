//! One authenticated, connected client: identity, channel placement, flags,
//! codecs, crypto state, UDP binding, liveness and voice targets.

use crate::crypt::CryptState;
use crate::msg::{AuthenticateMsg, TargetSlot, UdpAddr, UserStateMsg, VersionMsg};
use vstd::prelude::*;

verus! {

/// Number of addressable voice-target slots, indexed 1 through 30 on the
/// wire.
pub const NUM_TARGETS: usize = 30;

/// A connected client's state, owned by the registry.
#[derive(Clone, Debug)]
pub struct Client {
    pub session_id: u32,
    /// Authenticated username; immutable after binding.
    pub username: String,
    /// The peer's announced protocol version.
    pub version: u32,
    pub channel_id: u32,
    pub mute: bool,
    pub deaf: bool,
    pub self_mute: bool,
    pub self_deaf: bool,
    /// CELT codec versions the client supports.
    pub codecs: Vec<i32>,
    pub opus: bool,
    /// UDP crypto state, exclusively owned by this session.
    pub crypt: CryptState,
    /// Bound remote UDP endpoint, if the first decrypt succeeded.
    pub udp_addr: Option<UdpAddr>,
    /// Time (milliseconds) of the last control-channel ping.
    pub last_ping: u64,
    /// Whisper/shout addressing slots; always `NUM_TARGETS` of them.
    pub targets: Vec<TargetSlot>,
}

/// Most CELT codec versions one client can announce: its codec list arrives
/// in one control frame, whose body size is a 32-bit field, at no less than
/// one byte per entry.
pub const MAX_CODECS: usize = 0xffff_ffff;

/// A well-formed client: a bounded codec list and the full complement of
/// target slots, each duplicate-free.
pub open spec fn client_wf(c: Client) -> bool {
    &&& c.codecs@.len() <= MAX_CODECS
    &&& c.targets@.len() == NUM_TARGETS
    &&& forall|t: int|
        0 <= t < c.targets@.len() ==> (#[trigger] c.targets@[t]).sessions@.no_duplicates()
            && c.targets@[t].channels@.no_duplicates()
}

impl Client {
    /// A newly authenticated client: unbound, in the given channel, with
    /// empty voice targets and `now` as its first ping instant.
    pub fn new(
        version: &VersionMsg,
        auth: AuthenticateMsg,
        session_id: u32,
        channel_id: u32,
        crypt: CryptState,
        now: u64,
    ) -> (r: Client)
        requires
            auth.celt_versions@.len() <= MAX_CODECS,
        ensures
            client_wf(r),
            r.session_id == session_id,
            r.username == auth.username,
            r.version == version.version,
            r.channel_id == channel_id,
            r.mute == false && r.deaf == false && r.self_mute == false && r.self_deaf == false,
            r.codecs == auth.celt_versions,
            r.opus == auth.opus,
            r.crypt == crypt,
            r.udp_addr is None,
            r.last_ping == now,
            forall|t: int|
                0 <= t < r.targets@.len() ==> (#[trigger] r.targets@[t]).sessions@.len() == 0
                    && r.targets@[t].channels@.len() == 0,
    {
        let mut targets: Vec<TargetSlot> = Vec::new();
        let mut i: usize = 0;
        while i < NUM_TARGETS
            invariant
                i <= NUM_TARGETS,
                targets@.len() == i,
                forall|t: int|
                    0 <= t < i ==> (#[trigger] targets@[t]).sessions@.len() == 0 && targets@[
                    t].channels@.len() == 0,
            decreases NUM_TARGETS - i,
        {
            targets.push(TargetSlot { sessions: Vec::new(), channels: Vec::new() });
            i = i + 1;
        }
        Client {
            session_id,
            username: auth.username,
            version: version.version,
            channel_id,
            mute: false,
            deaf: false,
            self_mute: false,
            self_deaf: false,
            codecs: auth.celt_versions,
            opus: auth.opus,
            crypt,
            udp_addr: None,
            last_ping: now,
            targets,
        }
    }

    /// The `UserState` message describing this client.
    pub fn get_user_state(&self) -> (r: UserStateMsg)
        ensures
            r.session == Some(self.session_id),
            r.name matches Some(n) && n == self.username,
            r.channel_id == Some(self.channel_id),
            r.mute == Some(self.mute),
            r.deaf == Some(self.deaf),
            r.self_mute == Some(self.self_mute),
            r.self_deaf == Some(self.self_deaf),
    {
        UserStateMsg {
            session: Some(self.session_id),
            name: Some(self.username.clone()),
            channel_id: Some(self.channel_id),
            mute: Some(self.mute),
            deaf: Some(self.deaf),
            self_mute: Some(self.self_mute),
            self_deaf: Some(self.self_deaf),
        }
    }

    /// Whether the client is muted, by itself or by the server.
    pub fn is_muted(&self) -> (r: bool)
        ensures
            r == (self.mute || self.self_mute),
    {
        self.mute || self.self_mute
    }
}

} // verus!

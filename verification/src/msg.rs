//! Typed control messages, per-client mailbox messages, the effects the core
//! asks its surroundings to perform, and the error kinds it raises.
//!
//! The protobuf body encoding of the Mumble control protocol is an external
//! codec; the core works on these typed bodies.

use crate::codec::CodecVersionMsg;
use crate::crypt::CryptError;
use crate::voice::VoicePacketClientBound;
use vstd::prelude::*;

verus! {

/// A client's remote UDP endpoint, as plain values.
#[derive(Clone, Copy, PartialEq, Eq, Hash, Structural, Debug)]
pub struct UdpAddr {
    pub ip: u128,
    pub port: u16,
}

/// The control message kinds this core handles.
#[derive(Clone, Copy, PartialEq, Eq, Structural, Debug)]
pub enum MessageKind {
    Version,
    UdpTunnel,
    Authenticate,
    Ping,
    ChannelRemove,
    ChannelState,
    UserRemove,
    UserState,
    CryptSetup,
    PermissionQuery,
    CodecVersion,
    VoiceTarget,
}

/// The wire code of each message kind.
pub open spec fn kind_code(k: MessageKind) -> u16 {
    match k {
        MessageKind::Version => 0,
        MessageKind::UdpTunnel => 1,
        MessageKind::Authenticate => 2,
        MessageKind::Ping => 3,
        MessageKind::ChannelRemove => 7,
        MessageKind::ChannelState => 8,
        MessageKind::UserRemove => 9,
        MessageKind::UserState => 10,
        MessageKind::CryptSetup => 15,
        MessageKind::PermissionQuery => 20,
        MessageKind::CodecVersion => 21,
        MessageKind::VoiceTarget => 22,
    }
}

impl MessageKind {
    /// The kind's code on the wire.
    pub fn to_u16(&self) -> (r: u16)
        ensures
            r == kind_code(*self),
    {
        match self {
            MessageKind::Version => 0,
            MessageKind::UdpTunnel => 1,
            MessageKind::Authenticate => 2,
            MessageKind::Ping => 3,
            MessageKind::ChannelRemove => 7,
            MessageKind::ChannelState => 8,
            MessageKind::UserRemove => 9,
            MessageKind::UserState => 10,
            MessageKind::CryptSetup => 15,
            MessageKind::PermissionQuery => 20,
            MessageKind::CodecVersion => 21,
            MessageKind::VoiceTarget => 22,
        }
    }

    /// The kind a wire code names, if any.
    pub fn from_u16(x: u16) -> (r: Option<MessageKind>)
        ensures
            r matches Some(k) ==> kind_code(k) == x,
            r is Some <==> (x == 0 || x == 1 || x == 2 || x == 3 || x == 7 || x == 8 || x == 9
                || x == 10 || x == 15 || x == 20 || x == 21 || x == 22),
    {
        if x == 0 {
            Some(MessageKind::Version)
        } else if x == 1 {
            Some(MessageKind::UdpTunnel)
        } else if x == 2 {
            Some(MessageKind::Authenticate)
        } else if x == 3 {
            Some(MessageKind::Ping)
        } else if x == 7 {
            Some(MessageKind::ChannelRemove)
        } else if x == 8 {
            Some(MessageKind::ChannelState)
        } else if x == 9 {
            Some(MessageKind::UserRemove)
        } else if x == 10 {
            Some(MessageKind::UserState)
        } else if x == 15 {
            Some(MessageKind::CryptSetup)
        } else if x == 20 {
            Some(MessageKind::PermissionQuery)
        } else if x == 21 {
            Some(MessageKind::CodecVersion)
        } else if x == 22 {
            Some(MessageKind::VoiceTarget)
        } else {
            None
        }
    }
}

/// The peer's protocol version.
#[derive(Clone, Copy, Debug, PartialEq, Eq, Structural)]
pub struct VersionMsg {
    pub version: u32,
}

/// The authentication request: the username and the codecs the client
/// supports.
#[derive(Clone, Debug, PartialEq)]
pub struct AuthenticateMsg {
    pub username: String,
    pub opus: bool,
    pub celt_versions: Vec<i32>,
}

/// A keepalive carrying the client's view of the crypto telemetry.
#[derive(Clone, Copy, Debug, PartialEq, Eq, Structural)]
pub struct PingMsg {
    pub timestamp: u64,
    pub good: u32,
    pub late: u32,
    pub lost: u32,
    pub resync: u32,
}

/// Announces that a channel is gone.
#[derive(Clone, Copy, Debug, PartialEq, Eq, Structural)]
pub struct ChannelRemoveMsg {
    pub channel_id: u32,
}

/// Creates a channel (no id) or updates one (id set).
#[derive(Clone, Debug, PartialEq)]
pub struct ChannelStateMsg {
    pub channel_id: Option<u32>,
    pub parent: u32,
    pub name: String,
    pub description: String,
    pub temporary: bool,
}

/// Announces that a session left the server.
#[derive(Clone, Debug, PartialEq)]
pub struct UserRemoveMsg {
    pub session: u32,
    pub reason: String,
}

/// A user's mutable state; absent fields are left unchanged.
#[derive(Clone, Debug, PartialEq)]
pub struct UserStateMsg {
    pub session: Option<u32>,
    pub name: Option<String>,
    pub channel_id: Option<u32>,
    pub mute: Option<bool>,
    pub deaf: Option<bool>,
    pub self_mute: Option<bool>,
    pub self_deaf: Option<bool>,
}

/// The key-and-nonce exchange that initializes or resets a client's UDP
/// crypto state.
#[derive(Clone, Copy, Debug, PartialEq, Eq, Structural)]
pub struct CryptSetupMsg {
    pub key: u64,
    pub client_nonce: u64,
    pub server_nonce: u64,
}

/// A permissions question; this server answers with a permissive mask.
#[derive(Clone, Copy, Debug, PartialEq, Eq, Structural)]
pub struct PermissionQueryMsg {
    pub channel_id: u32,
    pub permissions: u32,
}

/// One whisper/shout addressing slot: explicit sessions plus whole channels.
#[derive(Clone, Debug, PartialEq)]
pub struct TargetSlot {
    pub sessions: Vec<u32>,
    pub channels: Vec<u32>,
}

/// Replaces one of the 30 voice-target slots of the sender.
#[derive(Clone, Debug, PartialEq)]
pub struct VoiceTargetMsg {
    pub id: u32,
    pub slot: TargetSlot,
}

/// A typed control message, either direction.
#[derive(Clone, Debug, PartialEq)]
pub enum ControlMessage {
    Version(VersionMsg),
    Authenticate(AuthenticateMsg),
    Ping(PingMsg),
    ChannelRemove(ChannelRemoveMsg),
    ChannelState(ChannelStateMsg),
    UserRemove(UserRemoveMsg),
    UserState(UserStateMsg),
    CryptSetup(CryptSetupMsg),
    PermissionQuery(PermissionQueryMsg),
    CodecVersion(CodecVersionMsg),
    VoiceTarget(VoiceTargetMsg),
    UdpTunnel(Vec<u8>),
}

/// What a client's egress mailbox carries.
#[derive(Clone, Debug, PartialEq)]
pub enum ClientMessage {
    RouteVoicePacket(VoicePacketClientBound),
    SendVoicePacket(VoicePacketClientBound),
    SendMessage { kind: MessageKind, msg: ControlMessage },
    Disconnect,
}

/// An action the core asks its I/O shell to perform.
#[derive(Clone, Debug, PartialEq)]
pub enum Effect {
    /// Write a control message on this session's TLS stream.
    Reply { session: u32, msg: ControlMessage },
    /// Enqueue on this session's egress mailbox, dropping if full.
    Mailbox { session: u32, item: ClientMessage },
    /// Send an encrypted datagram to this address on the UDP socket.
    SendUdp { addr: UdpAddr, bytes: Vec<u8> },
}

/// Whether two target slots hold the same entries.
pub open spec fn slot_eq(a: TargetSlot, b: TargetSlot) -> bool {
    a.sessions@ == b.sessions@ && a.channels@ == b.channels@
}

/// Whether two control messages carry the same content: equality up to the
/// views of the vectors inside.
pub open spec fn msg_eq(a: ControlMessage, b: ControlMessage) -> bool {
    match (a, b) {
        (ControlMessage::Version(x), ControlMessage::Version(y)) => x == y,
        (ControlMessage::Authenticate(x), ControlMessage::Authenticate(y)) => x.username
            == y.username && x.opus == y.opus && x.celt_versions@ == y.celt_versions@,
        (ControlMessage::Ping(x), ControlMessage::Ping(y)) => x == y,
        (ControlMessage::ChannelRemove(x), ControlMessage::ChannelRemove(y)) => x == y,
        (ControlMessage::ChannelState(x), ControlMessage::ChannelState(y)) => x == y,
        (ControlMessage::UserRemove(x), ControlMessage::UserRemove(y)) => x == y,
        (ControlMessage::UserState(x), ControlMessage::UserState(y)) => x == y,
        (ControlMessage::CryptSetup(x), ControlMessage::CryptSetup(y)) => x == y,
        (ControlMessage::PermissionQuery(x), ControlMessage::PermissionQuery(y)) => x == y,
        (ControlMessage::CodecVersion(x), ControlMessage::CodecVersion(y)) => x == y,
        (ControlMessage::VoiceTarget(x), ControlMessage::VoiceTarget(y)) => x.id == y.id
            && slot_eq(x.slot, y.slot),
        (ControlMessage::UdpTunnel(x), ControlMessage::UdpTunnel(y)) => x@ == y@,
        _ => false,
    }
}

impl TargetSlot {
    /// An equal copy of the slot.
    pub fn duplicate(&self) -> (r: TargetSlot)
        ensures
            slot_eq(r, *self),
    {
        TargetSlot {
            sessions: crate::vecset::copy_vec(&self.sessions),
            channels: crate::vecset::copy_vec(&self.channels),
        }
    }
}

impl ControlMessage {
    /// An equal copy of the message, for fan-out to several recipients.
    pub fn duplicate(&self) -> (r: ControlMessage)
        ensures
            msg_eq(r, *self),
    {
        match self {
            ControlMessage::Version(v) => ControlMessage::Version(*v),
            ControlMessage::Authenticate(a) => ControlMessage::Authenticate(
                AuthenticateMsg {
                    username: a.username.clone(),
                    opus: a.opus,
                    celt_versions: crate::vecset::copy_vec(&a.celt_versions),
                },
            ),
            ControlMessage::Ping(p) => ControlMessage::Ping(*p),
            ControlMessage::ChannelRemove(c) => ControlMessage::ChannelRemove(*c),
            ControlMessage::ChannelState(c) => ControlMessage::ChannelState(
                ChannelStateMsg {
                    channel_id: c.channel_id,
                    parent: c.parent,
                    name: c.name.clone(),
                    description: c.description.clone(),
                    temporary: c.temporary,
                },
            ),
            ControlMessage::UserRemove(u) => ControlMessage::UserRemove(
                UserRemoveMsg { session: u.session, reason: u.reason.clone() },
            ),
            ControlMessage::UserState(u) => ControlMessage::UserState(
                UserStateMsg {
                    session: u.session,
                    name: (match &u.name {
                        Some(n) => Some(n.clone()),
                        None => None,
                    }),
                    channel_id: u.channel_id,
                    mute: u.mute,
                    deaf: u.deaf,
                    self_mute: u.self_mute,
                    self_deaf: u.self_deaf,
                },
            ),
            ControlMessage::CryptSetup(c) => ControlMessage::CryptSetup(*c),
            ControlMessage::PermissionQuery(p) => ControlMessage::PermissionQuery(*p),
            ControlMessage::CodecVersion(c) => ControlMessage::CodecVersion(*c),
            ControlMessage::VoiceTarget(v) => ControlMessage::VoiceTarget(
                VoiceTargetMsg { id: v.id, slot: v.slot.duplicate() },
            ),
            ControlMessage::UdpTunnel(b) => ControlMessage::UdpTunnel(crate::vecset::copy_vec(b)),
        }
    }
}

/// The error kinds the core raises.
#[derive(Clone, Copy, PartialEq, Eq, Structural, Debug)]
pub enum MumbleError {
    /// Malformed control frame or voice packet; recovered per message.
    ProtocolDecode,
    /// Per-packet crypto failure, aggregated into counters.
    Crypto(CryptError),
    /// A move or query named a channel that does not exist.
    ChannelDoesntExist,
    /// A bounded mailbox was full.
    MailboxFull,
    /// Terminal for one session: its mailbox asked the dispatcher to exit.
    ForceDisconnect,
    /// TLS read or write failure; terminal for that session only.
    Io,
}

} // verus!

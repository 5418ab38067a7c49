//! The TLS control frame: a 2-byte big-endian kind, a 4-byte big-endian body
//! size, then the body. Also the unauthenticated UDP server-ping reply.

use crate::msg::{kind_code, MessageKind};
use crate::wire::{
    push_u16_be, push_u32_be, push_u64_be, read_u16_be, read_u32_be, spec_be_u16, spec_be_u32,
    spec_u16_be, spec_u32_be, spec_u64_be,
};
use vstd::prelude::*;

verus! {

/// Frames larger than this are a compatibility quirk: tolerated, but worth a
/// warning at the edge.
pub const FRAME_SIZE_ADVISORY: u32 = 1024;

/// The frame bytes for a kind code and a body.
pub open spec fn spec_frame(code: u16, body: Seq<u8>) -> Seq<u8> {
    spec_u16_be(code) + spec_u32_be(body.len() as u32) + body
}

/// Encodes one control frame.
pub fn encode_frame(kind: MessageKind, body: &Vec<u8>) -> (r: Vec<u8>)
    requires
        body@.len() <= u32::MAX,
        body@.len() + 6 <= usize::MAX,
    ensures
        r@ == spec_frame(kind_code(kind), body@),
{
    let mut out: Vec<u8> = Vec::new();
    push_u16_be(&mut out, kind.to_u16());
    push_u32_be(&mut out, body.len() as u32);
    let n: usize = body.len();
    let mut i: usize = 0;
    while i < n
        invariant
            i <= n,
            n == body@.len(),
            out@ == spec_u16_be(kind_code(kind)) + spec_u32_be(body@.len() as u32)
                + body@.take(i as int),
            out@.len() == 6 + i,
        decreases n - i,
    {
        out.push(body[i]);
        proof {
            assert(body@.take(i + 1) =~= body@.take(i as int) + seq![body@[i as int]]);
        }
        i = i + 1;
    }
    proof {
        assert(body@.take(n as int) =~= body@);
    }
    out
}

/// Reads the kind code and body size from the head of a frame.
pub fn decode_frame_header(b: &Vec<u8>) -> (r: Option<(u16, u32)>)
    ensures
        r is Some <==> b@.len() >= 6,
        r matches Some((k, sz)) ==> k == spec_be_u16(b@[0], b@[1]) && sz == spec_be_u32(
            b@[2],
            b@[3],
            b@[4],
            b@[5],
        ),
{
    if b.len() < 6 {
        return None;
    }
    let k = read_u16_be(b, 0);
    let sz = read_u32_be(b, 2);
    Some((k, sz))
}

/// Round trip: the header of an encoded frame yields the kind's code and the
/// body's length, the code names the kind again, and the rest is the body.
pub proof fn lemma_frame_roundtrip(kind: MessageKind, body: Seq<u8>)
    requires
        body.len() <= u32::MAX,
    ensures
        ({
            let s = spec_frame(kind_code(kind), body);
            &&& s.len() == 6 + body.len()
            &&& spec_be_u16(s[0], s[1]) == kind_code(kind)
            &&& spec_be_u32(s[2], s[3], s[4], s[5]) == body.len()
            &&& s.skip(6) == body
        }),
{
    let s = spec_frame(kind_code(kind), body);
    crate::wire::lemma_u16_be_roundtrip(kind_code(kind));
    crate::wire::lemma_u32_be_roundtrip(body.len() as u32);
    assert(s[0] == spec_u16_be(kind_code(kind))[0] && s[1] == spec_u16_be(kind_code(kind))[1]);
    assert(s[2] == spec_u32_be(body.len() as u32)[0] && s[3] == spec_u32_be(body.len() as u32)[1]
        && s[4] == spec_u32_be(body.len() as u32)[2] && s[5] == spec_u32_be(
        body.len() as u32,
    )[3]);
    assert(s.skip(6) =~= body);
}

/// Whether a datagram is an unauthenticated server ping: it starts with
/// four zero bytes.
pub open spec fn spec_is_udp_ping(b: Seq<u8>) -> bool {
    b.len() >= 4 && b[0] == 0 && b[1] == 0 && b[2] == 0 && b[3] == 0
}

/// Whether a datagram is an unauthenticated server ping: it starts with four
/// zero bytes.
pub fn is_udp_ping(b: &Vec<u8>) -> (r: bool)
    ensures
        r == spec_is_udp_ping(b@),
{
    b.len() >= 4 && b[0] == 0 && b[1] == 0 && b[2] == 0 && b[3] == 0
}

/// The ping reply: ident, timestamp, connected users, the user cap, and the
/// advertised bandwidth, all big-endian.
pub open spec fn spec_ping_reply(
    ident: u32,
    timestamp: u64,
    users: u32,
    max_users: u32,
    bandwidth: u32,
) -> Seq<u8> {
    spec_u32_be(ident) + spec_u64_be(timestamp) + spec_u32_be(users) + spec_u32_be(max_users)
        + spec_u32_be(bandwidth)
}

/// Encodes the reply to an unauthenticated UDP server ping.
pub fn encode_ping_reply(ident: u32, timestamp: u64, users: u32, max_users: u32, bandwidth: u32)
    -> (r: Vec<u8>)
    ensures
        r@ == spec_ping_reply(ident, timestamp, users, max_users, bandwidth),
{
    let mut out: Vec<u8> = Vec::new();
    push_u32_be(&mut out, ident);
    push_u64_be(&mut out, timestamp);
    push_u32_be(&mut out, users);
    push_u32_be(&mut out, max_users);
    push_u32_be(&mut out, bandwidth);
    proof {
        assert(out@ =~= spec_ping_reply(ident, timestamp, users, max_users, bandwidth));
    }
    out
}

} // verus!

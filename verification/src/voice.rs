//! The Mumble voice-packet wire format: a header byte carrying type and
//! target, varint-encoded session and sequence numbers, and the payload.

use crate::wire::{spec_u32_be, spec_u64_be, spec_be_u32, push_u32_be, push_u64_be, read_u32_be};
use vstd::prelude::*;

verus! {

/// A voice packet as received from a client: no session number on the wire,
/// the sender is known from the connection or the crypto binding.
#[derive(Clone, Debug, PartialEq)]
pub struct VoicePacketServerBound {
    pub typ: u8,
    pub target: u8,
    pub seq: u64,
    pub payload: Vec<u8>,
}

/// A voice packet as sent to a client: the originating session is encoded
/// after the header byte.
#[derive(Clone, Debug, PartialEq)]
pub struct VoicePacketClientBound {
    pub typ: u8,
    pub target: u8,
    pub session: u32,
    pub seq: u64,
    pub payload: Vec<u8>,
}

/// The canonical (shortest) Mumble varint encoding of a non-negative value.
pub open spec fn spec_varint(v: u64) -> Seq<u8> {
    if v < 0x80 {
        seq![(v & 0x7f) as u8]
    } else if v < 0x4000 {
        seq![((0x80 | (v >> 8)) & 0xff) as u8, (v & 0xff) as u8]
    } else if v < 0x20_0000 {
        seq![
            ((0xc0 | (v >> 16)) & 0xff) as u8,
            ((v >> 8) & 0xff) as u8,
            (v & 0xff) as u8,
        ]
    } else if v < 0x1000_0000 {
        seq![
            ((0xe0 | (v >> 24)) & 0xff) as u8,
            ((v >> 16) & 0xff) as u8,
            ((v >> 8) & 0xff) as u8,
            (v & 0xff) as u8,
        ]
    } else if v <= 0xffff_ffff {
        seq![0xf0u8] + spec_u32_be(v as u32)
    } else {
        seq![0xf4u8] + spec_u64_be(v)
    }
}

/// Reading a varint at the head of `s`: the value and how many bytes it
/// took. The negative and recursive prefix forms are not values this server
/// works with, so they decode to `None`, as does a truncated buffer.
pub open spec fn spec_decode_varint(s: Seq<u8>) -> Option<(u64, int)> {
    if s.len() == 0 {
        None
    } else {
        let h = s[0];
        if h < 0x80 {
            Some(((h as u64), 1))
        } else if h < 0xc0 {
            if s.len() >= 2 {
                Some(((((h & 0x3f) as u64) << 8 | (s[1] as u64)) as u64, 2))
            } else {
                None
            }
        } else if h < 0xe0 {
            if s.len() >= 3 {
                Some(
                    (((((h & 0x1f) as u64) << 16) | ((s[1] as u64) << 8) | (s[2] as u64)) as u64,
                    3),
                )
            } else {
                None
            }
        } else if h < 0xf0 {
            if s.len() >= 4 {
                Some(
                    (((((h & 0x0f) as u64) << 24) | ((s[1] as u64) << 16) | ((s[2] as u64) << 8)
                        | (s[3] as u64)) as u64, 4),
                )
            } else {
                None
            }
        } else if h & 0xfc == 0xf0 {
            if s.len() >= 5 {
                Some(((spec_be_u32(s[1], s[2], s[3], s[4]) as u64), 5))
            } else {
                None
            }
        } else if h & 0xfc == 0xf4 {
            if s.len() >= 9 {
                Some(
                    ((((s[1] as u64) << 56) | ((s[2] as u64) << 48) | ((s[3] as u64) << 40) | ((
                    s[4] as u64) << 32) | ((s[5] as u64) << 24) | ((s[6] as u64) << 16) | ((
                    s[7] as u64) << 8) | (s[8] as u64)) as u64, 9),
                )
            } else {
                None
            }
        } else {
            None
        }
    }
}

/// Appends the varint encoding of `v` to `out`.
pub fn encode_varint(out: &mut Vec<u8>, v: u64)
    requires
        old(out)@.len() + 9 <= usize::MAX,
    ensures
        final(out)@ == old(out)@ + spec_varint(v),
{
    if v < 0x80 {
        proof {
            assert(v < 0x80 ==> v & 0x7f < 256 && v & 0x7f == v) by (bit_vector);
        }
        out.push((v & 0x7f) as u8);
        proof {
            assert(out@ =~= old(out)@ + spec_varint(v));
        }
    } else if v < 0x4000 {
        proof {
            assert((0x80 | (v >> 8)) & 0xff < 256 && v & 0xff < 256) by (bit_vector);
        }
        out.push(((0x80 | (v >> 8)) & 0xff) as u8);
        out.push((v & 0xff) as u8);
        proof {
            assert(out@ =~= old(out)@ + spec_varint(v));
        }
    } else if v < 0x20_0000 {
        proof {
            assert((0xc0 | (v >> 16)) & 0xff < 256 && (v >> 8) & 0xff < 256 && v & 0xff < 256)
                by (bit_vector);
        }
        out.push(((0xc0 | (v >> 16)) & 0xff) as u8);
        out.push(((v >> 8) & 0xff) as u8);
        out.push((v & 0xff) as u8);
        proof {
            assert(out@ =~= old(out)@ + spec_varint(v));
        }
    } else if v < 0x1000_0000 {
        proof {
            assert((0xe0 | (v >> 24)) & 0xff < 256 && (v >> 16) & 0xff < 256 && (v >> 8) & 0xff
                < 256 && v & 0xff < 256) by (bit_vector);
        }
        out.push(((0xe0 | (v >> 24)) & 0xff) as u8);
        out.push(((v >> 16) & 0xff) as u8);
        out.push(((v >> 8) & 0xff) as u8);
        out.push((v & 0xff) as u8);
        proof {
            assert(out@ =~= old(out)@ + spec_varint(v));
        }
    } else if v <= 0xffff_ffff {
        out.push(0xf0u8);
        push_u32_be(out, v as u32);
        proof {
            assert(out@ =~= old(out)@ + spec_varint(v));
        }
    } else {
        out.push(0xf4u8);
        push_u64_be(out, v);
        proof {
            assert(out@ =~= old(out)@ + spec_varint(v));
        }
    }
}

/// Reads a varint at offset `pos`; returns the value and the offset after it.
pub fn decode_varint(b: &Vec<u8>, pos: usize) -> (r: Option<(u64, usize)>)
    requires
        pos <= b@.len(),
    ensures
        r is Some <==> spec_decode_varint(b@.skip(pos as int)) is Some,
        r matches Some((v, np)) ==> (spec_decode_varint(b@.skip(pos as int)) matches Some(d)
            && d.0 == v && np == pos + d.1 && np <= b@.len()),
{
    let n: usize = b.len();
    let ghost s = b@.skip(pos as int);
    if pos >= n {
        return None;
    }
    let h: u8 = b[pos];
    proof {
        assert(s[0] == b@[pos as int]);
    }
    if h < 0x80 {
        Some((h as u64, pos + 1))
    } else if h < 0xc0 {
        if n - pos >= 2 {
            let v: u64 = (((h & 0x3f) as u64) << 8) | (b[pos + 1] as u64);
            proof {
                assert(s[1] == b@[pos + 1]);
            }
            Some((v, pos + 2))
        } else {
            None
        }
    } else if h < 0xe0 {
        if n - pos >= 3 {
            let v: u64 = (((h & 0x1f) as u64) << 16) | ((b[pos + 1] as u64) << 8) | (b[pos
                + 2] as u64);
            proof {
                assert(s[1] == b@[pos + 1] && s[2] == b@[pos + 2]);
            }
            Some((v, pos + 3))
        } else {
            None
        }
    } else if h < 0xf0 {
        if n - pos >= 4 {
            let v: u64 = (((h & 0x0f) as u64) << 24) | ((b[pos + 1] as u64) << 16) | ((b[pos
                + 2] as u64) << 8) | (b[pos + 3] as u64);
            proof {
                assert(s[1] == b@[pos + 1] && s[2] == b@[pos + 2] && s[3] == b@[pos + 3]);
            }
            Some((v, pos + 4))
        } else {
            None
        }
    } else if h & 0xfc == 0xf0 {
        if n - pos >= 5 {
            let v: u32 = read_u32_be(b, pos + 1);
            proof {
                assert(s[1] == b@[pos + 1] && s[2] == b@[pos + 2] && s[3] == b@[pos + 3] && s[4]
                    == b@[pos + 4]);
            }
            Some((v as u64, pos + 5))
        } else {
            None
        }
    } else if h & 0xfc == 0xf4 {
        if n - pos >= 9 {
            let v: u64 = ((b[pos + 1] as u64) << 56) | ((b[pos + 2] as u64) << 48) | ((b[pos
                + 3] as u64) << 40) | ((b[pos + 4] as u64) << 32) | ((b[pos + 5] as u64) << 24)
                | ((b[pos + 6] as u64) << 16) | ((b[pos + 7] as u64) << 8) | (b[pos + 8] as u64);
            proof {
                assert(s[1] == b@[pos + 1] && s[2] == b@[pos + 2] && s[3] == b@[pos + 3] && s[4]
                    == b@[pos + 4] && s[5] == b@[pos + 5] && s[6] == b@[pos + 6] && s[7] == b@[pos
                    + 7] && s[8] == b@[pos + 8]);
            }
            Some((v, pos + 9))
        } else {
            None
        }
    } else {
        None
    }
}

/// Decoding a canonical varint gives the value back and consumes exactly its
/// bytes, whatever follows them.
pub proof fn lemma_varint_roundtrip(v: u64, rest: Seq<u8>)
    ensures
        spec_decode_varint(spec_varint(v) + rest) matches Some(d) && d.0 == v && d.1
            == spec_varint(v).len(),
{
    let s = spec_varint(v) + rest;
    if v < 0x80 {
        assert(s[0] == (v & 0x7f) as u8);
        assert(v < 0x80 ==> v & 0x7f == v && v & 0x7f < 0x80) by (bit_vector);
        assert(spec_decode_varint(s) == Some(((s[0] as u64), 1int)));
        assert(s[0] as u64 == v);
    } else if v < 0x4000 {
        assert(s[0] == ((0x80 | (v >> 8)) & 0xff) as u8 && s[1] == (v & 0xff) as u8);
        assert(0x80 <= v < 0x4000 ==> {
            let h = ((0x80 | (v >> 8)) & 0xff) as u8;
            let b1 = (v & 0xff) as u8;
            h >= 0x80 && h < 0xc0 && ((((h & 0x3f) as u64) << 8 | (b1 as u64)) as u64) == v
        }) by (bit_vector);
        assert(spec_decode_varint(s) matches Some(d) && d.0 == v && d.1 == 2);
    } else if v < 0x20_0000 {
        assert(s[0] == ((0xc0 | (v >> 16)) & 0xff) as u8 && s[1] == ((v >> 8) & 0xff) as u8
            && s[2] == (v & 0xff) as u8);
        assert(0x4000 <= v < 0x20_0000 ==> {
            let h = ((0xc0 | (v >> 16)) & 0xff) as u8;
            let b1 = ((v >> 8) & 0xff) as u8;
            let b2 = (v & 0xff) as u8;
            h >= 0xc0 && h < 0xe0 && (((((h & 0x1f) as u64) << 16) | ((b1 as u64) << 8) | (
            b2 as u64)) as u64) == v
        }) by (bit_vector);
        assert(spec_decode_varint(s) matches Some(d) && d.0 == v && d.1 == 3);
    } else if v < 0x1000_0000 {
        assert(s[0] == ((0xe0 | (v >> 24)) & 0xff) as u8 && s[1] == ((v >> 16) & 0xff) as u8
            && s[2] == ((v >> 8) & 0xff) as u8 && s[3] == (v & 0xff) as u8);
        assert(0x20_0000 <= v < 0x1000_0000 ==> {
            let h = ((0xe0 | (v >> 24)) & 0xff) as u8;
            let b1 = ((v >> 16) & 0xff) as u8;
            let b2 = ((v >> 8) & 0xff) as u8;
            let b3 = (v & 0xff) as u8;
            h >= 0xe0 && h < 0xf0 && (((((h & 0x0f) as u64) << 24) | ((b1 as u64) << 16) | ((
            b2 as u64) << 8) | (b3 as u64)) as u64) == v
        }) by (bit_vector);
        assert(spec_decode_varint(s) matches Some(d) && d.0 == v && d.1 == 4);
    } else if v <= 0xffff_ffff {
        let w = v as u32;
        assert(s[0] == 0xf0u8 && s[1] == spec_u32_be(w)[0] && s[2] == spec_u32_be(w)[1] && s[3]
            == spec_u32_be(w)[2] && s[4] == spec_u32_be(w)[3]);
        crate::wire::lemma_u32_be_roundtrip(w);
        assert(!(0xf0u8 < 0x80) && !(0xf0u8 < 0xc0) && !(0xf0u8 < 0xe0) && !(0xf0u8 < 0xf0)
            && 0xf0u8 & 0xfc == 0xf0) by (bit_vector);
        assert(spec_decode_varint(s) matches Some(d) && d.0 == v && d.1 == 5);
    } else {
        assert(s[0] == 0xf4u8 && s[1] == spec_u64_be(v)[0] && s[2] == spec_u64_be(v)[1] && s[3]
            == spec_u64_be(v)[2] && s[4] == spec_u64_be(v)[3] && s[5] == spec_u64_be(v)[4] && s[6]
            == spec_u64_be(v)[5] && s[7] == spec_u64_be(v)[6] && s[8] == spec_u64_be(v)[7]);
        assert(((((v >> 56) & 0xff) as u8 as u64) << 56) | ((((v >> 48) & 0xff) as u8 as u64)
            << 48) | ((((v >> 40) & 0xff) as u8 as u64) << 40) | ((((v >> 32) & 0xff) as u8 as u64)
            << 32) | ((((v >> 24) & 0xff) as u8 as u64) << 24) | ((((v >> 16) & 0xff) as u8 as u64)
            << 16) | ((((v >> 8) & 0xff) as u8 as u64) << 8) | ((v & 0xff) as u8 as u64) == v)
            by (bit_vector);
        assert(0xf4u8 & 0xfc != 0xf0 && 0xf4u8 & 0xfc == 0xf4) by (bit_vector);
        assert(spec_decode_varint(s) matches Some(d) && d.0 == v && d.1 == 9);
    }
}

/// A varint takes between one and nine bytes.
pub proof fn lemma_varint_len(v: u64)
    ensures
        1 <= spec_varint(v).len() <= 9,
{
}

/// The header byte of a voice packet: type in the top three bits, target in
/// the low five.
pub open spec fn spec_voice_header(typ: u8, target: u8) -> u8 {
    (((typ & 0x07) << 5) | (target & 0x1f)) as u8
}

/// The server-bound encoding: header, sequence varint, payload.
pub open spec fn spec_encode_server_bound(p: VoicePacketServerBound) -> Seq<u8> {
    seq![spec_voice_header(p.typ, p.target)] + spec_varint(p.seq) + p.payload@
}

/// The client-bound encoding from plain fields: header, session varint,
/// sequence varint, payload.
pub open spec fn spec_encode_cb(typ: u8, target: u8, session: u32, seq: u64, payload: Seq<u8>)
    -> Seq<u8> {
    seq![spec_voice_header(typ, target)] + spec_varint(session as u64) + spec_varint(seq)
        + payload
}

/// The client-bound encoding: header, session varint, sequence varint,
/// payload.
pub open spec fn spec_encode_client_bound(p: VoicePacketClientBound) -> Seq<u8> {
    spec_encode_cb(p.typ, p.target, p.session, p.seq, p.payload@)
}

/// Encodes a server-bound voice packet.
pub fn encode_voice_packet(p: &VoicePacketServerBound) -> (r: Vec<u8>)
    requires
        p.payload@.len() + 10 <= usize::MAX,
    ensures
        r@ == spec_encode_server_bound(*p),
{
    let typ = p.typ;
    let target = p.target;
    proof {
        assert(((typ & 0x07) << 5) | (target & 0x1f) < 256) by (bit_vector);
    }
    let mut out: Vec<u8> = Vec::new();
    out.push((((typ & 0x07) << 5) | (target & 0x1f)) as u8);
    encode_varint(&mut out, p.seq);
    let mut i: usize = 0;
    let n: usize = p.payload.len();
    while i < n
        invariant
            i <= n,
            n == p.payload@.len(),
            out@ == seq![spec_voice_header(p.typ, p.target)] + spec_varint(p.seq)
                + p.payload@.take(i as int),
            out@.len() <= 10 + i,
        decreases n - i,
    {
        out.push(p.payload[i]);
        proof {
            assert(p.payload@.take(i + 1) =~= p.payload@.take(i as int) + seq![p.payload@[
                i as int]]);
        }
        i = i + 1;
    }
    proof {
        assert(p.payload@.take(n as int) =~= p.payload@);
    }
    out
}

/// Decodes a server-bound voice packet: fails only on a missing header or a
/// malformed sequence varint.
pub fn decode_voice_packet(b: &Vec<u8>) -> (r: Option<VoicePacketServerBound>)
    ensures
        r is Some <==> (b@.len() >= 1 && spec_decode_varint(b@.skip(1)) is Some),
        r matches Some(p) ==> (spec_decode_varint(b@.skip(1)) matches Some(d) && p.typ == b@[0]
            >> 5 && p.target == b@[0] & 0x1f && p.seq == d.0 && p.payload@ == b@.skip(1 + d.1)),
{
    let n: usize = b.len();
    if n < 1 {
        return None;
    }
    let h = b[0];
    match decode_varint(b, 1) {
        None => {
            proof {
                assert(b@.skip(1) =~= b@.skip(1));
            }
            None
        },
        Some((sq, np)) => {
            let mut payload: Vec<u8> = Vec::new();
            let mut i: usize = np;
            while i < n
                invariant
                    np <= i <= n,
                    n == b@.len(),
                    payload@ == b@.subrange(np as int, i as int),
                decreases n - i,
            {
                payload.push(b[i]);
                proof {
                    assert(b@.subrange(np as int, i + 1) =~= b@.subrange(np as int, i as int)
                        + seq![b@[i as int]]);
                }
                i = i + 1;
            }
            proof {
                assert(b@.subrange(np as int, n as int) =~= b@.skip(np as int));
                let d = spec_decode_varint(b@.skip(1)).unwrap();
                assert(b@.skip(np as int) =~= b@.skip(1 + d.1));
            }
            Some(VoicePacketServerBound { typ: h >> 5, target: h & 0x1f, seq: sq, payload })
        },
    }
}

impl VoicePacketServerBound {
    /// Stamps the sender's session onto the packet for delivery.
    pub fn into_client_bound(self, session: u32) -> (r: VoicePacketClientBound)
        ensures
            r.typ == self.typ,
            r.target == self.target,
            r.session == session,
            r.seq == self.seq,
            r.payload == self.payload,
    {
        VoicePacketClientBound {
            typ: self.typ,
            target: self.target,
            session,
            seq: self.seq,
            payload: self.payload,
        }
    }
}

/// Whether two client-bound packets carry the same content.
pub open spec fn vp_eq(a: VoicePacketClientBound, b: VoicePacketClientBound) -> bool {
    a.typ == b.typ && a.target == b.target && a.session == b.session && a.seq == b.seq
        && a.payload@ == b.payload@
}

impl VoicePacketClientBound {
    /// An equal copy of the packet, for fan-out to several recipients.
    pub fn duplicate(&self) -> (r: VoicePacketClientBound)
        ensures
            vp_eq(r, *self),
    {
        VoicePacketClientBound {
            typ: self.typ,
            target: self.target,
            session: self.session,
            seq: self.seq,
            payload: crate::vecset::copy_vec(&self.payload),
        }
    }
}

/// Encodes a client-bound voice packet.
pub fn encode_client_bound(p: &VoicePacketClientBound) -> (r: Vec<u8>)
    requires
        p.payload@.len() + 19 <= usize::MAX,
    ensures
        r@ == spec_encode_client_bound(*p),
{
    let typ = p.typ;
    let target = p.target;
    proof {
        assert(((typ & 0x07) << 5) | (target & 0x1f) < 256) by (bit_vector);
    }
    let mut out: Vec<u8> = Vec::new();
    out.push((((typ & 0x07) << 5) | (target & 0x1f)) as u8);
    encode_varint(&mut out, p.session as u64);
    encode_varint(&mut out, p.seq);
    let mut i: usize = 0;
    let n: usize = p.payload.len();
    while i < n
        invariant
            i <= n,
            n == p.payload@.len(),
            out@ == seq![spec_voice_header(p.typ, p.target)] + spec_varint(p.session as u64)
                + spec_varint(p.seq) + p.payload@.take(i as int),
            out@.len() <= 19 + i,
        decreases n - i,
    {
        out.push(p.payload[i]);
        proof {
            assert(p.payload@.take(i + 1) =~= p.payload@.take(i as int) + seq![p.payload@[
                i as int]]);
        }
        i = i + 1;
    }
    proof {
        assert(p.payload@.take(n as int) =~= p.payload@);
    }
    out
}

/// Round trip: decoding an encoded server-bound packet gives the packet
/// back, provided its type and target fit the header fields.
pub proof fn lemma_voice_roundtrip(p: VoicePacketServerBound)
    requires
        p.typ <= 7,
        p.target <= 31,
    ensures
        ({
            let s = spec_encode_server_bound(p);
            &&& s.len() >= 1
            &&& spec_decode_varint(s.skip(1)) matches Some(d) && d.0 == p.seq && s[0] >> 5
                == p.typ && s[0] & 0x1f == p.target && s.skip(1 + d.1) == p.payload@
        }),
{
    let s = spec_encode_server_bound(p);
    let typ = p.typ;
    let target = p.target;
    assert(typ <= 7 && target <= 31 ==> ((((typ & 0x07) << 5) | (target & 0x1f)) as u8) >> 5
        == typ && ((((typ & 0x07) << 5) | (target & 0x1f)) as u8) & 0x1f == target)
        by (bit_vector);
    assert(s.skip(1) =~= spec_varint(p.seq) + p.payload@);
    lemma_varint_roundtrip(p.seq, p.payload@);
    let d = spec_decode_varint(s.skip(1)).unwrap();
    assert(s.skip(1 + d.1) =~= p.payload@);
}

} // verus!

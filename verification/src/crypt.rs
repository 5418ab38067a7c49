//! Per-client authenticated-encryption state for the UDP voice channel.
//!
//! The cipher itself is a keyed XOR stream with a rotate-xor authentication
//! tag; the protocol layer around it — the one-byte nonce on the wire, the
//! replay window, the good/late/lost/resync counters and the `last_good`
//! liveness signal — follows the Mumble OCB framing: a datagram carries the
//! low byte of its nonce, a 4-byte tag over the encrypted body, and the body.

use crate::wire::{read_u32_be, spec_be_u32, spec_u32_be, push_u32_be};
use vstd::prelude::*;

verus! {

/// Why a datagram was rejected.
///
/// `MacMismatch`: the packet is too short or its tag does not authenticate
/// under the reconstructed nonce (including the degenerate cases where no
/// nonce can be reconstructed at the edges of the nonce space).
/// `Repeat`: the packet re-uses the newest accepted nonce.
/// `Replay`: the packet re-uses an older nonce already seen in the window.
/// `Late`: the packet authenticates but its nonce is older than the replay
/// window tracks.
#[derive(Clone, Copy, PartialEq, Eq, Structural, Debug)]
pub enum CryptError {
    MacMismatch,
    Replay,
    Late,
    Repeat,
}

/// Symmetric key material, send/receive nonces, the replay window, and the
/// packet-loss telemetry of one client.
#[derive(Clone, Copy, PartialEq, Eq, Structural, Debug)]
pub struct CryptState {
    pub key: u64,
    /// Nonce of the last packet sent; incremented before each encryption.
    pub encrypt_nonce: u64,
    /// Newest nonce accepted from the peer.
    pub decrypt_nonce: u64,
    /// Bit `i` set means nonce `decrypt_nonce - i` was already accepted.
    pub history: u32,
    pub good: u32,
    pub late: u32,
    pub lost: u32,
    pub resync: u32,
    /// Time (milliseconds) of the last successful authenticated decrypt.
    pub last_good: u64,
}

/// `c + 1`, stopping at the counter's ceiling instead of wrapping.
pub open spec fn sat_inc(c: u32) -> u32 {
    if c < u32::MAX {
        (c + 1) as u32
    } else {
        c
    }
}

/// `c + d`, stopping at the counter's ceiling instead of wrapping.
pub open spec fn sat_add(c: u32, d: u32) -> u32 {
    if c + d <= u32::MAX {
        (c + d) as u32
    } else {
        u32::MAX
    }
}

/// The nonce after `n`, wrapping around the 64-bit space.
pub open spec fn nonce_succ(n: u64) -> u64 {
    if n == u64::MAX {
        0
    } else {
        (n + 1) as u64
    }
}

/// Byte `i` of the key stream for a given key and nonce.
pub open spec fn ks_byte(key: u64, nonce: u64, i: int) -> u8 {
    let sh = ((i % 8) * 8) as u64;
    (((key >> sh) ^ (nonce >> sh) ^ ((i % 256) as u64)) & 0xff) as u8
}

/// `s` combined bytewise with the key stream; its own inverse.
pub open spec fn xor_seq(key: u64, nonce: u64, s: Seq<u8>) -> Seq<u8> {
    Seq::new(s.len(), |i: int| s[i] ^ ks_byte(key, nonce, i))
}

/// Applying the key stream twice gives the input back.
pub proof fn lemma_xor_seq_involutive(key: u64, nonce: u64, s: Seq<u8>)
    ensures
        xor_seq(key, nonce, xor_seq(key, nonce, s)) == s,
{
    assert forall|i: int| 0 <= i < s.len() implies xor_seq(key, nonce, xor_seq(key, nonce, s))[i]
        == s[i] by {
        let a = s[i];
        let k = ks_byte(key, nonce, i);
        assert((a ^ k) ^ k == a) by (bit_vector);
    }
    assert(xor_seq(key, nonce, xor_seq(key, nonce, s)) =~= s);
}

/// Initial accumulator of the authentication tag.
pub open spec fn tag_init(key: u64, nonce: u64) -> u32 {
    ((((key ^ nonce) & 0xffff_ffff) ^ (((key ^ nonce) >> 32) & 0xffff_ffff)) & 0xffff_ffff) as u32
}

/// One step of the authentication tag: rotate left by five, mix the byte in.
pub open spec fn tag_step(acc: u32, b: u8) -> u32 {
    ((acc << 5) | (acc >> 27)) ^ (b as u32)
}

/// The tag accumulated over `s`, starting from `acc`.
pub open spec fn tag_rec(acc: u32, s: Seq<u8>) -> u32
    decreases s.len(),
{
    if s.len() == 0 {
        acc
    } else {
        tag_rec(tag_step(acc, s[0]), s.drop_first())
    }
}

/// The authentication tag of an encrypted body.
pub open spec fn spec_tag(key: u64, nonce: u64, s: Seq<u8>) -> u32 {
    tag_rec(tag_init(key, nonce), s)
}

/// The encrypted datagram for plaintext `p` under `key` and `nonce`:
/// low nonce byte, 4-byte tag over the encrypted body, encrypted body.
pub open spec fn spec_encrypt_bytes(key: u64, nonce: u64, p: Seq<u8>) -> Seq<u8> {
    seq![(nonce & 0xff) as u8] + spec_u32_be(spec_tag(key, nonce, xor_seq(key, nonce, p)))
        + xor_seq(key, nonce, p)
}

/// How far ahead of the newest accepted nonce the wire byte `b` points,
/// measured forward modulo 256.
pub open spec fn fwd_dist(head: u64, b: u8) -> int {
    ((b as int) + 256 - ((head & 0xff) as int)) % 256
}

/// Whether the 4-byte tag of datagram `c` authenticates under `nonce`.
pub open spec fn tag_ok(key: u64, nonce: u64, c: Seq<u8>) -> bool {
    spec_be_u32(c[1], c[2], c[3], c[4]) == spec_tag(key, nonce, c.skip(5))
}

/// The decrypted body of datagram `c` under `nonce`.
pub open spec fn plain_of(key: u64, nonce: u64, c: Seq<u8>) -> Seq<u8> {
    xor_seq(key, nonce, c.skip(5))
}

/// The replay window after the head advanced by `d`.
pub open spec fn shift_hist(h: u32, d: int) -> u32 {
    if d >= 32 {
        1u32
    } else {
        (h << (d as u32)) | 1u32
    }
}

/// Whether the window records the nonce `back` positions behind the head.
pub open spec fn hist_bit(h: u32, back: int) -> bool {
    (h >> (back as u32)) & 1u32 == 1u32
}

/// The window with the nonce `back` positions behind the head recorded.
pub open spec fn set_bit(h: u32, back: int) -> u32 {
    h | (1u32 << (back as u32))
}

/// The outcome of one decryption: the successor state and the result.
///
/// A datagram must carry the 5-byte header. Its nonce is reconstructed from
/// the wire byte: at distance 0 it re-uses the head (fresh only if the head
/// was never accepted); up to 128 forward it advances the head, counting the
/// skipped nonces as lost; otherwise it lies behind the head, where it is a
/// replay if already seen, late if beyond the window. Only packets whose tag
/// authenticates change any state; only accepted packets touch `good`,
/// `last_good`, the head and the window.
pub open spec fn spec_decrypt(cs: CryptState, c: Seq<u8>, now: u64) -> (CryptState, Result<
    Seq<u8>,
    CryptError,
>) {
    if c.len() < 5 {
        (cs, Err(CryptError::MacMismatch))
    } else {
        let d = fwd_dist(cs.decrypt_nonce, c[0]);
        if d == 0 {
            if !tag_ok(cs.key, cs.decrypt_nonce, c) {
                (cs, Err(CryptError::MacMismatch))
            } else if hist_bit(cs.history, 0) {
                (cs, Err(CryptError::Repeat))
            } else {
                (
                    (CryptState {
                        history: set_bit(cs.history, 0),
                        good: sat_inc(cs.good),
                        last_good: now,
                        ..cs
                    }),
                    Ok(plain_of(cs.key, cs.decrypt_nonce, c)),
                )
            }
        } else if d <= 128 {
            if cs.decrypt_nonce > u64::MAX - d {
                (cs, Err(CryptError::MacMismatch))
            } else {
                let nonce = (cs.decrypt_nonce + d) as u64;
                if !tag_ok(cs.key, nonce, c) {
                    (cs, Err(CryptError::MacMismatch))
                } else {
                    (
                        (CryptState {
                            decrypt_nonce: nonce,
                            history: shift_hist(cs.history, d),
                            good: sat_inc(cs.good),
                            lost: sat_add(cs.lost, (d - 1) as u32),
                            last_good: now,
                            ..cs
                        }),
                        Ok(plain_of(cs.key, nonce, c)),
                    )
                }
            }
        } else {
            let back = 256 - d;
            if cs.decrypt_nonce < back {
                (cs, Err(CryptError::MacMismatch))
            } else {
                let nonce = (cs.decrypt_nonce - back) as u64;
                if !tag_ok(cs.key, nonce, c) {
                    (cs, Err(CryptError::MacMismatch))
                } else if back > 31 {
                    ((CryptState { late: sat_inc(cs.late), ..cs }), Err(CryptError::Late))
                } else if hist_bit(cs.history, back) {
                    (cs, Err(CryptError::Replay))
                } else {
                    (
                        (CryptState {
                            history: set_bit(cs.history, back),
                            good: sat_inc(cs.good),
                            last_good: now,
                            ..cs
                        }),
                        Ok(plain_of(cs.key, nonce, c)),
                    )
                }
            }
        }
    }
}

/// The state after one decryption attempt.
pub open spec fn spec_decrypt_state(cs: CryptState, c: Seq<u8>, now: u64) -> CryptState {
    spec_decrypt(cs, c, now).0
}

/// The result of one decryption attempt.
pub open spec fn spec_decrypt_result(cs: CryptState, c: Seq<u8>, now: u64) -> Result<
    Seq<u8>,
    CryptError,
> {
    spec_decrypt(cs, c, now).1
}

/// Computes byte `i` of the key stream.
fn ks_byte_exec(key: u64, nonce: u64, i: usize) -> (r: u8)
    ensures
        r == ks_byte(key, nonce, i as int),
{
    let sh: u64 = ((i % 8) as u64) * 8;
    let m: u64 = (i % 256) as u64;
    let x: u64 = (key >> sh) ^ (nonce >> sh) ^ m;
    proof {
        assert(x & 0xff < 256) by (bit_vector);
    }
    (x & 0xff) as u8
}

/// Combines `data[from..]` with the key stream.
fn xor_apply(key: u64, nonce: u64, data: &Vec<u8>, from: usize) -> (r: Vec<u8>)
    requires
        from <= data@.len(),
    ensures
        r@ == xor_seq(key, nonce, data@.skip(from as int)),
{
    let n: usize = data.len();
    let mut out: Vec<u8> = Vec::new();
    let mut i: usize = from;
    while i < n
        invariant
            from <= i <= n,
            n == data@.len(),
            out@.len() == i - from,
            forall|j: int|
                0 <= j < out@.len() ==> out@[j] == data@[from + j] ^ ks_byte(key, nonce, j),
        decreases n - i,
    {
        let b = data[i] ^ ks_byte_exec(key, nonce, i - from);
        out.push(b);
        i = i + 1;
    }
    proof {
        assert(out@ =~= xor_seq(key, nonce, data@.skip(from as int)));
    }
    out
}

/// Computes the authentication tag over `data[from..]`.
fn tag_exec(key: u64, nonce: u64, data: &Vec<u8>, from: usize) -> (r: u32)
    requires
        from <= data@.len(),
    ensures
        r == spec_tag(key, nonce, data@.skip(from as int)),
{
    let x: u64 = key ^ nonce;
    proof {
        assert((x & 0xffff_ffff) < 0x1_0000_0000 && ((x >> 32) & 0xffff_ffff) < 0x1_0000_0000)
            by (bit_vector);
    }
    let mut acc: u32 = ((x & 0xffff_ffff) as u32) ^ (((x >> 32) & 0xffff_ffff) as u32);
    proof {
        let ka = key;
        let na = nonce;
        assert((((ka ^ na) & 0xffff_ffff) as u32) ^ ((((ka ^ na) >> 32) & 0xffff_ffff) as u32)
            == (((((ka ^ na) & 0xffff_ffff) ^ (((ka ^ na) >> 32) & 0xffff_ffff)) & 0xffff_ffff)
            as u32)) by (bit_vector);
    }
    let n: usize = data.len();
    let mut i: usize = from;
    while i < n
        invariant
            from <= i <= n,
            n == data@.len(),
            tag_rec(acc, data@.skip(i as int)) == spec_tag(key, nonce, data@.skip(from as int)),
        decreases n - i,
    {
        proof {
            assert(data@.skip(i as int).drop_first() =~= data@.skip(i + 1));
            assert(data@.skip(i as int)[0] == data@[i as int]);
        }
        acc = ((acc << 5u32) | (acc >> 27u32)) ^ (data[i] as u32);
        i = i + 1;
    }
    proof {
        assert(data@.skip(n as int) =~= Seq::empty());
    }
    acc
}

impl CryptState {
    /// A fresh crypto session: nonces at zero, an empty window, zeroed
    /// counters, and `now` as the last-good instant.
    pub fn new(key: u64, now: u64) -> (r: Self)
        ensures
            r.key == key,
            r.encrypt_nonce == 0,
            r.decrypt_nonce == 0,
            r.history == 0,
            r.good == 0,
            r.late == 0,
            r.lost == 0,
            r.resync == 0,
            r.last_good == now,
    {
        CryptState {
            key,
            encrypt_nonce: 0,
            decrypt_nonce: 0,
            history: 0,
            good: 0,
            late: 0,
            lost: 0,
            resync: 0,
            last_good: now,
        }
    }

    /// The telemetry tuple: good, late, lost, resync, last-good instant.
    pub fn snapshot(&self) -> (r: (u32, u32, u32, u32, u64))
        ensures
            r == (self.good, self.late, self.lost, self.resync, self.last_good),
    {
        (self.good, self.late, self.lost, self.resync, self.last_good)
    }

    /// Encrypts `plain`: advances the send nonce and frames the body.
    /// Deterministic; never fails.
    pub fn encrypt(&mut self, plain: &Vec<u8>) -> (r: Vec<u8>)
        requires
            plain@.len() + 5 <= usize::MAX,
        ensures
            *final(self) == (CryptState {
                encrypt_nonce: nonce_succ(old(self).encrypt_nonce),
                ..*old(self)
            }),
            r@ == spec_encrypt_bytes(
                old(self).key,
                nonce_succ(old(self).encrypt_nonce),
                plain@,
            ),
    {
        let n: u64 = if self.encrypt_nonce == u64::MAX {
            0
        } else {
            self.encrypt_nonce + 1
        };
        self.encrypt_nonce = n;
        let mut body = xor_apply(self.key, n, plain, 0);
        proof {
            assert(plain@.skip(0) =~= plain@);
        }
        let t = tag_exec(self.key, n, &body, 0);
        proof {
            assert(body@.skip(0) =~= body@);
            assert(n & 0xff < 256) by (bit_vector);
        }
        let mut out: Vec<u8> = Vec::new();
        out.push((n & 0xff) as u8);
        push_u32_be(&mut out, t);
        out.append(&mut body);
        proof {
            assert(out@ =~= spec_encrypt_bytes(old(self).key, n, plain@));
        }
        out
    }

    /// Attempts to decrypt datagram `c` received at time `now`; the complete
    /// behaviour — nonce reconstruction, replay window, counters — is
    /// `spec_decrypt`.
    pub fn decrypt(&mut self, c: &Vec<u8>, now: u64) -> (r: Result<Vec<u8>, CryptError>)
        ensures
            *final(self) == spec_decrypt_state(*old(self), c@, now),
            r is Ok <==> spec_decrypt_result(*old(self), c@, now) is Ok,
            r matches Ok(p) ==> (spec_decrypt_result(*old(self), c@, now) matches Ok(q) && p@
                == q),
            r matches Err(e) ==> (spec_decrypt_result(*old(self), c@, now) matches Err(e2) && e
                == e2),
    {
        if c.len() < 5 {
            return Err(CryptError::MacMismatch);
        }
        let b: u8 = c[0];
        let dn: u64 = self.decrypt_nonce;
        let head_low: u64 = dn & 0xff;
        proof {
            assert(dn & 0xff < 256) by (bit_vector);
        }
        let d: u64 = ((b as u64) + 256 - head_low) % 256;
        let wire_tag = read_u32_be(c, 1);
        if d == 0 {
            let nonce = self.decrypt_nonce;
            let t = tag_exec(self.key, nonce, c, 5);
            if wire_tag != t {
                return Err(CryptError::MacMismatch);
            }
            if (self.history >> 0u32) & 1 == 1 {
                return Err(CryptError::Repeat);
            }
            self.history = self.history | (1u32 << 0u32);
            self.good = if self.good < u32::MAX {
                self.good + 1
            } else {
                self.good
            };
            self.last_good = now;
            Ok(xor_apply(self.key, nonce, c, 5))
        } else if d <= 128 {
            if self.decrypt_nonce > u64::MAX - d {
                return Err(CryptError::MacMismatch);
            }
            let nonce = self.decrypt_nonce + d;
            let t = tag_exec(self.key, nonce, c, 5);
            if wire_tag != t {
                return Err(CryptError::MacMismatch);
            }
            self.decrypt_nonce = nonce;
            self.history = if d >= 32 {
                1u32
            } else {
                (self.history << (d as u32)) | 1u32
            };
            self.good = if self.good < u32::MAX {
                self.good + 1
            } else {
                self.good
            };
            let gap: u32 = (d - 1) as u32;
            self.lost = if self.lost <= u32::MAX - gap {
                self.lost + gap
            } else {
                u32::MAX
            };
            self.last_good = now;
            Ok(xor_apply(self.key, nonce, c, 5))
        } else {
            let back: u64 = 256 - d;
            if self.decrypt_nonce < back {
                return Err(CryptError::MacMismatch);
            }
            let nonce = self.decrypt_nonce - back;
            let t = tag_exec(self.key, nonce, c, 5);
            if wire_tag != t {
                return Err(CryptError::MacMismatch);
            }
            if back > 31 {
                self.late = if self.late < u32::MAX {
                    self.late + 1
                } else {
                    self.late
                };
                return Err(CryptError::Late);
            }
            if (self.history >> (back as u32)) & 1 == 1 {
                return Err(CryptError::Replay);
            }
            self.history = self.history | (1u32 << (back as u32));
            self.good = if self.good < u32::MAX {
                self.good + 1
            } else {
                self.good
            };
            self.last_good = now;
            Ok(xor_apply(self.key, nonce, c, 5))
        }
    }

    /// Forgets all receive-side progress so the peer can renegotiate: the
    /// head nonce and window are cleared, the resync counter advances, and
    /// `last_good` restarts so the janitor does not immediately retrigger.
    pub fn reset_decrypt(&mut self, now: u64)
        ensures
            *final(self) == (CryptState {
                decrypt_nonce: 0,
                history: 0,
                resync: sat_inc(old(self).resync),
                last_good: now,
                ..*old(self)
            }),
    {
        self.decrypt_nonce = 0;
        self.history = 0;
        self.resync = if self.resync < u32::MAX {
            self.resync + 1
        } else {
            self.resync
        };
        self.last_good = now;
    }

    /// Replaces the key material on a client-initiated re-key, keeping the
    /// telemetry; both sides restart from the exchanged nonces.
    pub fn re_key(&mut self, key: u64, client_nonce: u64, server_nonce: u64, now: u64)
        ensures
            *final(self) == (CryptState {
                key: key,
                encrypt_nonce: server_nonce,
                decrypt_nonce: client_nonce,
                history: 0,
                resync: sat_inc(old(self).resync),
                last_good: now,
                ..*old(self)
            }),
    {
        self.key = key;
        self.encrypt_nonce = server_nonce;
        self.decrypt_nonce = client_nonce;
        self.history = 0;
        self.resync = if self.resync < u32::MAX {
            self.resync + 1
        } else {
            self.resync
        };
        self.last_good = now;
    }
}

/// Round trip: a packet encrypted by a sender whose send nonce matches the
/// receiver's head nonce decrypts to the original plaintext, and the receiver
/// counts it as good. A fresh pair of sessions with a shared key satisfies
/// the premise.
pub proof fn lemma_encrypt_decrypt_roundtrip(tx: CryptState, rx: CryptState, p: Seq<u8>, now: u64)
    requires
        rx.key == tx.key,
        rx.decrypt_nonce == tx.encrypt_nonce,
        tx.encrypt_nonce < u64::MAX,
    ensures
        spec_decrypt_result(rx, spec_encrypt_bytes(tx.key, nonce_succ(tx.encrypt_nonce), p), now)
            matches Ok(q) && q == p,
        spec_decrypt_state(rx, spec_encrypt_bytes(tx.key, nonce_succ(tx.encrypt_nonce), p), now)
            .good == sat_inc(rx.good),
        spec_decrypt_state(rx, spec_encrypt_bytes(tx.key, nonce_succ(tx.encrypt_nonce), p), now)
            .last_good == now,
        spec_decrypt_state(rx, spec_encrypt_bytes(tx.key, nonce_succ(tx.encrypt_nonce), p), now)
            .decrypt_nonce == nonce_succ(tx.encrypt_nonce),
    {
    let a = rx.decrypt_nonce;
    let n = nonce_succ(tx.encrypt_nonce);
    assert(n == a + 1);
    let body = xor_seq(tx.key, n, p);
    let c = spec_encrypt_bytes(tx.key, n, p);
    assert(c.len() == 5 + p.len());
    assert(c[0] == (n & 0xff) as u8);
    assert(n & 0xff < 256 && a & 0xff < 256) by (bit_vector);
    assert(a < 0xffff_ffff_ffff_ffff ==> ((((a + 1) as u64) & 0xff) == ((a & 0xff) + 1) as u64
        || ((a & 0xff) == 255 && (((a + 1) as u64) & 0xff) == 0))) by (bit_vector);
    assert((c[0] as int) == ((n & 0xff) as int));
    if a & 0xff == 255 {
        assert(fwd_dist(a, c[0]) == (0 + 256 - 255) % 256);
    } else {
        assert(fwd_dist(a, c[0]) == (((a & 0xff) + 1) + 256 - (a & 0xff)) % 256);
    }
    assert(fwd_dist(a, c[0]) == 1);
    assert(a <= u64::MAX - 1);
    assert(c.skip(5) =~= body);
    assert(c[1] == spec_u32_be(spec_tag(tx.key, n, body))[0]);
    assert(c[2] == spec_u32_be(spec_tag(tx.key, n, body))[1]);
    assert(c[3] == spec_u32_be(spec_tag(tx.key, n, body))[2]);
    assert(c[4] == spec_u32_be(spec_tag(tx.key, n, body))[3]);
    crate::wire::lemma_u32_be_roundtrip(spec_tag(tx.key, n, body));
    assert(tag_ok(rx.key, n, c));
    lemma_xor_seq_involutive(tx.key, n, p);
    assert(plain_of(rx.key, n, c) == p);
}

} // verus!

//! Length-prefixed framing of encrypted control-channel frames.
//!
//! After the handshake every control-channel frame travels inside an
//! envelope: a four-byte little-endian length followed by that many payload
//! bytes, so a reader can delineate encrypted frames from the byte stream
//! before decrypting them.

use vstd::arithmetic::div_mod::{
    lemma_div_denominator, lemma_div_is_ordered, lemma_fundamental_div_mod, lemma_small_mod,
};
use vstd::prelude::*;

use crate::crypto::spec_le_bytes;

verus! {

/// The number of payload bytes an envelope can carry.
pub const MAX_FRAME_LEN: usize = 0xffff_ffff;

/// The envelope of a payload: four little-endian length bytes, then the
/// payload.
pub open spec fn spec_frame(payload: Seq<u8>) -> Seq<u8> {
    spec_le_bytes(payload.len(), 4) + payload
}

/// What a reader finds at the head of a byte stream: the first framed
/// payload and how many bytes it consumed, or nothing while the stream is
/// still too short.
pub open spec fn spec_decode_frame(buf: Seq<u8>) -> Option<(Seq<u8>, int)> {
    if buf.len() < 4 {
        None
    } else {
        let n = buf[0] + 0x100 * buf[1] + 0x1_0000 * buf[2] + 0x100_0000 * buf[3];
        if buf.len() < 4 + n {
            None
        } else {
            Some((buf.subrange(4, 4 + n), 4 + n))
        }
    }
}

/// The four little-endian bytes of a length, written out.
proof fn lemma_le4_expand(len: nat)
    ensures
        spec_le_bytes(len, 4) =~= seq![
            (len % 256) as u8,
            ((len / 0x100) % 256) as u8,
            ((len / 0x1_0000) % 256) as u8,
            ((len / 0x100_0000) % 256) as u8,
        ],
{
    lemma_div_denominator(len as int, 0x100, 0x100);
    lemma_div_denominator(len as int, 0x1_0000, 0x100);
    assert(spec_le_bytes(len, 4) == seq![(len % 256) as u8] + spec_le_bytes(len / 256, 3));
    assert(spec_le_bytes(len / 256, 3) == seq![((len / 256) % 256) as u8] + spec_le_bytes(
        len / 256 / 256,
        2,
    ));
    assert(spec_le_bytes(len / 256 / 256, 2) == seq![((len / 256 / 256) % 256) as u8]
        + spec_le_bytes(len / 256 / 256 / 256, 1));
    assert(spec_le_bytes(len / 256 / 256 / 256, 1) == seq![((len / 256 / 256 / 256) % 256) as u8]
        + spec_le_bytes(len / 256 / 256 / 256 / 256, 0));
}

/// Wraps a payload in its envelope.
pub fn encode_frame(payload: &Vec<u8>) -> (r: Vec<u8>)
    requires
        payload@.len() <= MAX_FRAME_LEN,
    ensures
        r@ == spec_frame(payload@),
{
    let n: usize = payload.len();
    let mut out: Vec<u8> = Vec::new();
    out.push((n % 0x100) as u8);
    out.push((n / 0x100 % 0x100) as u8);
    out.push((n / 0x1_0000 % 0x100) as u8);
    out.push((n / 0x100_0000 % 0x100) as u8);
    proof {
        lemma_le4_expand(payload@.len());
    }
    let mut idx: usize = 0;
    while idx < payload.len()
        invariant
            idx <= payload@.len(),
            out@.len() == 4 + idx,
            forall|k: int| 0 <= k < 4 ==> out@[k] == spec_le_bytes(payload@.len(), 4)[k],
            forall|k: int| 0 <= k < idx ==> out@[4 + k] == payload@[k],
        decreases payload@.len() - idx,
    {
        out.push(payload[idx]);
        idx = idx + 1;
    }
    proof {
        assert(out@ =~= spec_frame(payload@));
    }
    out
}

/// Reads the first framed payload off the head of a byte stream. Succeeds
/// exactly when the stream holds the four length bytes and the full payload
/// they announce; the result is the payload and the number of bytes
/// consumed.
pub fn decode_frame(buf: &Vec<u8>) -> (r: Option<(Vec<u8>, usize)>)
    ensures
        match r {
            Some(pair) => spec_decode_frame(buf@) == Some((pair.0@, pair.1 as int)),
            None => spec_decode_frame(buf@) is None,
        },
{
    let total: usize = buf.len();
    if total < 4 {
        return None;
    }
    let n: usize = (buf[0] as usize) + 0x100 * (buf[1] as usize) + 0x1_0000 * (buf[2] as usize)
        + 0x100_0000 * (buf[3] as usize);
    if total - 4 < n {
        return None;
    }
    let mut payload: Vec<u8> = Vec::new();
    let mut idx: usize = 0;
    while idx < n
        invariant
            idx <= n,
            4 + n <= total,
            total == buf@.len(),
            payload@.len() == idx,
            forall|k: int| 0 <= k < idx ==> payload@[k] == buf@[4 + k],
        decreases n - idx,
    {
        payload.push(buf[4 + idx]);
        idx = idx + 1;
    }
    proof {
        assert(payload@ =~= buf@.subrange(4, 4 + n));
    }
    Some((payload, 4 + n))
}

/// Law: a framed payload decodes back to itself, whatever follows it in the
/// stream, and consumes exactly its own bytes.
pub proof fn lemma_frame_roundtrip(payload: Seq<u8>, rest: Seq<u8>)
    requires
        payload.len() <= MAX_FRAME_LEN,
    ensures
        spec_decode_frame(spec_frame(payload) + rest) == Some(
            (payload, 4 + payload.len() as int),
        ),
{
    let buf = spec_frame(payload) + rest;
    let n = payload.len() as int;
    lemma_le4_expand(payload.len());
    assert(buf.len() == 4 + n + rest.len());
    assert(buf[0] == (payload.len() % 256) as u8);
    assert(buf[1] == ((payload.len() / 0x100) % 256) as u8);
    assert(buf[2] == ((payload.len() / 0x1_0000) % 256) as u8);
    assert(buf[3] == ((payload.len() / 0x100_0000) % 256) as u8);
    let q1 = n / 0x100;
    let q2 = n / 0x1_0000;
    let q3 = n / 0x100_0000;
    lemma_fundamental_div_mod(n, 0x100);
    lemma_fundamental_div_mod(q1, 0x100);
    lemma_fundamental_div_mod(q2, 0x100);
    lemma_div_denominator(n, 0x100, 0x100);
    lemma_div_denominator(n, 0x1_0000, 0x100);
    lemma_div_is_ordered(n, 0xffff_ffff, 0x100_0000);
    assert(0xffff_ffffint / 0x100_0000 == 0xff);
    lemma_small_mod(q3 as nat, 256);
    assert(buf[0] + 0x100 * buf[1] + 0x1_0000 * buf[2] + 0x100_0000 * buf[3] == n);
    assert(buf.subrange(4, 4 + n) =~= payload);
}

} // verus!

//! Session key derivation and authenticated encryption.
//!
//! Session keys are derived from the pairing shared secret with fixed,
//! protocol-defined context values, one per direction of the control channel
//! and one for the audio stream. `seal` encrypts a byte sequence under a key
//! and nonce by XORing it with a keystream and appends an eight-byte
//! authentication tag over the associated data and the ciphertext; `open`
//! checks the tag and recovers the plaintext, reporting `DecryptionFailure`
//! on any mismatch. The tag weights every byte position with an odd factor,
//! so a change of any single byte of ciphertext or tag always changes the
//! comparison and is rejected.

use vstd::arithmetic::div_mod::{
    lemma_add_mod_noop, lemma_fundamental_div_mod, lemma_mod_equivalence, lemma_mod_multiples_vanish,
    lemma_multiply_divide_lt, lemma_small_mod,
};
use vstd::arithmetic::mul::lemma_mul_upper_bound;
use vstd::arithmetic::power::pow;
use vstd::prelude::*;

use crate::error::SessionError;

verus! {

/// Context value for deriving the control-channel encrypt key.
pub const CTX_CONTROL_ENCRYPT: u64 = 0x6374726c_2d656e63;

/// Context value for deriving the control-channel decrypt key.
pub const CTX_CONTROL_DECRYPT: u64 = 0x6374726c_2d646563;

/// Context value for deriving the audio-stream key.
pub const CTX_AUDIO: u64 = 0x61756469_6f2d6b65;

/// The directional symmetric keys of one session, immutable once derived.
#[derive(Clone, Copy, PartialEq, Eq, Debug, Structural)]
pub struct SessionKeys {
    /// Key for frames this side encrypts on the control channel.
    pub control_encrypt: u64,
    /// Key for frames this side decrypts on the control channel.
    pub control_decrypt: u64,
    /// Key for audio packets.
    pub audio: u64,
}

/// The 64-bit sum of `a` and `b`, wrapping on overflow.
pub open spec fn wadd64(a: u64, b: u64) -> u64 {
    ((a as int + b as int) % 0x1_0000_0000_0000_0000) as u64
}

/// The 64-bit product of `a` and `b`, wrapping on overflow.
pub open spec fn wmul64(a: u64, b: u64) -> u64 {
    ((a as int * b as int) % 0x1_0000_0000_0000_0000) as u64
}

/// The keyed mixing step every derivation in this module is built from.
pub open spec fn spec_mix(a: u64, b: u64) -> u64 {
    wadd64(wmul64(a ^ b, 0x9e3779b97f4a7c15), wmul64(b ^ 0x5851f42d4c957f2d, 0xff51afd7ed558ccd))
}

/// Wrapping 64-bit addition.
fn wadd(a: u64, b: u64) -> (r: u64)
    ensures
        r == wadd64(a, b),
{
    proof {
        if a + b > u64::MAX {
            lemma_mod_multiples_vanish(-1, a as int + b as int, 0x1_0000_0000_0000_0000);
            lemma_small_mod((a + b - 0x1_0000_0000_0000_0000) as nat, 0x1_0000_0000_0000_0000);
        } else {
            lemma_small_mod((a + b) as nat, 0x1_0000_0000_0000_0000);
        }
    }
    a.wrapping_add(b)
}

/// Wrapping 64-bit multiplication.
fn wmul(a: u64, b: u64) -> (r: u64)
    ensures
        r == wmul64(a, b),
{
    a.wrapping_mul(b)
}

/// The keyed mixing step.
pub(crate) fn mix(a: u64, b: u64) -> (r: u64)
    ensures
        r == spec_mix(a, b),
{
    wadd(wmul(a ^ b, 0x9e3779b97f4a7c15), wmul(b ^ 0x5851f42d4c957f2d, 0xff51afd7ed558ccd))
}

/// The session keys derived from a pairing shared secret: one key per
/// direction of the control channel and one for the audio stream, each
/// derived with its own protocol-defined context value.
pub open spec fn spec_derive(shared_secret: u64) -> SessionKeys {
    SessionKeys {
        control_encrypt: spec_mix(shared_secret, CTX_CONTROL_ENCRYPT),
        control_decrypt: spec_mix(shared_secret, CTX_CONTROL_DECRYPT),
        audio: spec_mix(shared_secret, CTX_AUDIO),
    }
}

/// Derives the per-session symmetric keys from the pairing shared secret.
/// The derivation is deterministic: two sides holding the same shared secret
/// derive identical keys.
pub fn derive_session_keys(shared_secret: u64) -> (r: SessionKeys)
    ensures
        r == spec_derive(shared_secret),
{
    SessionKeys {
        control_encrypt: mix(shared_secret, CTX_CONTROL_ENCRYPT),
        control_decrypt: mix(shared_secret, CTX_CONTROL_DECRYPT),
        audio: mix(shared_secret, CTX_AUDIO),
    }
}

/// The keystream byte at position `i` under a key and nonce.
pub open spec fn spec_keystream_byte(key: u64, nonce: u64, i: u64) -> u8 {
    (spec_mix(spec_mix(key, nonce), i) % 256) as u8
}

/// The keystream byte at position `i`.
fn keystream_byte(key: u64, nonce: u64, i: u64) -> (r: u8)
    ensures
        r == spec_keystream_byte(key, nonce, i),
{
    (mix(mix(key, nonce), i) % 256) as u8
}

/// `data` XORed bytewise with the keystream. Applying the same keystream
/// twice gives the data back.
pub open spec fn spec_xor_stream(key: u64, nonce: u64, data: Seq<u8>) -> Seq<u8> {
    Seq::new(data.len(), |i: int| data[i] ^ spec_keystream_byte(key, nonce, i as u64))
}

/// XORs `data` with the keystream under `key` and `nonce`.
fn xor_stream(key: u64, nonce: u64, data: &Vec<u8>) -> (r: Vec<u8>)
    ensures
        r@ == spec_xor_stream(key, nonce, data@),
{
    let mut out: Vec<u8> = Vec::new();
    let mut idx: usize = 0;
    while idx < data.len()
        invariant
            idx <= data@.len(),
            out@.len() == idx,
            forall|j: int|
                0 <= j < idx ==> out@[j] == (data@[j] ^ spec_keystream_byte(key, nonce, j as u64)),
        decreases data@.len() - idx,
    {
        let b = data[idx] ^ keystream_byte(key, nonce, idx as u64);
        out.push(b);
        idx = idx + 1;
    }
    proof {
        assert(out@ =~= spec_xor_stream(key, nonce, data@));
    }
    out
}

/// The weight of byte position `i` in the authentication sum. It is odd and
/// below `2^25`, so a change of a single byte changes the sum by a nonzero
/// amount smaller than `2^64`.
pub open spec fn spec_weight(i: int) -> int {
    2 * (i % 0x100_0000) + 1
}

/// The weighted byte sum the authentication tag is built from.
pub open spec fn spec_wsum(s: Seq<u8>) -> int
    decreases s.len(),
{
    if s.len() == 0 {
        0
    } else {
        spec_wsum(s.drop_last()) + (s.last() as int) * spec_weight(s.len() - 1)
    }
}

/// Extending a sequence by one byte adds that byte's weighted value.
proof fn lemma_wsum_snoc(s: Seq<u8>, i: int)
    requires
        0 <= i < s.len(),
    ensures
        spec_wsum(s.subrange(0, i + 1)) == spec_wsum(s.subrange(0, i)) + (s[i] as int)
            * spec_weight(i),
{
    let p = s.subrange(0, i + 1);
    assert(p.drop_last() =~= s.subrange(0, i));
    assert(p.last() == s[i]);
}

/// Replacing the byte at position `i` shifts the weighted sum by the byte
/// difference times the position weight.
proof fn lemma_wsum_update(s: Seq<u8>, i: int, b: u8)
    requires
        0 <= i < s.len(),
    ensures
        spec_wsum(s.update(i, b)) == spec_wsum(s) + (b - s[i]) * spec_weight(i),
    decreases s.len(),
{
    let t = s.update(i, b);
    assert(t.len() == s.len());
    if i == s.len() - 1 {
        assert(t.drop_last() =~= s.drop_last());
        assert(t.last() == b);
        assert((b as int) * spec_weight(i) - (s[i] as int) * spec_weight(i) == (b - s[i])
            * spec_weight(i)) by (nonlinear_arith);
    } else {
        assert(t.drop_last() =~= s.drop_last().update(i, b));
        lemma_wsum_update(s.drop_last(), i, b);
        assert(t.last() == s.last());
    }
}

/// The authentication tag over the associated data and the ciphertext under
/// a key and nonce.
pub open spec fn spec_tag(key: u64, nonce: u64, ad: Seq<u8>, ct: Seq<u8>) -> u64 {
    let base = spec_mix(
        spec_mix(key, nonce),
        spec_mix(
            (ad.len() % 0x1_0000_0000_0000_0000) as u64,
            (ct.len() % 0x1_0000_0000_0000_0000) as u64,
        ),
    );
    let with_ad = ((base as int + spec_wsum(ad)) % 0x1_0000_0000_0000_0000) as u64;
    let rekeyed = spec_mix(with_ad, key);
    ((rekeyed as int + spec_wsum(ct)) % 0x1_0000_0000_0000_0000) as u64
}

/// Folds the weighted sum of `data` into `start`, modulo `2^64`.
fn accumulate(start: u64, data: &Vec<u8>) -> (r: u64)
    ensures
        r as int == (start as int + spec_wsum(data@)) % 0x1_0000_0000_0000_0000,
{
    let mut acc: u64 = start;
    let mut idx: usize = 0;
    proof {
        assert(data@.subrange(0, 0) =~= Seq::<u8>::empty());
        lemma_small_mod(start as nat, 0x1_0000_0000_0000_0000);
    }
    while idx < data.len()
        invariant
            idx <= data@.len(),
            acc as int == (start as int + spec_wsum(data@.subrange(0, idx as int)))
                % 0x1_0000_0000_0000_0000,
        decreases data@.len() - idx,
    {
        let w: u64 = 2 * ((idx as u64) % 0x100_0000) + 1;
        let b64: u64 = data[idx] as u64;
        proof {
            lemma_mul_upper_bound(b64 as int, 255, w as int, 0x1ffffff);
        }
        let term: u64 = b64 * w;
        proof {
            let m: int = 0x1_0000_0000_0000_0000;
            let pre = spec_wsum(data@.subrange(0, idx as int));
            lemma_wsum_snoc(data@, idx as int);
            lemma_small_mod(term as nat, m as nat);
            lemma_add_mod_noop(start as int + pre, term as int, m);
            lemma_small_mod(acc as nat, m as nat);
            assert(term as int == (data@[idx as int] as int) * spec_weight(idx as int));
        }
        acc = wadd(acc, term);
        idx = idx + 1;
    }
    proof {
        assert(data@.subrange(0, data@.len() as int) =~= data@);
    }
    acc
}

/// The authentication tag over `ad` and `ct`.
fn compute_tag(key: u64, nonce: u64, ad: &Vec<u8>, ct: &Vec<u8>) -> (r: u64)
    ensures
        r == spec_tag(key, nonce, ad@, ct@),
{
    let ad_len = ad.len();
    let ct_len = ct.len();
    proof {
        lemma_small_mod(ad_len as nat, 0x1_0000_0000_0000_0000);
        lemma_small_mod(ct_len as nat, 0x1_0000_0000_0000_0000);
    }
    let base = mix(mix(key, nonce), mix(ad_len as u64, ct_len as u64));
    let with_ad = accumulate(base, ad);
    let rekeyed = mix(with_ad, key);
    accumulate(rekeyed, ct)
}

/// The little-endian bytes of `v`, `n` bytes long.
pub open spec fn spec_le_bytes(v: nat, n: nat) -> Seq<u8>
    decreases n,
{
    if n == 0 {
        Seq::empty()
    } else {
        seq![(v % 256) as u8] + spec_le_bytes(v / 256, (n - 1) as nat)
    }
}

/// The eight little-endian bytes of a tag.
pub open spec fn spec_tag_bytes(t: u64) -> Seq<u8> {
    spec_le_bytes(t as nat, 8)
}

/// A little-endian encoding is as long as asked for.
pub(crate) proof fn lemma_le_bytes_len(v: nat, n: nat)
    ensures
        spec_le_bytes(v, n).len() == n,
    decreases n,
{
    if n > 0 {
        lemma_le_bytes_len(v / 256, (n - 1) as nat);
    }
}

/// The value a little-endian byte sequence denotes.
pub open spec fn spec_le_val(s: Seq<u8>) -> int
    decreases s.len(),
{
    if s.len() == 0 {
        0
    } else {
        s[0] + 256 * spec_le_val(s.subrange(1, s.len() as int))
    }
}

/// A value below `256^n` is recovered exactly from its `n` little-endian
/// bytes.
pub(crate) proof fn lemma_le_bytes_val(v: nat, n: nat)
    requires
        v < pow(256, n),
    ensures
        spec_le_val(spec_le_bytes(v, n)) == v,
    decreases n,
{
    reveal(pow);
    if n == 0 {
        assert(pow(256, 0) == 1);
    } else {
        let s = spec_le_bytes(v, n);
        let rest = spec_le_bytes(v / 256, (n - 1) as nat);
        lemma_le_bytes_len(v / 256, (n - 1) as nat);
        assert(s.subrange(1, s.len() as int) =~= rest);
        assert(pow(256, n) == 256 * pow(256, (n - 1) as nat));
        lemma_multiply_divide_lt(v as int, 256, pow(256, (n - 1) as nat));
        lemma_le_bytes_val(v / 256, (n - 1) as nat);
        lemma_fundamental_div_mod(v as int, 256);
    }
}

/// Distinct tags have distinct byte encodings.
proof fn lemma_tag_bytes_injective(t1: u64, t2: u64)
    requires
        spec_tag_bytes(t1) == spec_tag_bytes(t2),
    ensures
        t1 == t2,
{
    assert(pow(256, 8) == 0x1_0000_0000_0000_0000) by {
        reveal_with_fuel(pow, 9);
    }
    lemma_le_bytes_val(t1 as nat, 8);
    lemma_le_bytes_val(t2 as nat, 8);
}

/// The little-endian bytes of `t`, eight bytes long.
pub(crate) fn tag_bytes(t: u64) -> (r: Vec<u8>)
    ensures
        r@ == spec_tag_bytes(t),
{
    let mut out: Vec<u8> = Vec::new();
    let mut v: u64 = t;
    let mut k: usize = 0;
    while k < 8
        invariant
            k <= 8,
            out@.len() == k,
            spec_tag_bytes(t) =~= out@ + spec_le_bytes(v as nat, (8 - k) as nat),
        decreases 8 - k,
    {
        let ghost old_v = v;
        let ghost old_out = out@;
        out.push((v % 256) as u8);
        v = v / 256;
        k = k + 1;
        proof {
            assert(spec_le_bytes(old_v as nat, (8 - (k - 1)) as nat) =~= seq![
                (old_v % 256) as u8,
            ] + spec_le_bytes(v as nat, (8 - k) as nat));
            assert(old_out + spec_le_bytes(old_v as nat, (9 - k) as nat) =~= out@ + spec_le_bytes(
                v as nat,
                (8 - k) as nat,
            ));
        }
    }
    proof {
        assert(out@ + spec_le_bytes(v as nat, 0) =~= out@);
    }
    out
}

/// What `seal` produces: the keystream-encrypted bytes followed by the
/// eight-byte authentication tag over the associated data and ciphertext.
pub open spec fn spec_seal(key: u64, nonce: u64, ad: Seq<u8>, pt: Seq<u8>) -> Seq<u8> {
    let ct = spec_xor_stream(key, nonce, pt);
    ct + spec_tag_bytes(spec_tag(key, nonce, ad, ct))
}

/// What `open` recovers: the plaintext when the buffer carries a valid tag
/// over its ciphertext part under the same key, nonce and associated data,
/// and nothing otherwise.
pub open spec fn spec_open(key: u64, nonce: u64, ad: Seq<u8>, buf: Seq<u8>) -> Option<Seq<u8>> {
    if buf.len() < 8 {
        None
    } else {
        let ct = buf.subrange(0, buf.len() - 8);
        let stored = buf.subrange(buf.len() - 8, buf.len() as int);
        if stored == spec_tag_bytes(spec_tag(key, nonce, ad, ct)) {
            Some(spec_xor_stream(key, nonce, ct))
        } else {
            None
        }
    }
}

/// Encrypts `plaintext` under `key` and `nonce` and appends the
/// authentication tag over `associated_data` and the ciphertext.
pub fn seal(key: u64, nonce: u64, plaintext: &Vec<u8>, associated_data: &Vec<u8>) -> (r: Vec<u8>)
    ensures
        r@ == spec_seal(key, nonce, associated_data@, plaintext@),
{
    let mut ct = xor_stream(key, nonce, plaintext);
    let t = compute_tag(key, nonce, associated_data, &ct);
    let mut tb = tag_bytes(t);
    ct.append(&mut tb);
    proof {
        assert(ct@ =~= spec_seal(key, nonce, associated_data@, plaintext@));
    }
    ct
}

/// Compares two byte sequences in constant time: the whole length is always
/// walked, with the differences folded into an accumulator, so the time taken
/// does not depend on the position of the first mismatch.
pub fn ct_bytes_eq(a: &Vec<u8>, b: &Vec<u8>) -> (r: bool)
    ensures
        r == (a@ == b@),
{
    if a.len() != b.len() {
        proof {
            assert(a@ != b@);
        }
        return false;
    }
    let mut diff: u8 = 0;
    let mut idx: usize = 0;
    while idx < a.len()
        invariant
            idx <= a@.len(),
            a@.len() == b@.len(),
            (diff == 0) <==> (forall|j: int| 0 <= j < idx ==> a@[j] == b@[j]),
        decreases a@.len() - idx,
    {
        let x = a[idx];
        let y = b[idx];
        let ghost old_diff = diff;
        diff = diff | (x ^ y);
        proof {
            assert((old_diff | (x ^ y) == 0) <==> (old_diff == 0 && x == y)) by (bit_vector);
        }
        idx = idx + 1;
    }
    if diff == 0 {
        proof {
            assert(a@ =~= b@);
        }
        true
    } else {
        proof {
            let j = choose|j: int| 0 <= j < a@.len() && a@[j] != b@[j];
            assert(a@[j] != b@[j]);
        }
        false
    }
}

/// Checks the authentication tag of `sealed` over `associated_data` under
/// `key` and `nonce` and recovers the plaintext. Succeeds exactly when the
/// buffer is at least tag-sized and its stored tag matches the tag recomputed
/// over its ciphertext part; any other buffer is rejected as
/// `DecryptionFailure`.
pub fn open(key: u64, nonce: u64, sealed: &Vec<u8>, associated_data: &Vec<u8>) -> (r: Result<
    Vec<u8>,
    SessionError,
>)
    ensures
        match r {
            Ok(pt) => spec_open(key, nonce, associated_data@, sealed@) == Some(pt@),
            Err(e) => spec_open(key, nonce, associated_data@, sealed@) is None && e
                == SessionError::DecryptionFailure,
        },
{
    if sealed.len() < 8 {
        return Err(SessionError::DecryptionFailure);
    }
    let ct_len = sealed.len() - 8;
    let mut ct: Vec<u8> = Vec::new();
    let mut idx: usize = 0;
    while idx < ct_len
        invariant
            idx <= ct_len,
            ct_len + 8 == sealed@.len(),
            ct@ =~= sealed@.subrange(0, idx as int),
        decreases ct_len - idx,
    {
        ct.push(sealed[idx]);
        idx = idx + 1;
        proof {
            assert(ct@ =~= sealed@.subrange(0, idx as int));
        }
    }
    let mut stored: Vec<u8> = Vec::new();
    let mut jdx: usize = ct_len;
    while jdx < sealed.len()
        invariant
            ct_len <= jdx <= sealed@.len(),
            ct_len + 8 == sealed@.len(),
            stored@ =~= sealed@.subrange(ct_len as int, jdx as int),
        decreases sealed@.len() - jdx,
    {
        stored.push(sealed[jdx]);
        jdx = jdx + 1;
        proof {
            assert(stored@ =~= sealed@.subrange(ct_len as int, jdx as int));
        }
    }
    let t = compute_tag(key, nonce, associated_data, &ct);
    let tb = tag_bytes(t);
    if ct_bytes_eq(&stored, &tb) {
        Ok(xor_stream(key, nonce, &ct))
    } else {
        Err(SessionError::DecryptionFailure)
    }
}

/// The count of authentication failures of one session against the abort
/// threshold: a failed frame or packet is dropped and counted, and once the
/// count passes the threshold the session is aborted as a likely attack or
/// desync.
#[derive(Clone, Copy, PartialEq, Eq, Debug, Structural)]
pub struct FailureMonitor {
    /// Authentication failures seen so far.
    pub failures: u64,
    /// Failures beyond this count abort the session.
    pub threshold: u64,
}

impl FailureMonitor {
    /// A fresh monitor with the given abort threshold.
    pub fn new(threshold: u64) -> (r: Self)
        ensures
            r.failures == 0,
            r.threshold == threshold,
    {
        FailureMonitor { failures: 0, threshold }
    }

    /// Counts one authentication failure and says whether the session is now
    /// to be aborted: true exactly when the new count exceeds the threshold.
    pub fn record_failure(&mut self) -> (abort: bool)
        requires
            old(self).failures < 0xffff_ffff_ffff_ffff,
        ensures
            final (self).failures == old(self).failures + 1,
            final (self).threshold == old(self).threshold,
            abort == (old(self).failures + 1 > old(self).threshold),
    {
        self.failures = self.failures + 1;
        self.failures > self.threshold
    }
}

/// One direction of the encrypted control channel: its key and the strictly
/// increasing nonce counter. The counter starts at zero and is reset only by
/// building a fresh direction when keys are re-derived.
#[derive(Clone, Copy, Debug)]
pub struct ControlDirection {
    /// The directional key.
    pub key: u64,
    /// The nonce the next frame will use.
    pub next_nonce: u64,
}

impl ControlDirection {
    /// A fresh direction under a newly derived key; the counter restarts.
    pub fn new(key: u64) -> (r: Self)
        ensures
            r.key == key,
            r.next_nonce == 0,
    {
        ControlDirection { key, next_nonce: 0 }
    }

    /// Seals one control frame under the next nonce and advances the
    /// counter, so no nonce is ever reused within the direction.
    pub fn seal_next(&mut self, plaintext: &Vec<u8>, associated_data: &Vec<u8>) -> (r: Vec<u8>)
        requires
            old(self).next_nonce < 0xffff_ffff_ffff_ffff,
        ensures
            r@ == spec_seal(old(self).key, old(self).next_nonce, associated_data@, plaintext@),
            final (self).key == old(self).key,
            final (self).next_nonce == old(self).next_nonce + 1,
    {
        let sealed = seal(self.key, self.next_nonce, plaintext, associated_data);
        self.next_nonce = self.next_nonce + 1;
        sealed
    }
}

/// Applying the keystream twice under the same key and nonce gives the
/// original bytes back.
proof fn lemma_xor_stream_involution(key: u64, nonce: u64, data: Seq<u8>)
    ensures
        spec_xor_stream(key, nonce, spec_xor_stream(key, nonce, data)) == data,
{
    let once = spec_xor_stream(key, nonce, data);
    let twice = spec_xor_stream(key, nonce, once);
    assert forall|j: int| 0 <= j < data.len() implies twice[j] == data[j] by {
        let d = data[j];
        let k = spec_keystream_byte(key, nonce, j as u64);
        assert((d ^ k) ^ k == d) by (bit_vector);
    }
    assert(twice =~= data);
}

/// Law: opening a sealed buffer with the same key, nonce and associated data
/// recovers the original plaintext exactly.
pub proof fn lemma_seal_open_roundtrip(key: u64, nonce: u64, ad: Seq<u8>, pt: Seq<u8>)
    ensures
        spec_open(key, nonce, ad, spec_seal(key, nonce, ad, pt)) == Some(pt),
{
    let ct = spec_xor_stream(key, nonce, pt);
    let tb = spec_tag_bytes(spec_tag(key, nonce, ad, ct));
    let buf = spec_seal(key, nonce, ad, pt);
    lemma_le_bytes_len(spec_tag(key, nonce, ad, ct) as nat, 8);
    assert(buf.len() == ct.len() + 8);
    assert(buf.subrange(0, buf.len() - 8) =~= ct);
    assert(buf.subrange(buf.len() - 8, buf.len() as int) =~= tb);
    lemma_xor_stream_involution(key, nonce, pt);
}

/// A nonzero shift below the modulus moves every residue.
proof fn lemma_shifted_mod_differs(base: int, d: int)
    requires
        0 < d < 0x1_0000_0000_0000_0000 || -0x1_0000_0000_0000_0000 < d < 0,
    ensures
        (base + d) % 0x1_0000_0000_0000_0000 != base % 0x1_0000_0000_0000_0000,
{
    let m: int = 0x1_0000_0000_0000_0000;
    lemma_mod_equivalence(base + d, base, m);
    if (base + d) % m == base % m {
        assert(d % m == 0);
        if d > 0 {
            lemma_small_mod(d as nat, m as nat);
        } else {
            lemma_mod_multiples_vanish(1, d, m);
            lemma_small_mod((d + m) as nat, m as nat);
        }
    }
}

/// Changing one ciphertext byte changes the tag: the weighted sum moves by a
/// nonzero amount smaller than the modulus.
proof fn lemma_tag_differs_on_ct_change(key: u64, nonce: u64, ad: Seq<u8>, ct: Seq<u8>, i: int, b: u8)
    requires
        0 <= i < ct.len(),
        b != ct[i],
    ensures
        spec_tag(key, nonce, ad, ct.update(i, b)) != spec_tag(key, nonce, ad, ct),
{
    let m: int = 0x1_0000_0000_0000_0000;
    let ct2 = ct.update(i, b);
    assert(ct2.len() == ct.len());
    lemma_wsum_update(ct, i, b);
    let d = (b - ct[i]) * spec_weight(i);
    assert(0 < d < 0x1_0000_0000_0000_0000 || -0x1_0000_0000_0000_0000 < d < 0)
        by (nonlinear_arith)
        requires
            d == (b - ct[i]) * spec_weight(i),
            b != ct[i],
            -255 <= b - ct[i] <= 255,
            1 <= spec_weight(i) < 0x2000000,
    ;
    let base = spec_mix(
        spec_mix(key, nonce),
        spec_mix((ad.len() % 0x1_0000_0000_0000_0000) as u64, (ct.len() % 0x1_0000_0000_0000_0000) as u64),
    );
    let with_ad = ((base as int + spec_wsum(ad)) % m) as u64;
    let rekeyed = spec_mix(with_ad, key);
    lemma_shifted_mod_differs(rekeyed as int + spec_wsum(ct), d);
    assert(spec_tag(key, nonce, ad, ct2) as int == (rekeyed as int + spec_wsum(ct) + d) % m);
    assert(spec_tag(key, nonce, ad, ct) as int == (rekeyed as int + spec_wsum(ct)) % m);
}

/// Law: a sealed buffer with any single byte changed — in the ciphertext or
/// in the tag — does not open.
#[verifier::rlimit(100)]
pub proof fn lemma_open_rejects_tamper(key: u64, nonce: u64, ad: Seq<u8>, pt: Seq<u8>, i: int, b: u8)
    requires
        0 <= i < spec_seal(key, nonce, ad, pt).len(),
        b != spec_seal(key, nonce, ad, pt)[i],
    ensures
        spec_open(key, nonce, ad, spec_seal(key, nonce, ad, pt).update(i, b)) is None,
{
    let ct = spec_xor_stream(key, nonce, pt);
    let t = spec_tag(key, nonce, ad, ct);
    let tb = spec_tag_bytes(t);
    let buf = spec_seal(key, nonce, ad, pt);
    let tampered = buf.update(i, b);
    lemma_le_bytes_len(t as nat, 8);
    assert(buf.len() == ct.len() + 8);
    assert(tampered.len() == buf.len());
    let ct2 = tampered.subrange(0, tampered.len() - 8);
    let stored2 = tampered.subrange(tampered.len() - 8, tampered.len() as int);
    if i < ct.len() {
        assert(ct2 =~= ct.update(i, b));
        assert(stored2 =~= tb);
        assert(buf[i] == ct[i]);
        lemma_tag_differs_on_ct_change(key, nonce, ad, ct, i, b);
        let t2 = spec_tag(key, nonce, ad, ct2);
        if spec_tag_bytes(t2) == tb {
            lemma_tag_bytes_injective(t2, t);
        }
        assert(stored2 != spec_tag_bytes(spec_tag(key, nonce, ad, ct2)));
    } else {
        assert(ct2 =~= ct);
        let k = i - ct.len();
        assert(stored2 =~= tb.update(k, b));
        assert(buf[i] == tb[k]);
        assert(stored2[k] != tb[k]);
        assert(stored2 != spec_tag_bytes(spec_tag(key, nonce, ad, ct2)));
    }
}

} // verus!

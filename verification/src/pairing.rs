//! Long-term key verification and ephemeral key exchange.
//!
//! First-time pairing records a long-term key derived from a password against
//! the peer's identity. A later verification reuses that key: each side draws
//! an ephemeral secret, publishes its group element, combines the peer's
//! element with its own secret into a shared secret, and the client proves
//! knowledge of the long-term key with an authentication tag over the
//! exchange transcript. The proof comparison walks every byte (no early
//! exit), so the time to reject does not depend on which byte was wrong. Both
//! sides of a completed exchange hold the same shared secret — exponentiation
//! in the group commutes — and therefore derive identical session keys.

use vstd::arithmetic::div_mod::{
    lemma_mul_mod_noop_general, lemma_small_mod,
};
use vstd::arithmetic::mul::{lemma_mul_is_associative, lemma_mul_is_commutative};
use vstd::arithmetic::power::{
    lemma_pow0, lemma_pow1, lemma_pow_adds, lemma_pow_mod_noop, lemma_pow_multiplies, pow,
};
use vstd::prelude::*;

use crate::crypto::{
    ct_bytes_eq, derive_session_keys, mix, spec_derive, spec_mix, spec_tag_bytes, tag_bytes,
    SessionKeys,
};
use crate::error::SessionError;

verus! {

/// The group modulus of the ephemeral exchange: the prime 2^61 - 1.
pub const GROUP_MODULUS: u64 = 0x1fff_ffff_ffff_ffff;

/// The group generator.
pub const GROUP_GENERATOR: u64 = 5;

/// `base` raised to `e`, reduced by the group modulus.
pub open spec fn spec_pow_mod(base: u64, e: nat) -> u64 {
    (pow(base as int, e) % (GROUP_MODULUS as int)) as u64
}

/// The product of two group elements fits a 128-bit word.
proof fn lemma_group_mul_fits(a: u64, b: u64)
    by (nonlinear_arith)
    requires
        a < GROUP_MODULUS,
        b < GROUP_MODULUS,
    ensures
        a as int * b as int <= 0xffff_ffff_ffff_ffff_ffff_ffff_ffff_ffff,
{
}

/// The product of two group elements, reduced by the group modulus.
fn mul_mod(a: u64, b: u64) -> (r: u64)
    requires
        a < GROUP_MODULUS,
        b < GROUP_MODULUS,
    ensures
        r as int == (a as int * b as int) % (GROUP_MODULUS as int),
        r < GROUP_MODULUS,
{
    proof {
        lemma_group_mul_fits(a, b);
    }
    let wide: u128 = (a as u128) * (b as u128);
    (wide % (GROUP_MODULUS as u128)) as u64
}

/// `base` raised to `e` by square and multiply, reduced by the group modulus.
pub fn pow_mod(base: u64, e: u64) -> (r: u64)
    requires
        base < GROUP_MODULUS,
    ensures
        r == spec_pow_mod(base, e as nat),
        r < GROUP_MODULUS,
{
    let ghost p: int = GROUP_MODULUS as int;
    let mut result: u64 = 1;
    let mut b: u64 = base;
    let mut exp: u64 = e;
    proof {
        lemma_pow1(base as int);
    }
    while exp > 0
        invariant
            result < GROUP_MODULUS,
            b < GROUP_MODULUS,
            (result as int * pow(b as int, exp as nat)) % p == pow(base as int, e as nat) % p,
            p == GROUP_MODULUS as int,
        decreases exp,
    {
        let ghost r0 = result as int;
        let ghost b0 = b as int;
        let ghost e0 = exp as nat;
        let ghost k = (exp / 2) as nat;
        proof {
            lemma_pow_adds(b0, 1, 1);
            lemma_pow1(b0);
            lemma_pow_multiplies(b0, 2, k);
            lemma_pow_mod_noop(b0 * b0, k, p);
            assert(2 * k == k * 2);
        }
        if exp % 2 == 1 {
            proof {
                lemma_pow_adds(b0, (2 * k) as nat, 1);
                // ((r0 * b0) % p) * pow((b0 * b0) % p, k) stays congruent to
                // r0 * pow(b0, e0).
                lemma_mul_mod_noop_general(r0 * b0, pow((b0 * b0) % p, k), p);
                lemma_mul_mod_noop_general(r0 * b0, pow(b0 * b0, k) % p, p);
                lemma_mul_mod_noop_general(r0 * b0, pow(b0 * b0, k), p);
                lemma_mul_is_associative(r0, b0, pow(b0, (2 * k) as nat));
                lemma_mul_is_commutative(b0, pow(b0, (2 * k) as nat));
                assert((r0 * b0) * pow(b0, (2 * k) as nat) == r0 * pow(b0, e0));
            }
            result = mul_mod(result, b);
        } else {
            proof {
                lemma_mul_mod_noop_general(r0, pow((b0 * b0) % p, k), p);
                lemma_mul_mod_noop_general(r0, pow(b0 * b0, k) % p, p);
                lemma_mul_mod_noop_general(r0, pow(b0 * b0, k), p);
            }
        }
        b = mul_mod(b, b);
        exp = exp / 2;
        proof {
            lemma_mul_mod_noop_general(result as int, pow(b as int, exp as nat), p);
        }
    }
    proof {
        lemma_pow0(b as int);
        lemma_small_mod(result as nat, GROUP_MODULUS as nat);
    }
    result
}

/// Law: the exchange commutes — combining the peer's public element with the
/// own secret yields the same group element on both sides:
/// `(g^a)^b == (g^b)^a` in the group.
pub proof fn lemma_shared_secret_agreement(a: u64, b: u64)
    ensures
        spec_pow_mod(spec_pow_mod(GROUP_GENERATOR, a as nat), b as nat) == spec_pow_mod(
            spec_pow_mod(GROUP_GENERATOR, b as nat),
            a as nat,
        ),
{
    let g = GROUP_GENERATOR as int;
    let p = GROUP_MODULUS as int;
    lemma_pow_mod_noop(pow(g, a as nat), b as nat, p);
    lemma_pow_mod_noop(pow(g, b as nat), a as nat, p);
    lemma_pow_multiplies(g, a as nat, b as nat);
    lemma_pow_multiplies(g, b as nat, a as nat);
    lemma_mul_is_commutative(a as int, b as int);
}

/// Law: two sides that complete the exchange against each other derive
/// identical session keys.
pub proof fn lemma_pairing_derives_identical_keys(a: u64, b: u64)
    ensures
        spec_derive(spec_pow_mod(spec_pow_mod(GROUP_GENERATOR, b as nat), a as nat)) == spec_derive(
            spec_pow_mod(spec_pow_mod(GROUP_GENERATOR, a as nat), b as nat),
        ),
{
    lemma_shared_secret_agreement(a, b);
}

/// The long-term key derived from a pairing password.
pub open spec fn spec_long_term_key(password: Seq<u8>) -> u64
    decreases password.len(),
{
    if password.len() == 0 {
        0x70616972
    } else {
        spec_mix(spec_long_term_key(password.drop_last()), password.last() as u64)
    }
}

/// Derives the long-term key recorded at first-time pairing from the
/// password.
pub fn long_term_key_from_password(password: &Vec<u8>) -> (r: u64)
    ensures
        r == spec_long_term_key(password@),
{
    let mut acc: u64 = 0x70616972;
    let mut idx: usize = 0;
    proof {
        assert(password@.subrange(0, 0) =~= Seq::<u8>::empty());
    }
    while idx < password.len()
        invariant
            idx <= password@.len(),
            acc == spec_long_term_key(password@.subrange(0, idx as int)),
        decreases password@.len() - idx,
    {
        let b = password[idx];
        proof {
            let p = password@.subrange(0, idx as int + 1);
            assert(p.drop_last() =~= password@.subrange(0, idx as int));
            assert(p.last() == password@[idx as int]);
        }
        acc = mix(acc, b as u64);
        idx = idx + 1;
    }
    proof {
        assert(password@.subrange(0, password@.len() as int) =~= password@);
    }
    acc
}

/// The proof a client presents to complete verification: the tag over the
/// exchange transcript under the long-term key.
pub open spec fn spec_pairing_proof(ltk: u64, client_public: u64, server_public: u64) -> Seq<u8> {
    spec_tag_bytes(spec_mix(spec_mix(ltk, client_public), server_public))
}

/// Computes the transcript proof for the client role.
pub fn pairing_proof(ltk: u64, client_public: u64, server_public: u64) -> (r: Vec<u8>)
    ensures
        r@ == spec_pairing_proof(ltk, client_public, server_public),
{
    tag_bytes(mix(mix(ltk, client_public), server_public))
}

/// Entries have pairwise distinct peer identifiers.
pub open spec fn spec_peers_unique(entries: Seq<(u64, u64)>) -> bool {
    forall|i: int, j: int|
        0 <= i < j < entries.len() ==> (#[trigger] entries[i]).0 != (#[trigger] entries[j]).0
}

/// The key recorded for a peer, if any entry carries its identifier.
pub open spec fn spec_registry_key(entries: Seq<(u64, u64)>, peer: u64) -> Option<u64> {
    if exists|i: int| 0 <= i < entries.len() && (#[trigger] entries[i]).0 == peer {
        let i = choose|i: int| 0 <= i < entries.len() && (#[trigger] entries[i]).0 == peer;
        Some(entries[i].1)
    } else {
        None
    }
}

/// With unique peers, the entry at any matching position is the recorded key.
proof fn lemma_registry_key_at(entries: Seq<(u64, u64)>, peer: u64, i: int)
    requires
        spec_peers_unique(entries),
        0 <= i < entries.len(),
        entries[i].0 == peer,
    ensures
        spec_registry_key(entries, peer) == Some(entries[i].1),
{
    let j = choose|j: int| 0 <= j < entries.len() && (#[trigger] entries[j]).0 == peer;
    if i != j {
        assert(entries[i].0 != entries[j].0);
    }
}

/// The long-term keys recorded at first-time pairing, one per peer
/// identifier. Pairing a peer again supersedes its recorded key.
#[derive(Clone, Debug)]
pub struct PairingRegistry {
    /// The recorded (peer identifier, long-term key) entries.
    pub entries: Vec<(u64, u64)>,
}

impl PairingRegistry {
    /// At most one entry per peer identifier.
    pub open spec fn wf(&self) -> bool {
        spec_peers_unique(self.entries@)
    }

    /// The key recorded for a peer.
    pub open spec fn spec_key_of(&self, peer: u64) -> Option<u64> {
        spec_registry_key(self.entries@, peer)
    }

    /// An empty registry.
    pub fn new() -> (r: Self)
        ensures
            r.wf(),
            forall|peer: u64| r.spec_key_of(peer) is None,
    {
        PairingRegistry { entries: Vec::new() }
    }

    /// The position of a peer's entry, if it has one.
    fn find(&self, peer: u64) -> (r: Option<usize>)
        ensures
            match r {
                Some(i) => i < self.entries@.len() && self.entries@[i as int].0 == peer,
                None => forall|k: int|
                    0 <= k < self.entries@.len() ==> (#[trigger] self.entries@[k]).0 != peer,
            },
    {
        let mut idx: usize = 0;
        while idx < self.entries.len()
            invariant
                idx <= self.entries@.len(),
                forall|k: int| 0 <= k < idx ==> (#[trigger] self.entries@[k]).0 != peer,
            decreases self.entries@.len() - idx,
        {
            if self.entries[idx].0 == peer {
                return Some(idx);
            }
            idx = idx + 1;
        }
        None
    }

    /// The key recorded for a peer, if any.
    pub fn lookup(&self, peer: u64) -> (r: Option<u64>)
        requires
            self.wf(),
        ensures
            r == self.spec_key_of(peer),
    {
        match self.find(peer) {
            Some(i) => {
                proof {
                    lemma_registry_key_at(self.entries@, peer, i as int);
                }
                Some(self.entries[i].1)
            },
            None => {
                proof {
                    if self.spec_key_of(peer) is Some {
                        let j = choose|j: int|
                            0 <= j < self.entries@.len() && (#[trigger] self.entries@[j]).0 == peer;
                        assert(self.entries@[j].0 != peer);
                    }
                }
                None
            },
        }
    }

    /// Records the long-term key produced by a first-time pairing with a
    /// peer. A fresh pairing supersedes whatever key the peer had recorded;
    /// every other peer's key is untouched.
    pub fn register(&mut self, peer: u64, ltk: u64)
        requires
            old(self).wf(),
        ensures
            final (self).wf(),
            final (self).spec_key_of(peer) == Some(ltk),
            forall|q: u64| q != peer ==> final (self).spec_key_of(q) == old(self).spec_key_of(q),
    {
        let ghost old_entries = self.entries@;
        match self.find(peer) {
            Some(i) => {
                self.entries.remove(i);
                self.entries.insert(i, (peer, ltk));
                proof {
                    assert(self.entries@ =~= old_entries.update(i as int, (peer, ltk)));
                    assert forall|a: int, b: int|
                        0 <= a < b < self.entries@.len() implies (#[trigger] self.entries@[a]).0
                        != (#[trigger] self.entries@[b]).0 by {
                        assert(self.entries@[a].0 == old_entries[a].0);
                        assert(self.entries@[b].0 == old_entries[b].0);
                    }
                    lemma_registry_key_at(self.entries@, peer, i as int);
                }
            },
            None => {
                self.entries.push((peer, ltk));
                proof {
                    assert forall|a: int, b: int|
                        0 <= a < b < self.entries@.len() implies (#[trigger] self.entries@[a]).0
                        != (#[trigger] self.entries@[b]).0 by {
                        if b < old_entries.len() {
                            assert(old_entries[a].0 != old_entries[b].0);
                        } else {
                            assert(old_entries[a].0 != peer);
                        }
                    }
                    lemma_registry_key_at(self.entries@, peer, self.entries@.len() - 1);
                }
            },
        }
        proof {
            assert forall|q: u64| q != peer implies self.spec_key_of(q) == spec_registry_key(
                old_entries,
                q,
            ) by {
                let new_entries = self.entries@;
                if exists|k: int| 0 <= k < new_entries.len() && (#[trigger] new_entries[k]).0 == q {
                    let k = choose|k: int|
                        0 <= k < new_entries.len() && (#[trigger] new_entries[k]).0 == q;
                    assert(old_entries[k].0 == q && old_entries[k].1 == new_entries[k].1);
                    lemma_registry_key_at(old_entries, q, k);
                } else {
                    if exists|k: int| 0 <= k < old_entries.len() && (#[trigger] old_entries[k]).0
                        == q {
                        let k = choose|k: int|
                            0 <= k < old_entries.len() && (#[trigger] old_entries[k]).0 == q;
                        assert(new_entries[k].0 == q);
                    }
                }
            }
        }
    }
}

/// Law: a transcript proof with any single byte changed is not the expected
/// proof; presenting it therefore completes verification with
/// `AuthenticationError`, never with success.
pub proof fn lemma_tampered_proof_differs(
    ltk: u64,
    client_public: u64,
    server_public: u64,
    i: int,
    b: u8,
)
    requires
        0 <= i < spec_pairing_proof(ltk, client_public, server_public).len(),
        b != spec_pairing_proof(ltk, client_public, server_public)[i],
    ensures
        spec_pairing_proof(ltk, client_public, server_public).update(i, b) != spec_pairing_proof(
            ltk,
            client_public,
            server_public,
        ),
{
    let p = spec_pairing_proof(ltk, client_public, server_public);
    assert(p.update(i, b)[i] == b);
}

/// The exchange state of one pairing attempt.
#[derive(Clone, Copy, PartialEq, Eq, Debug, Structural)]
pub enum PairingState {
    /// No exchange message received yet.
    NotStarted,
    /// The peer's public element is held; the transcript proof is awaited.
    VerifyPending,
    /// The proof checked out; the shared secret is established.
    Verified,
    /// The exchange failed; the attempt is dead.
    Failed,
}

/// One pairing attempt with one peer, owned by the connection handling it.
#[derive(Clone, Debug)]
pub struct PairingSession {
    /// Exchange state.
    pub state: PairingState,
    /// The long-term key recorded for the peer.
    pub ltk: u64,
    /// The own ephemeral secret.
    pub own_secret: u64,
    /// The own ephemeral public element.
    pub own_public: u64,
    /// The peer's claimed public element, once received.
    pub peer_public: Option<u64>,
    /// The shared secret, once the exchange completes.
    pub shared: Option<u64>,
}

impl PairingSession {
    /// A session is well formed: while a proof is awaited, the peer's element
    /// and the shared secret are held.
    pub open spec fn wf(&self) -> bool {
        self.state is VerifyPending ==> (self.peer_public is Some && self.shared is Some)
    }

    /// Opens a fresh attempt for a peer whose long-term key is `ltk`, with a
    /// caller-drawn ephemeral secret.
    pub fn new(ltk: u64, own_secret: u64) -> (r: Self)
        ensures
            r.wf(),
            r.state is NotStarted,
            r.ltk == ltk,
            r.own_secret == own_secret,
            r.own_public == spec_pow_mod(GROUP_GENERATOR, own_secret as nat),
            r.peer_public is None,
            r.shared is None,
    {
        let own_public = pow_mod(GROUP_GENERATOR, own_secret);
        PairingSession {
            state: PairingState::NotStarted,
            ltk,
            own_secret,
            own_public,
            peer_public: None,
            shared: None,
        }
    }

    /// Accepts the peer's ephemeral public element and answers with the own
    /// one. A fresh exchange message supersedes whatever attempt was in
    /// flight: the shared secret is recomputed and the state reset to
    /// awaiting the proof. A value outside the group is a malformed exchange
    /// message: the attempt fails with `ProtocolError`.
    pub fn begin_verify(&mut self, peer_public: u64) -> (r: Result<u64, SessionError>)
        requires
            old(self).wf(),
        ensures
            final (self).wf(),
            final (self).ltk == old(self).ltk,
            final (self).own_secret == old(self).own_secret,
            final (self).own_public == old(self).own_public,
            peer_public < GROUP_MODULUS ==> r == Ok::<u64, SessionError>(old(self).own_public)
                && final (self).state is VerifyPending && final (self).peer_public == Some(
                peer_public,
            ) && final (self).shared == Some(
                spec_pow_mod(peer_public, old(self).own_secret as nat),
            ),
            peer_public >= GROUP_MODULUS ==> r == Err::<u64, SessionError>(
                SessionError::ProtocolError,
            ) && final (self).state is Failed && final (self).peer_public == old(self).peer_public
                && final (self).shared == old(self).shared,
    {
        if peer_public >= GROUP_MODULUS {
            self.state = PairingState::Failed;
            return Err(SessionError::ProtocolError);
        }
        let shared = pow_mod(peer_public, self.own_secret);
        self.peer_public = Some(peer_public);
        self.shared = Some(shared);
        self.state = PairingState::VerifyPending;
        Ok(self.own_public)
    }

    /// Checks the client's transcript proof and derives the session keys.
    /// Succeeds exactly when a proof is awaited and the presented bytes equal
    /// the transcript proof under the recorded long-term key; any other proof
    /// — a single flipped bit included — fails with `AuthenticationError` and
    /// kills the attempt. Out of order, the call is a malformed exchange and
    /// fails with `ProtocolError`. The comparison walks all bytes either way.
    pub fn complete_verify(&mut self, proof_bytes: &Vec<u8>) -> (r: Result<
        SessionKeys,
        SessionError,
    >)
        requires
            old(self).wf(),
        ensures
            final (self).wf(),
            final (self).ltk == old(self).ltk,
            final (self).own_secret == old(self).own_secret,
            final (self).own_public == old(self).own_public,
            final (self).peer_public == old(self).peer_public,
            final (self).shared == old(self).shared,
            match r {
                Ok(keys) => {
                    &&& old(self).state is VerifyPending
                    &&& old(self).peer_public matches Some(pp) && proof_bytes@
                        == spec_pairing_proof(old(self).ltk, pp, old(self).own_public)
                    &&& old(self).shared matches Some(s) && keys == spec_derive(s)
                    &&& final (self).state is Verified
                },
                Err(e) => {
                    &&& final (self).state is Failed
                    &&& (e == SessionError::ProtocolError || e == SessionError::AuthenticationError)
                },
            },
            old(self).state is VerifyPending && (old(self).peer_public matches Some(pp)
                && proof_bytes@ == spec_pairing_proof(old(self).ltk, pp, old(self).own_public))
                ==> r is Ok,
            old(self).state is VerifyPending && (old(self).peer_public matches Some(pp)
                && proof_bytes@ != spec_pairing_proof(old(self).ltk, pp, old(self).own_public))
                ==> r == Err::<SessionKeys, SessionError>(SessionError::AuthenticationError),
            !(old(self).state is VerifyPending) ==> r == Err::<SessionKeys, SessionError>(
                SessionError::ProtocolError,
            ),
    {
        let pending = matches!(self.state, PairingState::VerifyPending);
        if !pending {
            self.state = PairingState::Failed;
            return Err(SessionError::ProtocolError);
        }
        let (peer_public, shared): (u64, u64) = match (self.peer_public, self.shared) {
            (Some(pp), Some(s)) => (pp, s),
            _ => {
                self.state = PairingState::Failed;
                return Err(SessionError::ProtocolError);
            },
        };
        let expected = pairing_proof(self.ltk, peer_public, self.own_public);
        if ct_bytes_eq(proof_bytes, &expected) {
            self.state = PairingState::Verified;
            Ok(derive_session_keys(shared))
        } else {
            self.state = PairingState::Failed;
            Err(SessionError::AuthenticationError)
        }
    }
}

} // verus!

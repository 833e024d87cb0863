//! Feature and status flag bitsets advertised by the receiver.
//!
//! Feature flags are a 64-bit capability bitset; each documented capability
//! sits at a fixed bit position. Status flags are an 8-bit-aligned bitset of
//! the receiver's current state. Both render as hexadecimal tokens for
//! protocol responses: values that fit in 32 bits as a single token, larger
//! values as two comma-separated 32-bit tokens, low half first.

use vstd::prelude::*;
use vstd::string::StringExecFns;

use crate::hex::{hex_token_u64, spec_hex_token};

verus! {

/// Bit 9: audio streaming support.
pub const AIRPLAY_AUDIO: u64 = 0x200;

/// Bit 14: software FairPlay authentication.
pub const MFI_SOFT_FAIRPLAY: u64 = 0x4000;

/// Bit 16: audio metadata with progress.
pub const AUDIO_META_PROGRESS: u64 = 0x1_0000;

/// Bit 17: audio metadata text (DAAP).
pub const AUDIO_META_TXT_DAAP: u64 = 0x2_0000;

/// Bit 18: receive audio in PCM format.
pub const RECEIVE_AUDIO_PCM: u64 = 0x4_0000;

/// Bit 19: receive audio in ALAC format.
pub const RECEIVE_AUDIO_ALAC: u64 = 0x8_0000;

/// Bit 20: receive audio in AAC-LC format.
pub const RECEIVE_AUDIO_AAC_LC: u64 = 0x10_0000;

/// Bit 22: support unencrypted audio.
pub const AUDIO_UNENCRYPTED: u64 = 0x40_0000;

/// Bit 30: unified advertising info; set on second-generation receivers.
pub const UNIFIED_ADVERTISING_INFO: u64 = 0x4000_0000;

/// Bit 40: buffered audio streaming.
pub const BUFFERED_AUDIO: u64 = 0x100_0000_0000;

/// Bit 41: PTP clock synchronization.
pub const PTP_CLOCK: u64 = 0x200_0000_0000;

/// Bit 46: HomeKit pairing support.
pub const HOMEKIT_PAIRING: u64 = 0x4000_0000_0000;

/// Bit 47: peer management.
pub const PEER_MANAGEMENT: u64 = 0x8000_0000_0000;

/// Bit 48: transient pairing (guest mode).
pub const TRANSIENT_PAIRING: u64 = 0x1_0000_0000_0000;

/// Bit 0: reserved.
pub const FT00_RESERVED: u64 = 0x1;

/// Bit 52: reserved (set-peers extension).
pub const FT52_RESERVED: u64 = 0x10_0000_0000_0000;

/// The full capability bitset of a second-generation receiver.
pub const DEFAULT_FEATURES: u64 = 0x0001_c300_405f_4200;

/// The capability bitset of a minimal audio-only receiver.
pub const MINIMAL_FEATURES: u64 = 0x5c_4200;

/// Bit 0 of the status bitset: a receiving session is active.
pub const RECV_SESS_ACTIVE: u32 = 0x1;

/// Bit 1 of the status bitset: HomeKit access control is enabled.
pub const HKAC_FLAG: u32 = 0x2;

/// Bit 2 of the status bitset: password protection is enabled.
pub const PW_SET_FLAG: u32 = 0x4;

/// Whether every bit set in `mask` is also set in `bits`.
pub open spec fn spec_contains_bits(bits: u64, mask: u64) -> bool {
    bits & mask == mask
}

/// How a 64-bit flag value renders as text: one hexadecimal token when the
/// value fits in 32 bits, otherwise the low and high 32-bit halves as two
/// comma-separated tokens, low half first.
pub open spec fn spec_flags_hex(bits: u64) -> Seq<char> {
    if bits <= 0xffff_ffff {
        spec_hex_token(bits as nat)
    } else {
        spec_hex_token((bits as nat) % 0x1_0000_0000) + seq![','] + spec_hex_token(
            (bits as nat) / 0x1_0000_0000,
        )
    }
}

/// The 64-bit feature bitset a receiver advertises.
#[derive(Clone, Copy, PartialEq, Eq, Hash, Debug, Structural)]
pub struct FeatureFlags {
    /// The raw bit value.
    pub bits: u64,
}

impl FeatureFlags {
    /// The empty feature set.
    pub fn empty() -> (r: Self)
        ensures
            r.bits == 0,
    {
        FeatureFlags { bits: 0 }
    }

    /// The feature set with exactly the given bits.
    pub fn from_bits(bits: u64) -> (r: Self)
        ensures
            r.bits == bits,
    {
        FeatureFlags { bits }
    }

    /// The raw bit value.
    pub fn bits(&self) -> (r: u64)
        ensures
            r == self.bits,
    {
        self.bits
    }

    /// Whether every capability in `other` is present in `self`.
    pub fn contains(&self, other: Self) -> (r: bool)
        ensures
            r == spec_contains_bits(self.bits, other.bits),
    {
        self.bits & other.bits == other.bits
    }

    /// The union of two feature sets.
    pub fn union(self, other: Self) -> (r: Self)
        ensures
            r.bits == self.bits | other.bits,
    {
        FeatureFlags { bits: self.bits | other.bits }
    }

    /// Adds the capabilities of `other` to `self`.
    pub fn insert(&mut self, other: Self)
        ensures
            final (self).bits == old(self).bits | other.bits,
    {
        self.bits = self.bits | other.bits;
    }

    /// Removes the capabilities of `other` from `self`.
    pub fn remove(&mut self, other: Self)
        ensures
            final (self).bits == old(self).bits & !other.bits,
    {
        self.bits = self.bits & !other.bits;
    }

    /// The standard feature set of a fully-featured second-generation
    /// receiver: audio in all three formats, metadata, unencrypted audio,
    /// unified advertising, buffered audio with PTP, and the three pairing
    /// capabilities.
    pub fn default_airplay2() -> (r: Self)
        ensures
            r.bits == DEFAULT_FEATURES,
    {
        let bits = AIRPLAY_AUDIO | MFI_SOFT_FAIRPLAY | AUDIO_META_PROGRESS | AUDIO_META_TXT_DAAP
            | RECEIVE_AUDIO_PCM | RECEIVE_AUDIO_ALAC | RECEIVE_AUDIO_AAC_LC | AUDIO_UNENCRYPTED
            | UNIFIED_ADVERTISING_INFO | BUFFERED_AUDIO | PTP_CLOCK | HOMEKIT_PAIRING
            | PEER_MANAGEMENT | TRANSIENT_PAIRING;
        proof {
            assert(AIRPLAY_AUDIO | MFI_SOFT_FAIRPLAY | AUDIO_META_PROGRESS | AUDIO_META_TXT_DAAP
                | RECEIVE_AUDIO_PCM | RECEIVE_AUDIO_ALAC | RECEIVE_AUDIO_AAC_LC | AUDIO_UNENCRYPTED
                | UNIFIED_ADVERTISING_INFO | BUFFERED_AUDIO | PTP_CLOCK | HOMEKIT_PAIRING
                | PEER_MANAGEMENT | TRANSIENT_PAIRING == DEFAULT_FEATURES) by (bit_vector);
        }
        FeatureFlags { bits }
    }

    /// The minimal feature set for plain audio streaming: audio in all three
    /// formats, software FairPlay, and unencrypted audio, without pairing or
    /// buffered streaming.
    pub fn minimal_audio() -> (r: Self)
        ensures
            r.bits == MINIMAL_FEATURES,
    {
        let bits = AIRPLAY_AUDIO | MFI_SOFT_FAIRPLAY | RECEIVE_AUDIO_PCM | RECEIVE_AUDIO_ALAC
            | RECEIVE_AUDIO_AAC_LC | AUDIO_UNENCRYPTED;
        proof {
            assert(AIRPLAY_AUDIO | MFI_SOFT_FAIRPLAY | RECEIVE_AUDIO_PCM | RECEIVE_AUDIO_ALAC
                | RECEIVE_AUDIO_AAC_LC | AUDIO_UNENCRYPTED == MINIMAL_FEATURES) by (bit_vector);
        }
        FeatureFlags { bits }
    }

    /// Renders the feature bits for protocol responses: one hexadecimal token
    /// when the value fits in 32 bits, otherwise the low and high halves as
    /// two comma-separated tokens, low half first.
    pub fn to_hex_string(&self) -> (r: String)
        ensures
            r@ == spec_flags_hex(self.bits),
    {
        let bits = self.bits;
        if bits <= 0xffff_ffff {
            hex_token_u64(bits)
        } else {
            let low = bits & 0xffff_ffff;
            let high = bits >> 32;
            proof {
                assert(bits & 0xffff_ffff == (bits as nat % 0x1_0000_0000) as u64) by (bit_vector);
                assert(bits >> 32 == (bits as nat / 0x1_0000_0000) as u64) by (bit_vector);
                reveal_strlit(",");
            }
            let mut s = hex_token_u64(low);
            s.append(",");
            let high_token = hex_token_u64(high);
            s.append(high_token.as_str());
            proof {
                assert(s@ =~= spec_flags_hex(bits));
            }
            s
        }
    }

    /// Whether this is a second-generation configuration: true exactly when
    /// the unified advertising capability is present.
    pub fn is_airplay2(&self) -> (r: bool)
        ensures
            r == spec_contains_bits(self.bits, UNIFIED_ADVERTISING_INFO),
    {
        self.contains(FeatureFlags { bits: UNIFIED_ADVERTISING_INFO })
    }

    /// Whether buffered audio streaming is available: true exactly when both
    /// the buffered-audio and the PTP-clock capabilities are present.
    pub fn supports_buffered_audio(&self) -> (r: bool)
        ensures
            r == (spec_contains_bits(self.bits, BUFFERED_AUDIO) && spec_contains_bits(
                self.bits,
                PTP_CLOCK,
            )),
    {
        self.contains(FeatureFlags { bits: BUFFERED_AUDIO }) && self.contains(
            FeatureFlags { bits: PTP_CLOCK },
        )
    }

    /// Whether HomeKit pairing is available.
    pub fn supports_homekit(&self) -> (r: bool)
        ensures
            r == spec_contains_bits(self.bits, HOMEKIT_PAIRING),
    {
        self.contains(FeatureFlags { bits: HOMEKIT_PAIRING })
    }
}

/// The 32-bit status bitset a receiver advertises.
#[derive(Clone, Copy, PartialEq, Eq, Debug, Structural)]
pub struct StatusFlags {
    /// The raw bit value.
    pub bits: u32,
}

impl StatusFlags {
    /// The empty status set.
    pub fn empty() -> (r: Self)
        ensures
            r.bits == 0,
    {
        StatusFlags { bits: 0 }
    }

    /// The status set with exactly the given bits.
    pub fn from_bits(bits: u32) -> (r: Self)
        ensures
            r.bits == bits,
    {
        StatusFlags { bits }
    }

    /// The raw bit value.
    pub fn bits(&self) -> (r: u32)
        ensures
            r == self.bits,
    {
        self.bits
    }

    /// Whether every bit of `other` is set in `self`.
    pub fn contains(&self, other: Self) -> (r: bool)
        ensures
            r == (self.bits & other.bits == other.bits),
    {
        self.bits & other.bits == other.bits
    }

    /// The union of two status sets.
    pub fn union(self, other: Self) -> (r: Self)
        ensures
            r.bits == self.bits | other.bits,
    {
        StatusFlags { bits: self.bits | other.bits }
    }

    /// Renders the status bits as a single hexadecimal token.
    pub fn to_hex_string(&self) -> (r: String)
        ensures
            r@ == spec_hex_token(self.bits as nat),
    {
        hex_token_u64(self.bits as u64)
    }
}

} // verus!

//! The control-plane state machine.
//!
//! One session walks `Idle → Paired → Described → Configured → Streaming →
//! TornDown`, with an absorbing `Error` state for unrecoverable protocol
//! violations. Each parsed request either moves the session along that chain
//! or is rejected: a request out of order with `InvalidState` and no change
//! of state, an unsupported codec with `UnsupportedMedia` and no change of
//! state, a malformed request with `ProtocolError` and the session moved to
//! `Error`. The whole transition relation is the spec function
//! `spec_transition`; the executable handler is proved to follow it exactly.

use vstd::prelude::*;

use crate::crypto::SessionKeys;
use crate::error::SessionError;
use crate::flags::{
    FeatureFlags, RECEIVE_AUDIO_AAC_LC, RECEIVE_AUDIO_ALAC, RECEIVE_AUDIO_PCM, spec_contains_bits,
};

verus! {

/// The control-plane state of one session.
#[derive(Clone, Copy, PartialEq, Eq, Debug, Structural)]
pub enum SessionState {
    /// Nothing negotiated yet.
    Idle,
    /// Pairing completed; session keys are in place.
    Paired,
    /// A session description was accepted.
    Described,
    /// Transport is set up.
    Configured,
    /// Audio is streaming.
    Streaming,
    /// The session was torn down and its resources released.
    TornDown,
    /// Absorbing state after an unrecoverable protocol violation.
    Error,
}

/// A negotiable audio codec.
#[derive(Clone, Copy, PartialEq, Eq, Debug, Structural)]
pub enum CodecKind {
    /// Uncompressed PCM.
    Pcm,
    /// Apple Lossless.
    Alac,
    /// AAC low complexity.
    AacLc,
}

/// One parsed control request.
#[derive(Clone, Copy, PartialEq, Eq, Debug, Structural)]
pub enum ControlRequest {
    /// The pairing engine reported a verified exchange.
    PairingComplete,
    /// The client presents a session description.
    Describe { codec: CodecKind, sample_rate: u32 },
    /// The client requests transport setup on a port.
    SetupTransport { port: u16 },
    /// The client starts the stream at a media timestamp.
    Record { start_timestamp: u32 },
    /// The client tears the session down.
    Teardown,
    /// The request could not be parsed.
    Malformed,
}

/// The response to one accepted control request.
#[derive(Clone, Copy, PartialEq, Eq, Debug, Structural)]
pub enum ControlResponse {
    /// Pairing acknowledged.
    Paired,
    /// The description was accepted.
    Described,
    /// Transport is bound to the given port.
    Configured { port: u16 },
    /// Streaming starts at the given media timestamp.
    Started { start_timestamp: u32 },
    /// The session is torn down.
    TornDown,
}

/// One active client session: identity, state, negotiated descriptors and
/// key material. Mutated only by `handle_request`.
#[derive(Clone, Copy, Debug)]
pub struct ControlSession {
    /// Session identifier.
    pub session_id: u64,
    /// Current state.
    pub state: SessionState,
    /// The receiver's capability bitset the description is validated against.
    pub features: FeatureFlags,
    /// Negotiated codec, once described.
    pub codec: Option<CodecKind>,
    /// Negotiated sample rate, once described.
    pub sample_rate: Option<u32>,
    /// Negotiated transport port, once configured.
    pub port: Option<u16>,
    /// Session keys, dropped at teardown.
    pub keys: Option<SessionKeys>,
}

/// Whether the capability bitset admits the codec.
pub open spec fn spec_codec_supported(features: u64, codec: CodecKind) -> bool {
    match codec {
        CodecKind::Pcm => spec_contains_bits(features, RECEIVE_AUDIO_PCM),
        CodecKind::Alac => spec_contains_bits(features, RECEIVE_AUDIO_ALAC),
        CodecKind::AacLc => spec_contains_bits(features, RECEIVE_AUDIO_AAC_LC),
    }
}

/// Whether a request is permitted in a state. Each well-formed request is
/// permitted in exactly one state of the negotiation chain.
pub open spec fn spec_request_allowed(state: SessionState, req: ControlRequest) -> bool {
    match req {
        ControlRequest::PairingComplete => state is Idle,
        ControlRequest::Describe { .. } => state is Paired,
        ControlRequest::SetupTransport { .. } => state is Described,
        ControlRequest::Record { .. } => state is Configured,
        ControlRequest::Teardown => state is Streaming,
        ControlRequest::Malformed => false,
    }
}

/// The full transition relation of the state machine: the session after the
/// request and the response or error it produces.
///
/// - A malformed request moves the session to `Error` and fails with
///   `ProtocolError`.
/// - A request not permitted in the current state fails with `InvalidState`
///   and changes nothing.
/// - A description with a codec the capability bitset does not admit fails
///   with `UnsupportedMedia` and changes nothing; the client may retry.
/// - Every other permitted request advances the chain and records what it
///   negotiated; teardown clears the descriptors and drops the key material.
pub open spec fn spec_transition(s: ControlSession, req: ControlRequest) -> (
    ControlSession,
    Result<ControlResponse, SessionError>,
) {
    if req is Malformed {
        (
            ControlSession { state: SessionState::Error, ..s },
            Err(SessionError::ProtocolError),
        )
    } else if !spec_request_allowed(s.state, req) {
        (s, Err(SessionError::InvalidState))
    } else {
        match req {
            ControlRequest::PairingComplete => (
                ControlSession { state: SessionState::Paired, ..s },
                Ok(ControlResponse::Paired),
            ),
            ControlRequest::Describe { codec, sample_rate } => {
                if spec_codec_supported(s.features.bits, codec) {
                    (
                        ControlSession {
                            state: SessionState::Described,
                            codec: Some(codec),
                            sample_rate: Some(sample_rate),
                            ..s
                        },
                        Ok(ControlResponse::Described),
                    )
                } else {
                    (s, Err(SessionError::UnsupportedMedia))
                }
            },
            ControlRequest::SetupTransport { port } => (
                ControlSession { state: SessionState::Configured, port: Some(port), ..s },
                Ok(ControlResponse::Configured { port }),
            ),
            ControlRequest::Record { start_timestamp } => (
                ControlSession { state: SessionState::Streaming, ..s },
                Ok(ControlResponse::Started { start_timestamp }),
            ),
            ControlRequest::Teardown => (
                ControlSession {
                    state: SessionState::TornDown,
                    codec: None,
                    sample_rate: None,
                    port: None,
                    keys: None,
                    ..s
                },
                Ok(ControlResponse::TornDown),
            ),
            ControlRequest::Malformed => (s, Err(SessionError::ProtocolError)),
        }
    }
}

impl ControlSession {
    /// Opens a session in `Idle` with the receiver's capabilities and the
    /// keys the pairing engine derived.
    pub fn new(session_id: u64, features: FeatureFlags, keys: SessionKeys) -> (r: Self)
        ensures
            r.session_id == session_id,
            r.state is Idle,
            r.features == features,
            r.codec is None,
            r.sample_rate is None,
            r.port is None,
            r.keys == Some(keys),
    {
        ControlSession {
            session_id,
            state: SessionState::Idle,
            features,
            codec: None,
            sample_rate: None,
            port: None,
            keys: Some(keys),
        }
    }

    /// Handles one control request: follows `spec_transition` exactly.
    pub fn handle_request(&mut self, req: ControlRequest) -> (r: Result<
        ControlResponse,
        SessionError,
    >)
        ensures
            *final (self) == spec_transition(*old(self), req).0,
            r == spec_transition(*old(self), req).1,
    {
        match req {
            ControlRequest::Malformed => {
                self.state = SessionState::Error;
                Err(SessionError::ProtocolError)
            },
            ControlRequest::PairingComplete => {
                if !matches!(self.state, SessionState::Idle) {
                    return Err(SessionError::InvalidState);
                }
                self.state = SessionState::Paired;
                Ok(ControlResponse::Paired)
            },
            ControlRequest::Describe { codec, sample_rate } => {
                if !matches!(self.state, SessionState::Paired) {
                    return Err(SessionError::InvalidState);
                }
                if !codec_supported(&self.features, codec) {
                    return Err(SessionError::UnsupportedMedia);
                }
                self.state = SessionState::Described;
                self.codec = Some(codec);
                self.sample_rate = Some(sample_rate);
                Ok(ControlResponse::Described)
            },
            ControlRequest::SetupTransport { port } => {
                if !matches!(self.state, SessionState::Described) {
                    return Err(SessionError::InvalidState);
                }
                self.state = SessionState::Configured;
                self.port = Some(port);
                Ok(ControlResponse::Configured { port })
            },
            ControlRequest::Record { start_timestamp } => {
                if !matches!(self.state, SessionState::Configured) {
                    return Err(SessionError::InvalidState);
                }
                self.state = SessionState::Streaming;
                Ok(ControlResponse::Started { start_timestamp })
            },
            ControlRequest::Teardown => {
                if !matches!(self.state, SessionState::Streaming) {
                    return Err(SessionError::InvalidState);
                }
                self.state = SessionState::TornDown;
                self.codec = None;
                self.sample_rate = None;
                self.port = None;
                self.keys = None;
                Ok(ControlResponse::TornDown)
            },
        }
    }
}

/// Whether the capability bitset admits the codec.
pub fn codec_supported(features: &FeatureFlags, codec: CodecKind) -> (r: bool)
    ensures
        r == spec_codec_supported(features.bits, codec),
{
    match codec {
        CodecKind::Pcm => features.contains(FeatureFlags { bits: RECEIVE_AUDIO_PCM }),
        CodecKind::Alac => features.contains(FeatureFlags { bits: RECEIVE_AUDIO_ALAC }),
        CodecKind::AacLc => features.contains(FeatureFlags { bits: RECEIVE_AUDIO_AAC_LC }),
    }
}

/// The record tag naming the requested operation.
pub const TAG_OPERATION: u8 = 0x01;

/// The record tag carrying the codec of a description.
pub const TAG_CODEC: u8 = 0x02;

/// The record tag carrying the sample rate of a description.
pub const TAG_SAMPLE_RATE: u8 = 0x03;

/// The record tag carrying the transport port.
pub const TAG_PORT: u8 = 0x04;

/// The record tag carrying the start timestamp.
pub const TAG_TIMESTAMP: u8 = 0x05;

/// The value of the first record with the given tag, if any.
pub open spec fn spec_find_record(records: Seq<(u8, Seq<u8>)>, tag: u8) -> Option<Seq<u8>>
    decreases records.len(),
{
    if records.len() == 0 {
        None
    } else if records[0].0 == tag {
        Some(records[0].1)
    } else {
        spec_find_record(records.drop_first(), tag)
    }
}

/// The little-endian value of a byte sequence.
pub open spec fn spec_le_of(s: Seq<u8>) -> int {
    crate::crypto::spec_le_val(s)
}

/// How a decoded body maps to a request. The operation record names what the
/// client asks; the records the operation needs supply its parameters, each
/// of a fixed width; records with other tags are ignored, never rejected.
/// A missing or malformed operation, or a missing parameter, is `Malformed`.
pub open spec fn spec_parse_request(records: Seq<(u8, Seq<u8>)>) -> ControlRequest {
    match spec_find_record(records, TAG_OPERATION) {
        None => ControlRequest::Malformed,
        Some(op) => if op.len() != 1 {
            ControlRequest::Malformed
        } else if op[0] == 1 {
            ControlRequest::PairingComplete
        } else if op[0] == 2 {
            match (spec_find_record(records, TAG_CODEC), spec_find_record(records, TAG_SAMPLE_RATE)) {
                (Some(c), Some(sr)) => if c.len() == 1 && sr.len() == 4 && 1 <= c[0] <= 3 {
                    ControlRequest::Describe {
                        codec: if c[0] == 1 {
                            CodecKind::Pcm
                        } else if c[0] == 2 {
                            CodecKind::Alac
                        } else {
                            CodecKind::AacLc
                        },
                        sample_rate: spec_le_of(sr) as u32,
                    }
                } else {
                    ControlRequest::Malformed
                },
                _ => ControlRequest::Malformed,
            }
        } else if op[0] == 3 {
            match spec_find_record(records, TAG_PORT) {
                Some(p) => if p.len() == 2 {
                    ControlRequest::SetupTransport { port: spec_le_of(p) as u16 }
                } else {
                    ControlRequest::Malformed
                },
                None => ControlRequest::Malformed,
            }
        } else if op[0] == 4 {
            match spec_find_record(records, TAG_TIMESTAMP) {
                Some(t) => if t.len() == 4 {
                    ControlRequest::Record { start_timestamp: spec_le_of(t) as u32 }
                } else {
                    ControlRequest::Malformed
                },
                None => ControlRequest::Malformed,
            }
        } else if op[0] == 5 {
            ControlRequest::Teardown
        } else {
            ControlRequest::Malformed
        },
    }
}

/// The first record with the given tag, if any.
fn find_record<'a>(records: &'a Vec<crate::tlv::TlvRecord>, tag: u8) -> (r: Option<&'a Vec<u8>>)
    ensures
        match r {
            Some(value) => spec_find_record(crate::tlv::spec_records_of(records@), tag) == Some(
                value@,
            ),
            None => spec_find_record(crate::tlv::spec_records_of(records@), tag) is None,
        },
{
    let ghost models = crate::tlv::spec_records_of(records@);
    let mut idx: usize = 0;
    proof {
        assert(models.skip(0) =~= models);
    }
    while idx < records.len()
        invariant
            idx <= records@.len(),
            models == crate::tlv::spec_records_of(records@),
            spec_find_record(models, tag) == spec_find_record(models.skip(idx as int), tag),
        decreases records@.len() - idx,
    {
        proof {
            assert(models.skip(idx as int)[0] == records@[idx as int]@);
            assert(models.skip(idx as int).drop_first() =~= models.skip(idx as int + 1));
        }
        if records[idx].tag == tag {
            return Some(&records[idx].value);
        }
        idx = idx + 1;
    }
    proof {
        assert(models.skip(records@.len() as int) =~= Seq::<(u8, Seq<u8>)>::empty());
    }
    None
}

/// The little-endian value of up to eight bytes.
fn le_of(bytes: &Vec<u8>) -> (r: u64)
    requires
        bytes@.len() <= 8,
    ensures
        r as int == spec_le_of(bytes@),
{
    let r = crate::plist::read_le(bytes, 0, bytes.len());
    proof {
        assert(bytes@.subrange(0, bytes@.len() as int) =~= bytes@);
    }
    r
}

/// Parses a decoded record list into the request it carries: follows
/// `spec_parse_request` exactly, ignoring records with unknown tags.
pub fn parse_request(records: &Vec<crate::tlv::TlvRecord>) -> (r: ControlRequest)
    ensures
        r == spec_parse_request(crate::tlv::spec_records_of(records@)),
{
    let op = match find_record(records, TAG_OPERATION) {
        Some(op) => op,
        None => {
            return ControlRequest::Malformed;
        },
    };
    if op.len() != 1 {
        return ControlRequest::Malformed;
    }
    let op0 = op[0];
    if op0 == 1 {
        ControlRequest::PairingComplete
    } else if op0 == 2 {
        let c = match find_record(records, TAG_CODEC) {
            Some(c) => c,
            None => {
                return ControlRequest::Malformed;
            },
        };
        let sr = match find_record(records, TAG_SAMPLE_RATE) {
            Some(sr) => sr,
            None => {
                return ControlRequest::Malformed;
            },
        };
        if c.len() == 1 && sr.len() == 4 && 1 <= c[0] && c[0] <= 3 {
            let codec = if c[0] == 1 {
                CodecKind::Pcm
            } else if c[0] == 2 {
                CodecKind::Alac
            } else {
                CodecKind::AacLc
            };
            let sample_rate = le_of(sr) as u32;
            ControlRequest::Describe { codec, sample_rate }
        } else {
            ControlRequest::Malformed
        }
    } else if op0 == 3 {
        let p = match find_record(records, TAG_PORT) {
            Some(p) => p,
            None => {
                return ControlRequest::Malformed;
            },
        };
        if p.len() == 2 {
            ControlRequest::SetupTransport { port: le_of(p) as u16 }
        } else {
            ControlRequest::Malformed
        }
    } else if op0 == 4 {
        let t = match find_record(records, TAG_TIMESTAMP) {
            Some(t) => t,
            None => {
                return ControlRequest::Malformed;
            },
        };
        if t.len() == 4 {
            ControlRequest::Record { start_timestamp: le_of(t) as u32 }
        } else {
            ControlRequest::Malformed
        }
    } else if op0 == 5 {
        ControlRequest::Teardown
    } else {
        ControlRequest::Malformed
    }
}

/// Law: a request issued in a state that does not permit it is answered with
/// `InvalidState` and leaves the session — state and descriptors alike —
/// unchanged.
pub proof fn lemma_invalid_request_leaves_session(s: ControlSession, req: ControlRequest)
    requires
        !spec_request_allowed(s.state, req),
        !(req is Malformed),
    ensures
        spec_transition(s, req).0 == s,
        spec_transition(s, req).1 == Err::<ControlResponse, SessionError>(
            SessionError::InvalidState,
        ),
{
}

} // verus!

//! Receiver-side session core of a device-casting audio protocol.
//!
//! The crate covers the sequence from cryptographic device pairing, through
//! the encrypted control-channel handshake, to timed audio packet reception
//! and playout scheduling:
//!
//! - `flags`: feature and status flag bitsets advertised by the receiver
//! - `device`: device configuration and the information block echoed to clients
//! - `hex`: hexadecimal rendering of flag values for protocol responses
//! - `pairing`: long-term key registry, verification and ephemeral key exchange
//! - `crypto`: session key derivation and authenticated encryption
//! - `tlv`: the flat type-length-value record encoding of control bodies
//! - `frame`: length-prefixed framing of encrypted control-channel frames
//! - `control`: the control-plane state machine
//! - `clock`: sender-to-local clock offset tracking and playout deadlines
//! - `reorder`: the bounded reordering window of the data-plane receiver
//! - `error`: the error taxonomy shared by all of the above

use vstd::prelude::*;

pub mod clock;
pub mod control;
pub mod crypto;
pub mod device;
pub mod error;
pub mod frame;
pub mod flags;
pub mod hex;
pub mod pairing;
pub mod plist;
pub mod receiver;
pub mod reorder;
pub mod tlv;

verus! {

/// Library version.
pub const VERSION: &'static str = "0.1.0";

/// Protocol version advertised in handshake responses.
pub const AIRPLAY_PROTOCOL_VERSION: &'static str = "1.1";

/// SDK version string advertised in handshake responses.
pub const AIRPLAY_SDK_VERSION: &'static str = "AirPlay;2.0.2";

/// Server version advertised to clients (affects client behavior):
/// above 360 triggers remote control; 355 and above triggers PTP and
/// buffered audio; 355 and below triggers realtime streaming and NTP.
pub const SERVER_VERSION: &'static str = "366.0";

/// Standard control-channel port.
pub const DEFAULT_PORT: u16 = 7000;

/// Default audio buffer size in bytes (8 MiB).
pub const AIRPLAY_BUFFER_SIZE: usize = 8 * 1024 * 1024;

} // verus!

//! Device configuration and the information block echoed to clients.
//!
//! The capability provider hands the session core immutable device data: a
//! display name, a device identifier in MAC-address form, a public identifier
//! in UUID text form, and the feature and status bitsets. The information
//! block assembled from it is what the control channel returns when a client
//! asks the receiver to describe itself.

use vstd::prelude::*;
use vstd::string::StringExecFns;

use crate::flags::{FeatureFlags, StatusFlags};
use crate::hex::spec_hex_token;

verus! {

/// Device configuration read by every session.
#[derive(Clone, Debug)]
pub struct DeviceConfig {
    /// Device name visible to clients.
    pub name: String,
    /// Device identifier in MAC-address form.
    pub device_id: String,
    /// Public identifier in hyphenated UUID text form.
    pub public_id: String,
    /// Capability bitset.
    pub features: FeatureFlags,
    /// Status bitset.
    pub status: StatusFlags,
    /// Network interface to bind to.
    pub interface: Option<String>,
    /// Control-channel port.
    pub port: u16,
    /// Whether volume control is enabled.
    pub volume_enabled: bool,
}

/// A lower-case hexadecimal digit character.
pub open spec fn spec_is_hex_char(c: char) -> bool {
    ('0' <= c && c <= '9') || ('a' <= c && c <= 'f')
}

/// The hyphenated text form of a version-4 UUID: 36 characters, hyphens at
/// positions 8, 13, 18 and 23, lower-case hexadecimal digits everywhere else,
/// the version nibble `4`, and a variant nibble of `8`, `9`, `a` or `b`.
pub open spec fn spec_uuid_v4_text(s: Seq<char>) -> bool {
    &&& s.len() == 36
    &&& s[8] == '-' && s[13] == '-' && s[18] == '-' && s[23] == '-'
    &&& forall|i: int|
        0 <= i < 36 && i != 8 && i != 13 && i != 18 && i != 23 ==> spec_is_hex_char(#[trigger] s[i])
    &&& s[14] == '4'
    &&& (s[19] == '8' || s[19] == '9' || s[19] == 'a' || s[19] == 'b')
}

/// Relies on `uuid::Uuid::new_v4` and its `Display` impl: a freshly drawn
/// random UUID whose version nibble is masked to `4` and whose variant nibble
/// is masked to `8`..`b`, rendered in the 36-character hyphenated lower-case
/// form. The value itself is random; only the shape is stated.
#[verifier::external_body]
fn fresh_public_id() -> (r: String)
    ensures
        spec_uuid_v4_text(r@),
{
    uuid::Uuid::new_v4().to_string()
}

impl Default for DeviceConfig {
    /// The stock configuration: a fresh random public identifier, the full
    /// capability bitset, an empty status bitset, and the standard port.
    fn default() -> (r: Self)
        ensures
            r.name@ == "AirPlay Receiver"@,
            r.device_id@ == "00:00:00:00:00:00"@,
            spec_uuid_v4_text(r.public_id@),
            r.features.bits == crate::flags::DEFAULT_FEATURES,
            r.status.bits == 0,
            r.interface is None,
            r.port == crate::DEFAULT_PORT,
            r.volume_enabled,
    {
        DeviceConfig {
            name: String::from_str("AirPlay Receiver"),
            device_id: String::from_str("00:00:00:00:00:00"),
            public_id: fresh_public_id(),
            features: FeatureFlags::default_airplay2(),
            status: StatusFlags::empty(),
            interface: None,
            port: crate::DEFAULT_PORT,
            volume_enabled: true,
        }
    }
}

/// One audio latency entry of the information block.
#[derive(Clone, Copy, PartialEq, Eq, Debug, Structural)]
pub struct AudioLatency {
    /// Input latency in microseconds.
    pub input_latency_micros: u32,
    /// Output latency in microseconds.
    pub output_latency_micros: u32,
}

/// The information block a receiver returns when asked to describe itself.
#[derive(Clone, Debug)]
pub struct DeviceInfo {
    /// Audio latencies.
    pub audio_latencies: Vec<AudioLatency>,
    /// Device identifier in MAC-address form.
    pub device_id: String,
    /// Feature bits as an integer.
    pub features: u64,
    /// Keep-alive low-power mode.
    pub keep_alive_low_power: bool,
    /// Keep-alive statistics sent as body.
    pub keep_alive_send_stats_as_body: bool,
    /// Manufacturer name.
    pub manufacturer: String,
    /// Model name.
    pub model: String,
    /// Device name.
    pub name: String,
    /// Whether the name is the factory default.
    pub name_is_factory_default: bool,
    /// Public identifier in UUID text form.
    pub pi: String,
    /// Protocol version.
    pub protocol_version: String,
    /// SDK version.
    pub sdk: String,
    /// Source version.
    pub source_version: String,
    /// Status bits as a hexadecimal token.
    pub status_flags: String,
}

impl DeviceInfo {
    /// Assembles the information block from the device configuration: one
    /// latency entry of 0 in / 400000 out microseconds, the configured
    /// identifiers and feature bits, the fixed manufacturer and model names,
    /// the protocol version constants, and the status bits rendered as a
    /// hexadecimal token.
    pub fn from_config(config: &DeviceConfig) -> (r: Self)
        ensures
            r.audio_latencies@.len() == 1,
            r.audio_latencies@[0] == (AudioLatency {
                input_latency_micros: 0,
                output_latency_micros: 400000,
            }),
            r.device_id@ == config.device_id@,
            r.features == config.features.bits,
            r.keep_alive_low_power,
            r.keep_alive_send_stats_as_body,
            r.manufacturer@ == "OpenAirplay"@,
            r.model@ == "Receiver"@,
            r.name@ == config.name@,
            !r.name_is_factory_default,
            r.pi@ == config.public_id@,
            r.protocol_version@ == crate::AIRPLAY_PROTOCOL_VERSION@,
            r.sdk@ == crate::AIRPLAY_SDK_VERSION@,
            r.source_version@ == crate::SERVER_VERSION@,
            r.status_flags@ == spec_hex_token(config.status.bits as nat),
    {
        let mut audio_latencies: Vec<AudioLatency> = Vec::new();
        audio_latencies.push(
            AudioLatency { input_latency_micros: 0, output_latency_micros: 400000 },
        );
        DeviceInfo {
            audio_latencies,
            device_id: config.device_id.clone(),
            features: config.features.bits(),
            keep_alive_low_power: true,
            keep_alive_send_stats_as_body: true,
            manufacturer: String::from_str("OpenAirplay"),
            model: String::from_str("Receiver"),
            name: config.name.clone(),
            name_is_factory_default: false,
            pi: config.public_id.clone(),
            protocol_version: String::from_str(crate::AIRPLAY_PROTOCOL_VERSION),
            sdk: String::from_str(crate::AIRPLAY_SDK_VERSION),
            source_version: String::from_str(crate::SERVER_VERSION),
            status_flags: config.status.to_hex_string(),
        }
    }
}

} // verus!

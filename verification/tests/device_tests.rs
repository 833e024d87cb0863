use airplay2_receiver::device::{DeviceConfig, DeviceInfo};
use airplay2_receiver::flags::{FeatureFlags, StatusFlags, RECV_SESS_ACTIVE};

#[test]
fn default_config_has_stock_values() {
    let config = DeviceConfig::default();
    assert_eq!(config.name, "AirPlay Receiver");
    assert_eq!(config.device_id, "00:00:00:00:00:00");
    assert_eq!(config.features.bits(), 0x0001c300405f4200);
    assert_eq!(config.status.bits(), 0);
    assert_eq!(config.port, 7000);
    assert!(config.interface.is_none());
    assert!(config.volume_enabled);
}

#[test]
fn default_config_draws_a_fresh_public_id() {
    // The public identifier is a hyphenated UUID: 36 characters, and a new
    // draw for every configuration.
    let first = DeviceConfig::default();
    let second = DeviceConfig::default();
    assert_eq!(first.public_id.len(), 36);
    assert_eq!(second.public_id.len(), 36);
    for (i, b) in first.public_id.bytes().enumerate() {
        if i == 8 || i == 13 || i == 18 || i == 23 {
            assert_eq!(b, b'-');
        } else {
            assert!(b.is_ascii_digit() || (b'a'..=b'f').contains(&b));
        }
    }
    assert_eq!(first.public_id.as_bytes()[14], b'4');
    assert!((b'8'..=b'9').contains(&first.public_id.as_bytes()[19])
        || (b'a'..=b'b').contains(&first.public_id.as_bytes()[19]));
    assert_ne!(first.public_id, second.public_id);
}

#[test]
fn device_info_reflects_configuration() {
    let mut config = DeviceConfig::default();
    config.name = "Kitchen".to_string();
    config.device_id = "aa:bb:cc:dd:ee:ff".to_string();
    config.features = FeatureFlags::minimal_audio();
    config.status = StatusFlags::from_bits(RECV_SESS_ACTIVE);
    let info = DeviceInfo::from_config(&config);
    assert_eq!(info.name, "Kitchen");
    assert_eq!(info.device_id, "aa:bb:cc:dd:ee:ff");
    assert_eq!(info.features, FeatureFlags::minimal_audio().bits());
    assert_eq!(info.status_flags, "0x1");
    assert_eq!(info.pi, config.public_id);
    assert_eq!(info.manufacturer, "OpenAirplay");
    assert_eq!(info.model, "Receiver");
    assert_eq!(info.protocol_version, "1.1");
    assert_eq!(info.sdk, "AirPlay;2.0.2");
    assert_eq!(info.source_version, "366.0");
    assert!(info.keep_alive_low_power);
    assert!(info.keep_alive_send_stats_as_body);
    assert!(!info.name_is_factory_default);
    assert_eq!(info.audio_latencies.len(), 1);
    assert_eq!(info.audio_latencies[0].input_latency_micros, 0);
    assert_eq!(info.audio_latencies[0].output_latency_micros, 400_000);
}

#[test]
fn media_timestamp_conversion_is_exact() {
    // 44100 units at 44.1 kHz is exactly one second.
    assert_eq!(
        airplay2_receiver::clock::media_timestamp_micros(44_100, 44_100),
        1_000_000
    );
    // 441 units is ten milliseconds.
    assert_eq!(
        airplay2_receiver::clock::media_timestamp_micros(441, 44_100),
        10_000
    );
    assert_eq!(airplay2_receiver::clock::media_timestamp_micros(0, 48_000), 0);
}

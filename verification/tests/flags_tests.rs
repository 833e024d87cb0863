use airplay2_receiver::flags::{
    FeatureFlags, StatusFlags, AIRPLAY_AUDIO, AUDIO_META_PROGRESS, AUDIO_META_TXT_DAAP,
    AUDIO_UNENCRYPTED, BUFFERED_AUDIO, FT00_RESERVED, FT52_RESERVED, HKAC_FLAG, HOMEKIT_PAIRING,
    MFI_SOFT_FAIRPLAY, PEER_MANAGEMENT, PTP_CLOCK, PW_SET_FLAG, RECEIVE_AUDIO_AAC_LC,
    RECEIVE_AUDIO_ALAC, RECEIVE_AUDIO_PCM, RECV_SESS_ACTIVE, TRANSIENT_PAIRING,
    UNIFIED_ADVERTISING_INFO,
};

#[test]
fn test_feature_flags_individual() {
    // Test individual flag bits
    assert_eq!(AIRPLAY_AUDIO, 1 << 9);
    assert_eq!(MFI_SOFT_FAIRPLAY, 1 << 14);
    assert_eq!(AUDIO_META_PROGRESS, 1 << 16);
    assert_eq!(AUDIO_META_TXT_DAAP, 1 << 17);
    assert_eq!(RECEIVE_AUDIO_PCM, 1 << 18);
    assert_eq!(RECEIVE_AUDIO_ALAC, 1 << 19);
    assert_eq!(RECEIVE_AUDIO_AAC_LC, 1 << 20);
    assert_eq!(AUDIO_UNENCRYPTED, 1 << 22);
    assert_eq!(UNIFIED_ADVERTISING_INFO, 1 << 30);
    assert_eq!(BUFFERED_AUDIO, 1 << 40);
    assert_eq!(PTP_CLOCK, 1 << 41);
    assert_eq!(HOMEKIT_PAIRING, 1 << 46);
    assert_eq!(PEER_MANAGEMENT, 1 << 47);
    assert_eq!(TRANSIENT_PAIRING, 1 << 48);
}

#[test]
fn test_default_airplay2_value() {
    // Test that default_airplay2() returns the correct value: 0x0001c300405f4200
    let flags = FeatureFlags::default_airplay2();
    assert_eq!(flags.bits(), 0x0001c300405f4200);
}

#[test]
fn test_default_airplay2_contains() {
    let flags = FeatureFlags::default_airplay2();

    // Should contain these flags
    assert!(flags.contains(FeatureFlags::from_bits(AIRPLAY_AUDIO)));
    assert!(flags.contains(FeatureFlags::from_bits(MFI_SOFT_FAIRPLAY)));
    assert!(flags.contains(FeatureFlags::from_bits(AUDIO_META_PROGRESS)));
    assert!(flags.contains(FeatureFlags::from_bits(AUDIO_META_TXT_DAAP)));
    assert!(flags.contains(FeatureFlags::from_bits(RECEIVE_AUDIO_PCM)));
    assert!(flags.contains(FeatureFlags::from_bits(RECEIVE_AUDIO_ALAC)));
    assert!(flags.contains(FeatureFlags::from_bits(RECEIVE_AUDIO_AAC_LC)));
    assert!(flags.contains(FeatureFlags::from_bits(AUDIO_UNENCRYPTED)));
    assert!(flags.contains(FeatureFlags::from_bits(UNIFIED_ADVERTISING_INFO)));
    assert!(flags.contains(FeatureFlags::from_bits(BUFFERED_AUDIO)));
    assert!(flags.contains(FeatureFlags::from_bits(PTP_CLOCK)));
    assert!(flags.contains(FeatureFlags::from_bits(HOMEKIT_PAIRING)));
    assert!(flags.contains(FeatureFlags::from_bits(PEER_MANAGEMENT)));
    assert!(flags.contains(FeatureFlags::from_bits(TRANSIENT_PAIRING)));

    // Should NOT contain reserved flags
    assert!(!flags.contains(FeatureFlags::from_bits(FT00_RESERVED)));
    assert!(!flags.contains(FeatureFlags::from_bits(FT52_RESERVED)));
}

#[test]
fn test_minimal_audio() {
    let flags = FeatureFlags::minimal_audio();

    // Should contain basic audio flags
    assert!(flags.contains(FeatureFlags::from_bits(AIRPLAY_AUDIO)));
    assert!(flags.contains(FeatureFlags::from_bits(MFI_SOFT_FAIRPLAY)));
    assert!(flags.contains(FeatureFlags::from_bits(RECEIVE_AUDIO_PCM)));
    assert!(flags.contains(FeatureFlags::from_bits(RECEIVE_AUDIO_ALAC)));
    assert!(flags.contains(FeatureFlags::from_bits(RECEIVE_AUDIO_AAC_LC)));
    assert!(flags.contains(FeatureFlags::from_bits(AUDIO_UNENCRYPTED)));

    // Should NOT contain HomeKit or advanced features
    assert!(!flags.contains(FeatureFlags::from_bits(HOMEKIT_PAIRING)));
    assert!(!flags.contains(FeatureFlags::from_bits(UNIFIED_ADVERTISING_INFO)));
    assert!(!flags.contains(FeatureFlags::from_bits(BUFFERED_AUDIO)));
}

#[test]
fn test_hex_string_formatting() {
    // Test small value (< 32 bits)
    let small_flags = FeatureFlags::from_bits(AIRPLAY_AUDIO);
    assert_eq!(small_flags.to_hex_string(), "0x200");

    // Test large value (> 32 bits) - should be split
    let large_flags = FeatureFlags::default_airplay2();
    assert_eq!(large_flags.to_hex_string(), "0x405f4200,0x1c300");
}

#[test]
fn test_is_airplay2() {
    let ap2_flags = FeatureFlags::default_airplay2();
    assert!(ap2_flags.is_airplay2());

    let minimal_flags = FeatureFlags::minimal_audio();
    assert!(!minimal_flags.is_airplay2());
}

#[test]
fn test_supports_buffered_audio() {
    let flags = FeatureFlags::default_airplay2();
    assert!(flags.supports_buffered_audio());

    let flags_no_buffer = FeatureFlags::from_bits(AIRPLAY_AUDIO).union(FeatureFlags::from_bits(
        PTP_CLOCK,
    ));
    assert!(!flags_no_buffer.supports_buffered_audio());

    let flags_no_ptp = FeatureFlags::from_bits(AIRPLAY_AUDIO).union(FeatureFlags::from_bits(
        BUFFERED_AUDIO,
    ));
    assert!(!flags_no_ptp.supports_buffered_audio());
}

#[test]
fn test_supports_homekit() {
    let flags = FeatureFlags::default_airplay2();
    assert!(flags.supports_homekit());

    let minimal_flags = FeatureFlags::minimal_audio();
    assert!(!minimal_flags.supports_homekit());
}

#[test]
fn test_bitwise_operations() {
    let mut flags = FeatureFlags::empty();
    assert!(!flags.contains(FeatureFlags::from_bits(AIRPLAY_AUDIO)));

    // Add a flag
    flags.insert(FeatureFlags::from_bits(AIRPLAY_AUDIO));
    assert!(flags.contains(FeatureFlags::from_bits(AIRPLAY_AUDIO)));

    // Add another flag
    flags.insert(FeatureFlags::from_bits(RECEIVE_AUDIO_ALAC));
    assert!(flags.contains(FeatureFlags::from_bits(AIRPLAY_AUDIO)));
    assert!(flags.contains(FeatureFlags::from_bits(RECEIVE_AUDIO_ALAC)));

    // Remove a flag
    flags.remove(FeatureFlags::from_bits(AIRPLAY_AUDIO));
    assert!(!flags.contains(FeatureFlags::from_bits(AIRPLAY_AUDIO)));
    assert!(flags.contains(FeatureFlags::from_bits(RECEIVE_AUDIO_ALAC)));
}

#[test]
fn test_status_flags_individual() {
    assert_eq!(RECV_SESS_ACTIVE, 1 << 0);
    assert_eq!(HKAC_FLAG, 1 << 1);
    assert_eq!(PW_SET_FLAG, 1 << 2);
}

#[test]
fn test_status_flags_combinations() {
    let flags = StatusFlags::from_bits(RECV_SESS_ACTIVE).union(StatusFlags::from_bits(HKAC_FLAG));
    assert!(flags.contains(StatusFlags::from_bits(RECV_SESS_ACTIVE)));
    assert!(flags.contains(StatusFlags::from_bits(HKAC_FLAG)));
    assert!(!flags.contains(StatusFlags::from_bits(PW_SET_FLAG)));
}

#[test]
fn test_status_flags_hex_string() {
    let flags = StatusFlags::empty();
    assert_eq!(flags.to_hex_string(), "0x0");

    let flags = StatusFlags::from_bits(RECV_SESS_ACTIVE);
    assert_eq!(flags.to_hex_string(), "0x1");

    let flags = StatusFlags::from_bits(RECV_SESS_ACTIVE).union(StatusFlags::from_bits(HKAC_FLAG))
        .union(StatusFlags::from_bits(PW_SET_FLAG));
    assert_eq!(flags.to_hex_string(), "0x7");
}

#[test]
fn test_feature_flags_are_copy() {
    // Verify that FeatureFlags implements Copy
    let flags1 = FeatureFlags::default_airplay2();
    let flags2 = flags1; // Should copy, not move
    assert_eq!(flags1, flags2);
    // Both should still be usable
    assert!(flags1.contains(FeatureFlags::from_bits(AIRPLAY_AUDIO)));
    assert!(flags2.contains(FeatureFlags::from_bits(AIRPLAY_AUDIO)));
}

#[test]
fn test_version_constants() {
    assert!(!airplay2_receiver::VERSION.is_empty());
    assert_eq!(airplay2_receiver::AIRPLAY_PROTOCOL_VERSION, "1.1");
    assert_eq!(airplay2_receiver::DEFAULT_PORT, 7000);
}

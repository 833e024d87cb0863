use airplay2_receiver::clock::ClockSync;
use airplay2_receiver::control::{
    parse_request, CodecKind, ControlRequest, ControlResponse, ControlSession, SessionState,
    TAG_CODEC, TAG_OPERATION, TAG_SAMPLE_RATE,
};
use airplay2_receiver::crypto::{derive_session_keys, open, seal, ControlDirection, FailureMonitor};
use airplay2_receiver::error::SessionError;
use airplay2_receiver::flags::{FeatureFlags, AIRPLAY_AUDIO};
use airplay2_receiver::frame::{decode_frame, encode_frame};
use airplay2_receiver::pairing::{
    long_term_key_from_password, pairing_proof, pow_mod, PairingRegistry, PairingSession,
    PairingState, GROUP_GENERATOR,
};
use airplay2_receiver::plist::{plist_decode, plist_encode, PlistEntry, PlistValue};
use airplay2_receiver::receiver::{DataPlaneReceiver, HandoffQueue};
use airplay2_receiver::reorder::{AudioPacket, OutputItem, ReorderWindow};
use airplay2_receiver::tlv::{tlv_decode, tlv_encode, TlvRecord};

fn make_packet(seq: u64, payload: Vec<u8>) -> AudioPacket {
    AudioPacket { seq, timestamp: (seq as u32) * 441, payload }
}

fn item_seq(item: &OutputItem) -> u64 {
    match item {
        OutputItem::Packet(p) => p.seq,
        OutputItem::Missing(s) => *s,
    }
}

#[test]
fn both_roles_derive_identical_session_keys() {
    // Run both roles of the exchange against each other.
    let client_secret: u64 = 0x1357_9bdf_2468_ace0;
    let server_secret: u64 = 0x0fed_cba9_8765_4321;
    let client_public = pow_mod(GROUP_GENERATOR, client_secret);
    let server_public = pow_mod(GROUP_GENERATOR, server_secret);
    let client_shared = pow_mod(server_public, client_secret);
    let server_shared = pow_mod(client_public, server_secret);
    assert_eq!(client_shared, server_shared);
    assert_eq!(
        derive_session_keys(client_shared),
        derive_session_keys(server_shared)
    );
}

#[test]
fn pairing_flow_succeeds_with_correct_proof() {
    let password: Vec<u8> = b"orchard".to_vec();
    let ltk = long_term_key_from_password(&password);
    let client_secret: u64 = 77_777;
    let client_public = pow_mod(GROUP_GENERATOR, client_secret);

    let mut server = PairingSession::new(ltk, 88_888);
    let server_public = server.begin_verify(client_public).unwrap();

    // The client derives the same shared secret and proves the long-term key.
    let client_shared = pow_mod(server_public, client_secret);
    let proof = pairing_proof(ltk, client_public, server_public);
    let server_keys = server.complete_verify(&proof).unwrap();
    assert!(matches!(server.state, PairingState::Verified));
    assert_eq!(server_keys, derive_session_keys(client_shared));
}

#[test]
fn tampered_proof_fails_with_authentication_error() {
    let password: Vec<u8> = b"orchard".to_vec();
    let ltk = long_term_key_from_password(&password);
    let client_secret: u64 = 424_242;
    let client_public = pow_mod(GROUP_GENERATOR, client_secret);

    let proof = pairing_proof(ltk, client_public, pow_mod(GROUP_GENERATOR, 171_717));
    // Flip a single bit at every position in turn: every variant is rejected.
    for byte_index in 0..proof.len() {
        for bit in 0..8 {
            let mut server = PairingSession::new(ltk, 171_717);
            let server_public = server.begin_verify(client_public).unwrap();
            assert_eq!(server_public, pow_mod(GROUP_GENERATOR, 171_717));
            let mut tampered = proof.clone();
            tampered[byte_index] ^= 1 << bit;
            let result = server.complete_verify(&tampered);
            assert_eq!(result.unwrap_err(), SessionError::AuthenticationError);
            assert!(matches!(server.state, PairingState::Failed));
        }
    }
}

#[test]
fn pairing_rejects_public_value_outside_group() {
    let mut server = PairingSession::new(5, 99);
    let result = server.begin_verify(u64::MAX);
    assert_eq!(result.unwrap_err(), SessionError::ProtocolError);
    assert!(matches!(server.state, PairingState::Failed));
}

#[test]
fn registry_records_and_supersedes_long_term_keys() {
    let mut registry = PairingRegistry::new();
    assert_eq!(registry.lookup(10), None);
    registry.register(10, 111);
    registry.register(20, 222);
    assert_eq!(registry.lookup(10), Some(111));
    assert_eq!(registry.lookup(20), Some(222));
    // A fresh pairing for peer 10 supersedes its key and touches no other.
    registry.register(10, 333);
    assert_eq!(registry.lookup(10), Some(333));
    assert_eq!(registry.lookup(20), Some(222));
    assert_eq!(registry.lookup(30), None);
}

#[test]
fn failure_monitor_aborts_past_threshold() {
    let mut monitor = FailureMonitor::new(2);
    assert!(!monitor.record_failure());
    assert!(!monitor.record_failure());
    assert!(monitor.record_failure());
    assert_eq!(monitor.failures, 3);
}

#[test]
fn idle_sessions_expire() {
    assert!(!airplay2_receiver::clock::idle_expired(5_000_000, 0, 30_000_000));
    assert!(airplay2_receiver::clock::idle_expired(31_000_000, 0, 30_000_000));
}

#[test]
fn seal_open_roundtrip_recovers_plaintext() {
    let key: u64 = 0xdead_beef_0bad_f00d;
    let nonce: u64 = 7;
    let plaintext: Vec<u8> = b"thirty-two bars of compressed audio".to_vec();
    let ad: Vec<u8> = b"seq=7".to_vec();
    let sealed = seal(key, nonce, &plaintext, &ad);
    assert_ne!(&sealed[..plaintext.len()], &plaintext[..]);
    let opened = open(key, nonce, &sealed, &ad).unwrap();
    assert_eq!(opened, plaintext);
}

#[test]
fn open_rejects_every_single_byte_mutation() {
    let key: u64 = 3;
    let nonce: u64 = 11;
    let plaintext: Vec<u8> = b"payload".to_vec();
    let ad: Vec<u8> = b"ad".to_vec();
    let sealed = seal(key, nonce, &plaintext, &ad);
    for i in 0..sealed.len() {
        let mut tampered = sealed.clone();
        tampered[i] ^= 0x01;
        assert_eq!(
            open(key, nonce, &tampered, &ad).unwrap_err(),
            SessionError::DecryptionFailure
        );
    }
    // Wrong key, nonce or associated data fail as well.
    assert!(open(key + 1, nonce, &sealed, &ad).is_err());
    assert!(open(key, nonce + 1, &sealed, &ad).is_err());
    assert!(open(key, nonce, &sealed, &b"xx".to_vec()).is_err());
    // A buffer shorter than a tag fails.
    assert!(open(key, nonce, &b"short".to_vec(), &ad).is_err());
}

#[test]
fn control_channel_nonces_strictly_increase() {
    let mut dir = ControlDirection::new(42);
    let pt: Vec<u8> = b"SETUP".to_vec();
    let ad: Vec<u8> = Vec::new();
    let first = dir.seal_next(&pt, &ad);
    let second = dir.seal_next(&pt, &ad);
    assert_eq!(dir.next_nonce, 2);
    // Same plaintext under the two nonces seals differently.
    assert_ne!(first, second);
    assert_eq!(open(42, 0, &first, &ad).unwrap(), pt);
    assert_eq!(open(42, 1, &second, &ad).unwrap(), pt);
}

#[test]
fn invalid_state_requests_leave_session_unchanged() {
    let keys = derive_session_keys(9);
    let mut session = ControlSession::new(1, FeatureFlags::default_airplay2(), keys);

    // Every request that is out of order in Idle is rejected unchanged.
    let premature = [
        ControlRequest::Describe { codec: CodecKind::Alac, sample_rate: 44_100 },
        ControlRequest::SetupTransport { port: 7001 },
        ControlRequest::Record { start_timestamp: 0 },
        ControlRequest::Teardown,
    ];
    for req in premature {
        let before_state = session.state;
        let result = session.handle_request(req);
        assert_eq!(result.unwrap_err(), SessionError::InvalidState);
        assert_eq!(session.state, before_state);
        assert_eq!(session.codec, None);
        assert_eq!(session.port, None);
    }

    // And a stale request after progress is rejected without losing progress.
    session.handle_request(ControlRequest::PairingComplete).unwrap();
    session
        .handle_request(ControlRequest::Describe { codec: CodecKind::Alac, sample_rate: 44_100 })
        .unwrap();
    let result = session.handle_request(ControlRequest::PairingComplete);
    assert_eq!(result.unwrap_err(), SessionError::InvalidState);
    assert_eq!(session.state, SessionState::Described);
    assert_eq!(session.codec, Some(CodecKind::Alac));
}

#[test]
fn unsupported_codec_is_rejected_and_session_may_retry() {
    let keys = derive_session_keys(9);
    // A receiver that only advertises bare audio support admits no codec.
    let mut session = ControlSession::new(2, FeatureFlags::from_bits(AIRPLAY_AUDIO), keys);
    session.handle_request(ControlRequest::PairingComplete).unwrap();
    let result = session
        .handle_request(ControlRequest::Describe { codec: CodecKind::AacLc, sample_rate: 48_000 });
    assert_eq!(result.unwrap_err(), SessionError::UnsupportedMedia);
    // The session stays in Paired: the client may retry.
    assert_eq!(session.state, SessionState::Paired);
}

#[test]
fn malformed_request_moves_session_to_error() {
    let keys = derive_session_keys(9);
    let mut session = ControlSession::new(3, FeatureFlags::default_airplay2(), keys);
    let result = session.handle_request(ControlRequest::Malformed);
    assert_eq!(result.unwrap_err(), SessionError::ProtocolError);
    assert_eq!(session.state, SessionState::Error);
}

#[test]
fn teardown_releases_descriptors_and_keys() {
    let keys = derive_session_keys(9);
    let mut session = ControlSession::new(4, FeatureFlags::default_airplay2(), keys);
    session.handle_request(ControlRequest::PairingComplete).unwrap();
    session
        .handle_request(ControlRequest::Describe { codec: CodecKind::Pcm, sample_rate: 44_100 })
        .unwrap();
    let response = session.handle_request(ControlRequest::SetupTransport { port: 7011 }).unwrap();
    assert_eq!(response, ControlResponse::Configured { port: 7011 });
    let response = session.handle_request(ControlRequest::Record { start_timestamp: 1234 }).unwrap();
    assert_eq!(response, ControlResponse::Started { start_timestamp: 1234 });
    assert_eq!(session.state, SessionState::Streaming);
    session.handle_request(ControlRequest::Teardown).unwrap();
    assert_eq!(session.state, SessionState::TornDown);
    assert_eq!(session.keys, None);
    assert_eq!(session.codec, None);
    assert_eq!(session.port, None);
}

#[test]
fn bodies_parse_into_requests_and_ignore_unknown_tags() {
    // A describe body: operation 2, codec ALAC, 44100 Hz, plus a record
    // with an unknown tag that must be ignored.
    let records = vec![
        TlvRecord { tag: 0xee, value: b"future".to_vec() },
        TlvRecord { tag: TAG_OPERATION, value: vec![2] },
        TlvRecord { tag: TAG_CODEC, value: vec![2] },
        TlvRecord { tag: TAG_SAMPLE_RATE, value: vec![0x44, 0xac, 0x00, 0x00] },
    ];
    let bytes = tlv_encode(&records);
    let decoded = tlv_decode(&bytes).unwrap();
    assert_eq!(
        parse_request(&decoded),
        ControlRequest::Describe { codec: CodecKind::Alac, sample_rate: 44_100 }
    );

    // A body with no operation record is malformed.
    let no_op = vec![TlvRecord { tag: 0x30, value: vec![1] }];
    assert_eq!(parse_request(&no_op), ControlRequest::Malformed);
    // A describe with a missing parameter is malformed.
    let partial = vec![TlvRecord { tag: TAG_OPERATION, value: vec![2] }];
    assert_eq!(parse_request(&partial), ControlRequest::Malformed);
    // Operation 5 needs nothing more.
    let teardown = vec![TlvRecord { tag: TAG_OPERATION, value: vec![5] }];
    assert_eq!(parse_request(&teardown), ControlRequest::Teardown);
}

#[test]
fn reorder_emits_any_permutation_in_order() {
    let arrival: [u64; 9] = [3, 0, 1, 7, 2, 5, 4, 8, 6];
    let mut window = ReorderWindow::new(16, 0);
    let mut emitted: Vec<u64> = Vec::new();
    for &seq in arrival.iter() {
        for item in window.insert(make_packet(seq, vec![seq as u8])) {
            match item {
                OutputItem::Packet(p) => emitted.push(p.seq),
                OutputItem::Missing(_) => panic!("no gap expected"),
            }
        }
    }
    assert_eq!(emitted, (0..9).collect::<Vec<u64>>());
}

#[test]
fn reorder_drops_late_packet() {
    let mut window = ReorderWindow::new(8, 0);
    for seq in 0..4 {
        window.insert(make_packet(seq, Vec::new()));
    }
    // Sequence 2 is behind the trailing edge by now.
    let out = window.insert(make_packet(2, Vec::new()));
    assert!(out.is_empty());
    assert_eq!(window.late_count, 1);
    // It does not appear in later output either.
    let out = window.flush();
    assert!(out.is_empty());
}

#[test]
fn reorder_counts_duplicates() {
    let mut window = ReorderWindow::new(8, 0);
    window.insert(make_packet(3, Vec::new()));
    let out = window.insert(make_packet(3, Vec::new()));
    assert!(out.is_empty());
    assert_eq!(window.duplicate_count, 1);
}

#[test]
fn reorder_signals_gap_when_window_advances() {
    let mut window = ReorderWindow::new(4, 0);
    // Sequence 0 is the head of the window and comes straight out.
    let first = window.insert(make_packet(0, Vec::new()));
    assert_eq!(first.iter().map(item_seq).collect::<Vec<u64>>(), vec![0]);
    assert!(matches!(first[0], OutputItem::Packet(_)));
    // Sequence 10 is beyond the span: the window advances to cover it and
    // signals everything it slid past as explicit gaps.
    let out = window.insert(make_packet(10, Vec::new()));
    let seqs: Vec<u64> = out.iter().map(item_seq).collect();
    assert_eq!(seqs, (1..7).collect::<Vec<u64>>());
    for item in &out {
        assert!(matches!(item, OutputItem::Missing(_)));
    }
    assert_eq!(window.lost_count, 6);
    let rest = window.flush();
    let rest_seqs: Vec<u64> = rest.iter().map(item_seq).collect();
    assert_eq!(rest_seqs, vec![7, 8, 9, 10]);
    assert!(matches!(rest[3], OutputItem::Packet(_)));
    assert_eq!(window.lost_count, 9);
}

#[test]
fn receiver_absorbs_decryption_failures_until_threshold() {
    let key: u64 = 0x5eed;
    let mut receiver = DataPlaneReceiver::new(key, ReorderWindow::new(8, 0), 2);

    // A valid datagram flows through to ordered output.
    let body: Vec<u8> = b"frame".to_vec();
    let datagram = seal(key, 0, &body, &Vec::new());
    let (out, abort) = receiver.receive_datagram(0, 0, &datagram);
    assert!(!abort);
    assert_eq!(out.len(), 1);
    match &out[0] {
        OutputItem::Packet(p) => assert_eq!(p.payload, body),
        OutputItem::Missing(_) => panic!("no gap expected"),
    }

    // Garbage datagrams are dropped and counted; the session continues
    // until the count passes the threshold.
    let garbage: Vec<u8> = vec![0u8; 16];
    let (out, abort) = receiver.receive_datagram(1, 441, &garbage);
    assert!(out.is_empty() && !abort);
    let (_, abort) = receiver.receive_datagram(2, 882, &garbage);
    assert!(!abort);
    let (_, abort) = receiver.receive_datagram(3, 1323, &garbage);
    assert!(abort);
    assert_eq!(receiver.monitor.failures, 3);
}

#[test]
fn handoff_queue_drops_oldest_when_full() {
    let mut queue = HandoffQueue::new(2);
    queue.push(OutputItem::Missing(0));
    queue.push(OutputItem::Missing(1));
    // Full: the oldest item makes room for the newest.
    queue.push(OutputItem::Missing(2));
    assert_eq!(queue.items.len(), 2);
    match queue.pop_oldest() {
        Some(OutputItem::Missing(s)) => assert_eq!(s, 1),
        _ => panic!("expected the second item"),
    }
    match queue.pop_oldest() {
        Some(OutputItem::Missing(s)) => assert_eq!(s, 2),
        _ => panic!("expected the third item"),
    }
    assert!(queue.pop_oldest().is_none());
}

#[test]
fn deliver_all_totally_orders_any_arrival() {
    // The whole-stream law on the scenario arrival pattern: 0..=99 with 37
    // and 38 swapped and 50 never sent.
    let mut order: Vec<u64> = (0..100).collect();
    order.swap(37, 38);
    let packets: Vec<AudioPacket> = order
        .iter()
        .filter(|&&seq| seq != 50)
        .map(|&seq| make_packet(seq, vec![seq as u8]))
        .collect();
    let mut window = ReorderWindow::new(32, 0);
    let out = window.deliver_all(packets);
    assert_eq!(out.len(), 100);
    for (k, item) in out.iter().enumerate() {
        assert_eq!(item_seq(item), k as u64);
        match item {
            OutputItem::Packet(p) => assert_ne!(p.seq, 50),
            OutputItem::Missing(s) => assert_eq!(*s, 50),
        }
    }
}

#[test]
fn clock_translate_needs_fresh_offset() {
    let clock = ClockSync::new();
    assert_eq!(
        clock.translate(1_000_000, 0).unwrap_err(),
        SessionError::ClockUnavailable
    );

    let mut clock = ClockSync::new();
    clock.update(5_000_000, 4_000_000);
    // Offset is sender - local = 1_000_000.
    assert_eq!(clock.offset_micros, Some(1_000_000));
    assert_eq!(clock.translate(6_000_000, 4_500_000).unwrap(), 5_000_000);
    // Ten seconds later the offset is stale.
    assert_eq!(
        clock.translate(6_000_000, 14_000_001).unwrap_err(),
        SessionError::ClockUnavailable
    );
}

#[test]
fn clock_smoothing_and_drift() {
    let mut clock = ClockSync::new();
    clock.update(1_000_000, 0);
    assert_eq!(clock.offset_micros, Some(1_000_000));
    // A sample 800 above the estimate moves it one eighth of the way.
    clock.update(2_000_800, 1_000_000);
    assert_eq!(clock.offset_micros, Some(1_000_100));
    assert!(!clock.resync_needed);
    // A jump beyond the drift threshold restarts from the sample.
    clock.update(3_500_000, 2_000_000);
    assert_eq!(clock.offset_micros, Some(1_500_000));
    assert!(clock.resync_needed);
}

#[test]
fn tlv_roundtrip_preserves_unknown_tags() {
    let records = vec![
        TlvRecord { tag: 0x01, value: b"alac".to_vec() },
        TlvRecord { tag: 0xee, value: Vec::new() },
        TlvRecord { tag: 0x7f, value: vec![0u8; 255] },
    ];
    let bytes = tlv_encode(&records);
    let decoded = tlv_decode(&bytes).unwrap();
    assert_eq!(decoded.len(), 3);
    for (a, b) in records.iter().zip(decoded.iter()) {
        assert_eq!(a.tag, b.tag);
        assert_eq!(a.value, b.value);
    }
}

#[test]
fn tlv_rejects_truncated_record() {
    let records = vec![TlvRecord { tag: 0x06, value: b"proof".to_vec() }];
    let mut bytes = tlv_encode(&records);
    bytes.pop();
    assert_eq!(tlv_decode(&bytes).unwrap_err(), SessionError::ProtocolError);
    // A lone tag with no length byte is malformed too.
    assert_eq!(
        tlv_decode(&vec![0x06]).unwrap_err(),
        SessionError::ProtocolError
    );
}

fn sample_plist() -> PlistValue {
    PlistValue::Dict(vec![
        PlistEntry { key: b"audioMode".to_vec(), value: PlistValue::Bytes(b"default".to_vec()) },
        PlistEntry {
            key: b"timingPort".to_vec(),
            value: PlistValue::Int(7011),
        },
        PlistEntry {
            key: b"streams".to_vec(),
            value: PlistValue::Array(vec![
                PlistValue::Bool(true),
                PlistValue::Dict(vec![PlistEntry {
                    key: b"type".to_vec(),
                    value: PlistValue::Int(96),
                }]),
            ]),
        },
    ])
}

fn assert_plist_eq(a: &PlistValue, b: &PlistValue) {
    match (a, b) {
        (PlistValue::Bool(x), PlistValue::Bool(y)) => assert_eq!(x, y),
        (PlistValue::Int(x), PlistValue::Int(y)) => assert_eq!(x, y),
        (PlistValue::Bytes(x), PlistValue::Bytes(y)) => assert_eq!(x, y),
        (PlistValue::Array(xs), PlistValue::Array(ys)) => {
            assert_eq!(xs.len(), ys.len());
            for (x, y) in xs.iter().zip(ys.iter()) {
                assert_plist_eq(x, y);
            }
        }
        (PlistValue::Dict(xs), PlistValue::Dict(ys)) => {
            assert_eq!(xs.len(), ys.len());
            for (x, y) in xs.iter().zip(ys.iter()) {
                assert_eq!(x.key, y.key);
                assert_plist_eq(&x.value, &y.value);
            }
        }
        _ => panic!("shapes differ"),
    }
}

#[test]
fn plist_roundtrip_preserves_nested_trees() {
    let value = sample_plist();
    let bytes = plist_encode(&value);
    let (decoded, consumed) = plist_decode(&bytes).unwrap();
    assert_eq!(consumed, bytes.len());
    assert_plist_eq(&decoded, &value);
}

#[test]
fn plist_rejects_truncated_and_unknown_bodies() {
    let value = sample_plist();
    let mut bytes = plist_encode(&value);
    bytes.pop();
    assert_eq!(plist_decode(&bytes).unwrap_err(), SessionError::ProtocolError);
    assert_eq!(
        plist_decode(&vec![0x7f, 0x00]).unwrap_err(),
        SessionError::ProtocolError
    );
    assert_eq!(plist_decode(&Vec::new()).unwrap_err(), SessionError::ProtocolError);
    // A boolean byte other than zero or one is not canonical.
    assert_eq!(
        plist_decode(&vec![0x01, 0x02]).unwrap_err(),
        SessionError::ProtocolError
    );
}

#[test]
fn frame_roundtrip_and_short_reads() {
    let payload: Vec<u8> = b"encrypted frame".to_vec();
    let mut stream = encode_frame(&payload);
    assert_eq!(&stream[..4], &[15, 0, 0, 0]);
    stream.extend_from_slice(b"tail");
    let (decoded, consumed) = decode_frame(&stream).unwrap();
    assert_eq!(decoded, payload);
    assert_eq!(consumed, 4 + payload.len());
    // A stream cut anywhere before the end of the frame yields nothing yet.
    let short = stream[..4 + payload.len() - 1].to_vec();
    assert!(decode_frame(&short).is_none());
    assert!(decode_frame(&stream[..3].to_vec()).is_none());
}

#[test]
fn end_to_end_session_with_swap_and_loss() {
    // Pair.
    let password: Vec<u8> = b"living-room".to_vec();
    let ltk = long_term_key_from_password(&password);
    let client_secret: u64 = 31_415_926;
    let client_public = pow_mod(GROUP_GENERATOR, client_secret);
    let mut server = PairingSession::new(ltk, 27_182_818);
    let server_public = server.begin_verify(client_public).unwrap();
    let proof = pairing_proof(ltk, client_public, server_public);
    let keys = server.complete_verify(&proof).unwrap();
    let client_keys = derive_session_keys(pow_mod(server_public, client_secret));
    assert_eq!(keys, client_keys);

    // Describe a supported codec, configure transport, start streaming.
    let mut session = ControlSession::new(7, FeatureFlags::default_airplay2(), keys);
    session.handle_request(ControlRequest::PairingComplete).unwrap();
    session
        .handle_request(ControlRequest::Describe { codec: CodecKind::Alac, sample_rate: 44_100 })
        .unwrap();
    session.handle_request(ControlRequest::SetupTransport { port: 7001 }).unwrap();
    session.handle_request(ControlRequest::Record { start_timestamp: 0 }).unwrap();
    assert_eq!(session.state, SessionState::Streaming);

    // 100 packets, 37 and 38 swapped, 50 never sent; each sealed with the
    // audio key under its sequence-derived nonce.
    let mut order: Vec<u64> = (0..100).collect();
    order.swap(37, 38);
    let mut window = ReorderWindow::new(32, 0);
    let mut output: Vec<OutputItem> = Vec::new();
    for &seq in order.iter() {
        if seq == 50 {
            continue;
        }
        let body = vec![seq as u8; 4];
        let ad: Vec<u8> = Vec::new();
        let datagram = seal(keys.audio, seq, &body, &ad);
        let opened = open(keys.audio, seq, &datagram, &ad).unwrap();
        assert_eq!(opened, body);
        let packet = AudioPacket { seq, timestamp: (seq as u32) * 441, payload: opened };
        output.extend(window.insert(packet));
    }
    output.extend(window.flush());

    // 100 positions in strictly increasing order with one explicit gap at 50.
    assert_eq!(output.len(), 100);
    let mut packets = 0;
    for (k, item) in output.iter().enumerate() {
        assert_eq!(item_seq(item), k as u64);
        match item {
            OutputItem::Packet(p) => {
                assert_eq!(p.payload, vec![p.seq as u8; 4]);
                packets += 1;
            },
            OutputItem::Missing(s) => assert_eq!(*s, 50),
        }
    }
    assert_eq!(packets, 99);

    // Teardown.
    session.handle_request(ControlRequest::Teardown).unwrap();
    assert_eq!(session.state, SessionState::TornDown);
    assert_eq!(session.keys, None);
}

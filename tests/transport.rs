use ocm_core::transport::{
    screen_message, Verdict, authenticate_message, default_network_secret, encode_frame, frame_length,
    get_message_content_for_hmac, validate_message, verify_message_authentication,
    ConnectionTracker, EnvelopeError, MessageType, RateLimiter, ReplayCache, MAX_MESSAGE_SIZE,
};

const PEER: &str = "123e4567-e89b-12d3-a456-426614174000";
const T0: &str = "2024-01-01T00:00:00+00:00";
const T0_SECS: i64 = 1_704_067_200;

fn message(kind: MessageType, payload: &str) -> ocm_core::transport::NetworkMessage {
    authenticate_message(
        &default_network_secret(),
        kind,
        payload.to_string(),
        PEER.to_string(),
        T0.to_string(),
        &[9u8; 16],
    )
}

#[test]
fn frame_length_limits() {
    assert_eq!(frame_length(&[0xFF, 0xFF, 0xFF, 0xFF]), None);
    assert_eq!(frame_length(&[0x00, 0x10, 0x00, 0x00]), Some(MAX_MESSAGE_SIZE));
    assert_eq!(frame_length(&[0x00, 0x10, 0x00, 0x01]), None);
    assert_eq!(frame_length(&[0, 0, 1, 2]), Some(258));
}

#[test]
fn frame_encoding() {
    assert_eq!(encode_frame(b"abc"), Some(vec![0, 0, 0, 3, b'a', b'b', b'c']));
    let exact = vec![0u8; MAX_MESSAGE_SIZE];
    let framed = encode_frame(&exact).unwrap();
    assert_eq!(&framed[..4], &[0x00, 0x10, 0x00, 0x00]);
    let over = vec![0u8; MAX_MESSAGE_SIZE + 1];
    assert_eq!(encode_frame(&over), None);
}

#[test]
fn hmac_input_layout() {
    let m = message(MessageType::Ping, "ping");
    let expected = format!("\"Ping\":ping:{}:{}:{}", PEER, T0, m.nonce);
    assert_eq!(get_message_content_for_hmac(&m), expected);
    assert_eq!(m.nonce, "CQkJCQkJCQkJCQkJCQkJCQ==");
}

#[test]
fn authentic_message_verifies() {
    let key = default_network_secret();
    let m = message(MessageType::MemorySync, "{\"a\":1}");
    assert_eq!(validate_message(&m), Ok(()));
    assert_eq!(verify_message_authentication(&key, &m, T0_SECS + 10), true);
    // too old
    assert_eq!(verify_message_authentication(&key, &m, T0_SECS + 301), false);
}

#[test]
fn any_field_change_breaks_authentication() {
    let key = default_network_secret();
    let m = message(MessageType::MemorySync, "{\"a\":1}");
    let mut a = m.clone();
    a.payload = "{\"a\":2}".to_string();
    assert_eq!(verify_message_authentication(&key, &a, T0_SECS), false);
    let mut b = m.clone();
    b.message_type = MessageType::Ping;
    assert_eq!(verify_message_authentication(&key, &b, T0_SECS), false);
    let mut c = m.clone();
    c.from_peer = "123e4567-e89b-12d3-a456-426614174001".to_string();
    assert_eq!(verify_message_authentication(&key, &c, T0_SECS), false);
    let mut d = m.clone();
    d.timestamp = "2024-01-01T00:00:01+00:00".to_string();
    assert_eq!(verify_message_authentication(&key, &d, T0_SECS), false);
    let mut e = m.clone();
    e.nonce = "CQkJCQkJCQkJCQkJCQkJCA==".to_string();
    assert_eq!(verify_message_authentication(&key, &e, T0_SECS), false);
    let mut f = m.clone();
    f.timestamp = "yesterday".to_string();
    assert_eq!(verify_message_authentication(&key, &f, T0_SECS), false);
}

#[test]
fn envelope_validation_errors() {
    let m = message(MessageType::Ping, "x");
    let mut a = m.clone();
    a.from_peer = "peer".to_string();
    assert_eq!(validate_message(&a), Err(EnvelopeError::InvalidPeerId));
    let mut b = m.clone();
    b.payload = "x".repeat(MAX_MESSAGE_SIZE + 1);
    assert_eq!(validate_message(&b), Err(EnvelopeError::PayloadTooLarge));
    let mut c = m.clone();
    c.payload = "x".repeat(MAX_MESSAGE_SIZE);
    assert_eq!(validate_message(&c), Ok(()));
    let mut d = m.clone();
    d.timestamp = "nope".to_string();
    assert_eq!(validate_message(&d), Err(EnvelopeError::InvalidTimestamp));
    let mut e = m.clone();
    e.nonce = "***".to_string();
    assert_eq!(validate_message(&e), Err(EnvelopeError::InvalidNonce));
    let mut f = m.clone();
    f.hmac = "***".to_string();
    assert_eq!(validate_message(&f), Err(EnvelopeError::InvalidHmac));
}

#[test]
fn replay_is_rejected_inside_window() {
    let m = message(MessageType::MemorySync, "{}");
    let mut cache = ReplayCache::new();
    let mut rejected = 0;
    assert!(cache.check_replay_protection(&m.nonce, 1000));
    if !cache.check_replay_protection(&m.nonce, 1100) {
        rejected += 1;
    }
    assert_eq!(rejected, 1);
    assert_eq!(cache.rejected, 1);
    assert!(!cache.check_replay_protection(&m.nonce, 1299));
    assert_eq!(cache.rejected, 2);
    assert!(cache.check_replay_protection(&m.nonce, 1300));
}

#[test]
fn sixth_connection_is_refused() {
    let mut t = ConnectionTracker::new();
    for _ in 0..5 {
        assert!(t.check_connection_limit("10.0.0.1").is_ok());
    }
    assert_eq!(
        t.check_connection_limit("10.0.0.1").unwrap_err(),
        "Connection limit exceeded for IP: 10.0.0.1"
    );
    assert!(t.check_connection_limit("10.0.0.2").is_ok());
    t.release_connection("10.0.0.1");
    assert!(t.check_connection_limit("10.0.0.1").is_ok());
}

#[test]
fn sixty_first_message_is_dropped() {
    let mut r = RateLimiter::new();
    for k in 0..60u64 {
        assert!(r.check_rate_limit("1.2.3.4", 5000 + k / 2).is_ok());
    }
    assert!(r.check_rate_limit("1.2.3.4", 5059).is_err());
    assert!(r.check_rate_limit("5.6.7.8", 5059).is_ok());
    assert!(r.check_rate_limit("1.2.3.4", 5060).is_ok());
}

#[test]
fn replayed_frame_is_dropped_once_screened() {
    let key = default_network_secret();
    let m = message(MessageType::MemorySync, "{}");
    let mut rate = RateLimiter::new();
    let mut replay = ReplayCache::new();
    let now = T0_SECS as u64 + 5;
    let mut replays_rejected = 0;
    assert_eq!(screen_message(&mut rate, &mut replay, &key, "9.9.9.9", &m, now), Verdict::Accepted);
    if screen_message(&mut rate, &mut replay, &key, "9.9.9.9", &m, now + 1) == Verdict::Replayed {
        replays_rejected += 1;
    }
    assert_eq!(replays_rejected, 1);
    assert_eq!(replay.rejected, 1);
    let mut forged = m.clone();
    forged.payload = "{\"x\":1}".to_string();
    assert_eq!(screen_message(&mut rate, &mut replay, &key, "9.9.9.9", &forged, now + 2), Verdict::NotAuthentic);
    let mut bad = m.clone();
    bad.from_peer = "nobody".to_string();
    assert_eq!(
        screen_message(&mut rate, &mut replay, &key, "9.9.9.9", &bad, now + 3),
        Verdict::Malformed(ocm_core::transport::EnvelopeError::InvalidPeerId)
    );
}

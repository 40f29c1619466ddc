use ocm_core::claims::ClaimSystem;
use ocm_core::identity::{generate_plc_id, CryptoError, OcmProtocol, PlcIdentity};
use ocm_core::memory::{compute_hash, ClaimError, ClaimToken, SignedMemory};
use ocm_core::store::{like_pattern, MemoryStore};

#[test]
fn content_hash_is_hex_sha256() {
    assert_eq!(
        compute_hash("abc"),
        "ba7816bf8f01cfea414140de5dae2223b00361a396177a9cb410ff61f20015ad"
    );
}

#[test]
fn signing_payload_has_fixed_key_order() {
    let m = SignedMemory::with_fields(
        "id-1".to_string(),
        "did:plc:abc",
        "individual",
        "{}",
        "2024-01-01T00:00:00+00:00".to_string(),
    );
    let expected = format!(
        "{{\"did\":\"did:plc:abc\",\"memory_type\":\"individual\",\"content_hash\":\"{}\",\"timestamp\":\"2024-01-01T00:00:00+00:00\"}}",
        compute_hash("{}")
    );
    assert_eq!(m.get_signing_payload(), expected);
}

#[test]
fn did_has_plc_prefix_and_lowercase_base32() {
    let did = generate_plc_id(&[7u8; 32]);
    assert!(did.starts_with("did:plc:"));
    let id = &did["did:plc:".len()..];
    assert_eq!(id.len(), 39);
    assert!(id.chars().all(|c| c.is_ascii_lowercase() || ('2'..='7').contains(&c)));
    assert_eq!(did, generate_plc_id(&[7u8; 32]));
    assert_ne!(did, generate_plc_id(&[8u8; 32]));
}

#[test]
fn sign_and_verify_round_trip() {
    let identity = PlcIdentity::generate(Some("ocm-demo".to_string()));
    assert!(identity.did.starts_with("did:plc:"));
    let mut m = SignedMemory::new(&identity.did, "individual", "{\"first_name\":\"Test\"}");
    identity.sign_memory(&mut m);
    assert_eq!(identity.verify_memory(&m), Ok(true));
    assert!(m.verify_hash());

    let mut tampered = m.copy();
    tampered.memory_data = "{\"first_name\":\"Tesu\"}".to_string();
    assert!(!tampered.verify_hash());
    assert_eq!(identity.verify_memory(&tampered), Ok(false));

    let other = PlcIdentity::generate(None);
    assert_eq!(other.verify_memory(&m), Ok(false));

    let mut garbled = m.copy();
    garbled.signature = "not base64!".to_string();
    assert_eq!(identity.verify_memory(&garbled), Err(CryptoError::InvalidSignature));
}

#[test]
fn identity_from_secret_is_deterministic() {
    let a = PlcIdentity::from_secret([3u8; 32], None, "t".to_string(), "https://pds");
    let b = PlcIdentity::from_secret([3u8; 32], None, "t".to_string(), "https://pds");
    assert_eq!(a.did, b.did);
    assert_eq!(a.keypair.public_key, b.keypair.public_key);
    assert_eq!(a.keypair.private_key_bytes(), &[3u8; 32]);
}

#[test]
fn attest_without_identity_fails() {
    let protocol = OcmProtocol::new();
    let mut m = SignedMemory::new("did:plc:x", "individual", "{}");
    assert_eq!(protocol.attest_memory(&mut m), Err(CryptoError::NoIdentity));
    assert_eq!(protocol.verify_federated_memory(&m), Ok(false));
    assert!(protocol.get_identity_info().is_none());
}

#[test]
fn claim_token_code_shape() {
    let t = ClaimToken::issue(
        "tid".to_string(),
        "mem",
        "did:plc:org",
        &[0u8; 16],
        "2024-01-01T00:00:00+00:00".to_string(),
        1_704_067_200,
        720,
    )
    .unwrap();
    assert_eq!(t.token, "OCM-AAAAAAAAAAAAAAAA");
    assert!(t.claimed_by_did.is_none());
    assert!(!t.is_expired_at(1_704_067_200));
    assert!(t.is_expired_at(1_704_067_200 + 720 * 3600 + 1));
}

#[test]
fn claim_flow() {
    let mut org = OcmProtocol::new();
    org.create_identity(Some("camp".to_string()));
    let org_did = org.current_identity.as_ref().unwrap().did.clone();
    let mut system = ClaimSystem::new(MemoryStore::new());
    let data = "{\"first_name\":\"Jamie\",\"last_name\":\"Smith\"}";
    let (proxy, token) = system
        .create_proxy_record(&org, &org_did, "Jamie Smith", None, data)
        .unwrap();
    assert!(token.token.starts_with("OCM-"));
    assert_eq!(token.token.len(), 20);
    assert_eq!(proxy.claim_token_id, Some(token.id.clone()));
    assert_eq!(system.db.memories.len(), 1);
    assert_eq!(system.db.memories[0].memory_type, "proxy_individual");
    assert_eq!(system.list_organization_tokens(&org_did).len(), 1);
    assert_eq!(system.search_proxy_records("jamie").len(), 1);
    assert_eq!(system.search_proxy_records("Smyth").len(), 0);

    let mut parent = OcmProtocol::new();
    parent.create_identity(None);
    let parent_did = parent.current_identity.as_ref().unwrap().did.clone();
    let claimed = system
        .claim_proxy_record(&parent, &token.token, &parent_did)
        .unwrap();
    assert_eq!(claimed.did, parent_did);
    assert_eq!(claimed.memory_type, "individual");
    assert_eq!(claimed.memory_data, data);
    assert_eq!(
        parent.current_identity.as_ref().unwrap().verify_memory(&claimed),
        Ok(true)
    );
    let stored = &system.db.tokens[0];
    assert_eq!(stored.claimed_by_did, Some(parent_did.clone()));
    assert!(stored.claimed_timestamp.is_some());
    assert_eq!(system.db.memories.len(), 2);

    let again = system.claim_proxy_record(&parent, &token.token, &parent_did);
    assert_eq!(again.unwrap_err(), ClaimError::AlreadyClaimed);
    let unknown = system.claim_proxy_record(&parent, "OCM-NOPE", &parent_did);
    assert_eq!(unknown.unwrap_err(), ClaimError::TokenNotFound);
}

#[test]
fn expired_token_cannot_be_claimed() {
    let mut t = ClaimToken::issue(
        "tid".to_string(),
        "mem",
        "did:plc:org",
        &[1u8; 16],
        "2024-01-01T00:00:00+00:00".to_string(),
        1_704_067_200,
        1,
    )
    .unwrap();
    let r = t.claim_at("did:plc:p", 1_704_067_200 + 7200, "later".to_string());
    assert_eq!(r, Err(ClaimError::Expired));
    assert!(t.claimed_by_did.is_none());
    assert_eq!(t.claim_at("did:plc:p", 1_704_067_200, "now".to_string()), Ok(()));
    assert_eq!(t.claimed_by_did.as_deref(), Some("did:plc:p"));
    assert_eq!(t.claimed_timestamp.as_deref(), Some("now"));
}

#[test]
fn like_pattern_escapes_wildcards() {
    assert_eq!(like_pattern("a%b_c\\d"), "%a\\%b\\_c\\\\d%");
}

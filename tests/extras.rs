use ocm_core::crdt::CrdtError;
use ocm_core::memory::{ClaimError, ClaimToken, SignedMemory};
use ocm_core::security::AuthContext;
use ocm_core::store::MemoryStore;
use ocm_core::validation::validate_timestamp;
use ocm_core::claims::ClaimSystem;
use ocm_core::identity::OcmProtocol;
use ocm_core::json::JsonValue;
use ocm_core::peers::{accept_memory, recent_memories};
use ocm_core::peers::{handle_discovery_packet, DiscoveryBeacon, DiscoveryPacket, DiscoveryRequest, PeerTable};
use ocm_core::sync::SyncManager;

#[test]
fn memories_by_did_newest_first() {
    let mut store = MemoryStore::new();
    for (id, did, ts) in [
        ("1", "did:plc:a", "2024-01-01T00:00:00+00:00"),
        ("2", "did:plc:b", "2024-01-05T00:00:00+00:00"),
        ("3", "did:plc:a", "2024-01-03T00:00:00+00:00"),
        ("4", "did:plc:a", "2024-01-02T00:00:00+00:00"),
    ] {
        store
            .put_memory(SignedMemory::with_fields(id.to_string(), did, "individual", "{}", ts.to_string()))
            .unwrap();
    }
    let ids: Vec<String> = store.list_memories_by_did("did:plc:a").iter().map(|m| m.id.clone()).collect();
    assert_eq!(ids, vec!["3", "4", "1"]);
    assert!(store.put_memory(SignedMemory::with_fields("1".to_string(), "x", "y", "{}", "t".to_string())).is_err());
    assert_eq!(store.get_memory("2").unwrap().did, "did:plc:b");
    assert!(store.get_memory("9").is_none());
}

#[test]
fn timestamp_validation() {
    assert!(validate_timestamp("2024-01-01T00:00:00Z").is_ok());
    assert_eq!(validate_timestamp("").unwrap_err(), "Timestamp is required");
    assert_eq!(validate_timestamp("yesterday").unwrap_err(), "Invalid timestamp format");
}

#[test]
fn permission_requirement_message() {
    let mut ctx = AuthContext::default();
    assert_eq!(ctx.permissions, vec!["public".to_string()]);
    assert_eq!(ctx.require_permission("write").unwrap_err(), "Required permission: write");
    ctx.permissions.push("admin".to_string());
    assert!(ctx.require_permission("write").is_ok());
}

#[test]
fn crdt_error_messages() {
    assert_eq!(CrdtError::InvalidMemoryData.message(), "Invalid memory data format");
    assert_eq!(CrdtError::OperationFailed("x".to_string()).message(), "Operation failed: x");
}

#[test]
fn fresh_token_claims_once() {
    let mut t = ClaimToken::new("mem", "did:plc:org", 720).unwrap();
    assert!(t.token.starts_with("OCM-") && t.token.len() == 20);
    assert!(!t.is_expired());
    assert_eq!(t.claim("did:plc:p"), Ok(()));
    assert!(t.is_claimed());
    assert_eq!(t.claim("did:plc:q"), Err(ClaimError::AlreadyClaimed));
    let mut old = ClaimToken::new("mem", "did:plc:org", -1).unwrap();
    assert!(old.is_expired());
    assert_eq!(old.claim("did:plc:p"), Err(ClaimError::Expired));
}

#[test]
fn token_issue_range_and_shape() {
    let t = ClaimToken::issue("id".to_string(), "m", "o", &[0xFFu8; 16], "now".to_string(), 0, 720).unwrap();
    assert_eq!(t.token, "OCM-7777777777777777");
    assert!(ClaimToken::issue("id".to_string(), "m", "o", &[0u8; 16], "now".to_string(), 253_402_300_000, 720).is_none());
}

#[test]
fn claim_with_taken_id_is_a_storage_error() {
    let mut org = OcmProtocol::new();
    org.create_identity(None);
    let did = org.current_identity.as_ref().unwrap().did.clone();
    let mut system = ClaimSystem::new(MemoryStore::new());
    let (_, token) = system.create_proxy_record(&org, &did, "Kim", None, "{\"a\":1}").unwrap();
    let taken = system.db.memories[0].id.clone();
    let now = chrono::Utc::now().timestamp();
    let r = system.claim_proxy_record_at(&org, &token.token, "did:plc:p", now, "t".to_string(), taken);
    assert_eq!(r.unwrap_err(), ClaimError::Storage);
    assert!(system.db.tokens[0].claimed_by_did.is_none());
    let m = system
        .claim_proxy_record_at(&org, &token.token, "did:plc:p", now, "t".to_string(), "fresh".to_string())
        .unwrap();
    assert_eq!(m.id, "fresh");
    assert_eq!(system.db.tokens[0].claimed_by_did.as_deref(), Some("did:plc:p"));
    let again = system.claim_proxy_record_at(&org, &token.token, "did:plc:q", now, "t".to_string(), "other".to_string());
    assert_eq!(again.unwrap_err(), ClaimError::AlreadyClaimed);
}

#[test]
fn memories_are_accepted_only_when_verified() {
    let mut p = OcmProtocol::new();
    p.create_identity(None);
    let did = p.current_identity.as_ref().unwrap().did.clone();
    let mut store = MemoryStore::new();
    let mut m = SignedMemory::new(&did, "individual", "{}");
    assert!(!accept_memory(&p, &mut store, m.copy()));
    p.attest_memory(&mut m).unwrap();
    assert!(accept_memory(&p, &mut store, m.copy()));
    assert!(!accept_memory(&p, &mut store, m.copy()));
    assert_eq!(store.memories.len(), 1);
    assert_eq!(recent_memories(&store, 10).len(), 1);
}

#[test]
fn discovery_request_gets_peer_list() {
    let mut t = PeerTable::new();
    let b = DiscoveryBeacon {
        peer_id: "x".to_string(),
        did: None,
        port: 9,
        capabilities: vec![],
        version: "0.1.0".to_string(),
        timestamp: "t".to_string(),
    };
    let caps = vec!["memory-sync".to_string()];
    assert!(handle_discovery_packet(&mut t, &DiscoveryPacket::Beacon(b), "1.2.3.4:5", &"me".to_string(), &None, 80, &caps, "n".to_string()).is_none());
    let req = DiscoveryRequest { requesting_peer_id: "y".to_string(), timestamp: "t".to_string() };
    let (beacon, resp) = handle_discovery_packet(&mut t, &DiscoveryPacket::Request(req), "1.2.3.4:5", &"me".to_string(), &None, 80, &caps, "n".to_string()).unwrap();
    assert_eq!(beacon.peer_id, "me");
    assert_eq!(resp.peers.len(), 1);
    assert_eq!(resp.peers[0].address, "1.2.3.4");
}

#[test]
fn update_memory_field_stores_the_edit() {
    let mut store = MemoryStore::new();
    store
        .put_memory(SignedMemory::with_fields("m1".to_string(), "d", "individual", "{\"a\":1}", "2024-01-01T00:00:00Z".to_string()))
        .unwrap();
    let mut mgr = SyncManager::new("A".to_string(), store);
    mgr.initialize_crdt_from_database();
    mgr.update_memory_field("m1", "a", JsonValue::parse("2").unwrap()).unwrap();
    assert_eq!(mgr.store.memories.len(), 1);
    assert_eq!(mgr.store.memories[0].memory_data, "{\"a\":2}");
    assert!(mgr.store.memories[0].verify_hash());
}

#[test]
fn proxy_record_with_drawn_values() {
    let mut org = OcmProtocol::new();
    org.create_identity(None);
    let did = org.current_identity.as_ref().unwrap().did.clone();
    let mut system = ClaimSystem::new(MemoryStore::new());
    let t = "2024-01-01T00:00:00+00:00".to_string();
    let (proxy, token) = system
        .create_proxy_record_at(&org, &did, "Ann", None, "{}", 1_704_067_200, t.clone(), "m1".to_string(), "t1".to_string(), "p1".to_string(), &[0u8; 16])
        .unwrap();
    assert_eq!(token.token, "OCM-AAAAAAAAAAAAAAAA");
    assert_eq!(token.expiry_timestamp, "2024-01-31T00:00:00+00:00");
    assert_eq!(proxy.id, "p1");
    let again = system.create_proxy_record_at(&org, &did, "Ann", None, "{}", 1_704_067_200, t.clone(), "m1".to_string(), "t2".to_string(), "p2".to_string(), &[0u8; 16]);
    assert_eq!(again.unwrap_err(), ClaimError::Storage);
    let late = system.create_proxy_record_at(&org, &did, "Ann", None, "{}", 253_402_300_000, t.clone(), "m9".to_string(), "t9".to_string(), "p9".to_string(), &[0u8; 16]);
    assert_eq!(late.unwrap_err(), ClaimError::TimeOutOfRange);
    let none = system.create_proxy_record_at(&OcmProtocol::new(), &did, "Ann", None, "{}", 0, t, "m8".to_string(), "t8".to_string(), "p8".to_string(), &[0u8; 16]);
    assert_eq!(none.unwrap_err(), ClaimError::IdentityMissing);
    assert_eq!(system.db.memories.len(), 1);
}

use ocm_core::claims::ClaimSystem;
use ocm_core::identity::{CryptoError, OcmProtocol, PlcDirectory, PlcIdentity};
use ocm_core::memory::SignedMemory;
use ocm_core::store::MemoryStore;
use ocm_core::sync::{detect_conflicts, SyncManager};

fn memory(id: &str, did: &str, data: &str, ts: &str) -> SignedMemory {
    SignedMemory::with_fields(id.to_string(), did, "individual", data, ts.to_string())
}

#[test]
fn sync_manager_round_trip() {
    let mut store_a = MemoryStore::new();
    store_a.put_memory(memory("1", "did:plc:a", "{\"n\":1}", "2024-01-01T00:00:00+00:00")).unwrap();
    let mut store_b = MemoryStore::new();
    store_b.put_memory(memory("2", "did:plc:b", "{\"n\":2}", "2024-01-01T00:00:00+00:00")).unwrap();
    let mut a = SyncManager::new("A".to_string(), store_a);
    let b = SyncManager::new("B".to_string(), store_b);

    let request = a.sync_with_peer(&"B".to_string()).unwrap();
    assert!(a.sync_state.sync_in_progress.is_empty());
    let response = b.handle_sync_request(&request);
    assert_eq!(response.memories.len(), 1);
    assert_eq!(response.missing_hashes.len(), 1);
    let outcome = a.handle_sync_response(response, 1_704_067_300);
    assert_eq!(outcome.stored, 1);
    assert_eq!(outcome.to_send.len(), 1);
    assert_eq!(a.store.memories.len(), 2);
    let stats = a.get_sync_statistics();
    assert_eq!(stats.total_peers_synced, 1);
    assert_eq!(stats.total_memories, 2);
    assert_eq!(stats.unresolved_conflicts, 0);

    // later memories only, after a sync
    let request = a.sync_with_peer(&"B".to_string()).unwrap();
    assert_eq!(request.known_memory_hashes.len(), 0);
    assert!(request.last_sync_timestamp.is_some());
}

#[test]
fn tampered_memory_is_not_stored() {
    let mut a = SyncManager::new("A".to_string(), MemoryStore::new());
    let mut bad = memory("9", "did:plc:x", "{\"n\":9}", "2024-01-01T00:00:00+00:00");
    bad.memory_data = "{\"n\":10}".to_string();
    let response = ocm_core::sync::SyncResponse {
        responding_peer: "B".to_string(),
        memories: vec![bad],
        missing_hashes: vec![],
    };
    let outcome = a.handle_sync_response(response, 0);
    assert_eq!(outcome.stored, 0);
    assert!(a.store.memories.is_empty());
}

#[test]
fn conflicts_between_versions_of_one_author() {
    let ms = vec![
        memory("1", "did:plc:a", "{\"v\":1}", "2024-01-02T00:00:00+00:00"),
        memory("2", "did:plc:a", "{\"v\":2}", "2024-01-01T00:00:00+00:00"),
        memory("3", "did:plc:b", "{\"v\":3}", "2024-01-01T00:00:00+00:00"),
        memory("4", "did:plc:a", "{\"v\":2}", "2024-01-03T00:00:00+00:00"),
    ];
    let found = detect_conflicts(&ms);
    assert_eq!(found.len(), 2);
    assert_eq!(found[0].key, "did:plc:a:individual");
    assert_eq!(found[0].older_memory.id, "2");
    assert_eq!(found[0].newer_memory.id, "1");
    assert_eq!(found[1].older_memory.id, "1");
    assert_eq!(found[1].newer_memory.id, "4");
}

#[test]
fn directory_publishes_and_checks_signatures() {
    let identity = PlcIdentity::generate(Some("ocm-demo".to_string()));
    let mut dir = PlcDirectory::new();
    assert!(!dir.is_cached(&identity.did));
    dir.publish_identity(&identity).unwrap();
    dir.publish_identity(&identity).unwrap();
    assert!(dir.is_cached(&identity.did));
    assert_eq!(dir.get_cached_identities(), vec![identity.did.clone()]);
    let method = dir.local_cache[0].verification_method.as_ref().unwrap();
    assert!(method[0].public_key_multibase.as_ref().unwrap().starts_with('z'));

    let mut m = SignedMemory::new(&identity.did, "individual", "{}");
    identity.sign_memory(&mut m);
    assert_eq!(dir.verify_signature(&m, &identity.keypair.public_key), Ok(true));
    assert_eq!(dir.verify_signature(&m, "AAAA"), Err(CryptoError::InvalidPublicKey));
}

#[test]
fn claim_statistics_count_states() {
    let mut org = OcmProtocol::new();
    org.create_identity(None);
    let did = org.current_identity.as_ref().unwrap().did.clone();
    let mut system = ClaimSystem::new(MemoryStore::new());
    system.create_proxy_record(&org, &did, "A", None, "{}").unwrap();
    let (_, token) = system.create_proxy_record(&org, &did, "B", None, "{}").unwrap();
    system.claim_proxy_record(&org, &token.token, "did:plc:parent").unwrap();
    let now = chrono::Utc::now().timestamp();
    let stats = system.get_claim_statistics_at(&did, now);
    assert_eq!(stats.total_proxy_records, 2);
    assert_eq!(stats.total_tokens_created, 2);
    assert_eq!(stats.tokens_claimed, 1);
    assert_eq!(stats.tokens_expired, 0);
    assert_eq!(stats.tokens_active, 1);
    let later = system.get_claim_statistics_at(&did, now + 31 * 24 * 3600);
    assert_eq!(later.tokens_expired, 2);
    assert_eq!(later.tokens_active, 0);
}

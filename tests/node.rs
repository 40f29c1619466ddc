use ocm_core::config::{ConfigError, OcmConfig};
use ocm_core::peers::{host_part, handle_discovery_beacon, process_message, Action, DiscoveryBeacon, PeerTable};
use ocm_core::transport::{authenticate_message, default_network_secret, MessageType};

#[test]
fn default_config_addresses() {
    let c = OcmConfig::default();
    assert_eq!(c.server_address(), "127.0.0.1:8080");
    assert_eq!(c.discovery_address(), "127.0.0.1:8081");
    assert_eq!(c.validate(true), Ok(()));
}

#[test]
fn config_validation_errors() {
    let mut c = OcmConfig::default();
    c.server.discovery_port = 8080;
    assert_eq!(c.validate(true), Err(ConfigError::SamePorts));
    let c = OcmConfig::default();
    assert_eq!(c.validate(false), Err(ConfigError::DatabaseDirectoryMissing));
    let mut c = OcmConfig::default();
    c.logging.level = "LOUD".to_string();
    assert_eq!(c.validate(true), Err(ConfigError::InvalidLogLevel));
    c.logging.level = "DEBUG".to_string();
    assert_eq!(c.validate(true), Ok(()));
    c.plc.enable_network_calls = true;
    c.plc.directory_url = "not a url".to_string();
    assert_eq!(c.validate(true), Err(ConfigError::InvalidDirectoryUrl));
}

#[test]
fn host_part_of_address() {
    assert_eq!(host_part("10.0.0.1:9000"), "10.0.0.1");
    assert_eq!(host_part("localhost"), "localhost");
}

#[test]
fn beacon_updates_peer_table() {
    let mut t = PeerTable::new();
    let beacon = DiscoveryBeacon {
        peer_id: "peer-one".to_string(),
        did: None,
        port: 7000,
        capabilities: vec![],
        version: "0.1.0".to_string(),
        timestamp: "t".to_string(),
    };
    handle_discovery_beacon(&mut t, &beacon, "192.168.1.5:8081", "now".to_string());
    handle_discovery_beacon(&mut t, &beacon, "192.168.1.6:8081", "later".to_string());
    assert_eq!(t.peers.len(), 1);
    assert_eq!(t.peers[0].address, "192.168.1.6");
    assert_eq!(t.peers[0].port, 7000);
}

#[test]
fn dispatch_by_message_type() {
    let key = default_network_secret();
    let peer = "123e4567-e89b-12d3-a456-426614174000".to_string();
    let mk = |kind: MessageType| {
        authenticate_message(&key, kind, "x".to_string(), peer.clone(), "t".to_string(), &[1u8; 16])
    };
    let mut t = PeerTable::new();
    assert!(matches!(process_message(&mut t, &mk(MessageType::MemoryRequest), "1.1.1.1:5", "a".to_string()), Action::Nothing));
    assert!(matches!(process_message(&mut t, &mk(MessageType::Handshake), "1.1.1.1:5", "a".to_string()), Action::Nothing));
    assert_eq!(t.peers.len(), 1);
    match process_message(&mut t, &mk(MessageType::MemoryRequest), "1.1.1.1:5", "b".to_string()) {
        Action::SendRecentMemories(p, n) => {
            assert_eq!(p.peer_id, peer);
            assert_eq!(n, 10);
        }
        _ => panic!("expected a reply"),
    }
    match process_message(&mut t, &mk(MessageType::MemorySync), "1.1.1.1:5", "c".to_string()) {
        Action::VerifyAndStore(p) => assert_eq!(p, "x"),
        _ => panic!("expected the payload"),
    }
    process_message(&mut t, &mk(MessageType::Ping), "1.1.1.1:5", "d".to_string());
    assert_eq!(t.peers[0].last_seen, "d");
}

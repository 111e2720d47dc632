use paenkodb::config::{Config, DynamicPeer, LogConfig, PeerConfig, SecurityConfig, ServerConfig};
use paenkodb::login::Login;

#[test]
fn login_new_keeps_fields() {
    let login = Login::new("alice".to_string(), "c0ffee".to_string());
    assert_eq!(login.username, "alice");
    assert_eq!(login.hashed_password, "c0ffee");
}

#[test]
fn login_raw_round_trip() {
    let login = Login::new("bob".to_string(), "hash".to_string());
    let raw = login.into_raw();
    assert_eq!(raw, "AwAAAAAAAABib2IEAAAAAAAAAGhhc2g=");
    let back = Login::from_raw(&raw).unwrap();
    assert_eq!(back.username, "bob");
    assert_eq!(back.hashed_password, "hash");
}

#[test]
fn login_raw_of_non_ascii_names() {
    let login = Login::new("zoë".to_string(), "".to_string());
    let back = Login::from_raw(&login.into_raw()).unwrap();
    assert_eq!(back.username, "zoë");
    assert_eq!(back.hashed_password, "");
}

#[test]
fn login_from_bad_raw_is_none() {
    assert!(Login::from_raw("").is_none());
    assert!(Login::from_raw("not base64!").is_none());
    assert!(Login::from_raw("AAAA").is_none());
}

fn sample_config() -> Config {
    Config {
        server: ServerConfig {
            node_id: 1,
            node_address: "127.0.0.1:9000".to_string(),
            community_string: "community".to_string(),
            binding_addr: "127.0.0.1:8000".to_string(),
        },
        peers: vec![
            PeerConfig { node_id: 2, node_address: "127.0.0.1:9001".to_string() },
            PeerConfig { node_id: 3, node_address: "127.0.0.1:9002".to_string() },
        ],
        logs: vec![LogConfig {
            path: "/tmp/log".to_string(),
            lid: "3d30aa56-98b2-4891-aec5-847cee6e1703".to_string(),
        }],
        dynamic_peer: Some(DynamicPeer { node_id: 4, node_address: "127.0.0.1:9003".to_string() }),
        security: SecurityConfig { username: "u".to_string(), password: "p".to_string() },
    }
}

#[test]
fn peers_id_in_order() {
    assert_eq!(sample_config().get_peers_id(), vec![2u64, 3]);
}

#[test]
fn log_id_parses_uuid() {
    let config = sample_config();
    assert_eq!(config.logs[0].get_log_id(), Some(0x3d30aa56_98b2_4891_aec5_847cee6e1703u128));
    let bad = LogConfig { path: "/tmp".to_string(), lid: "nope".to_string() };
    assert_eq!(bad.get_log_id(), None);
}

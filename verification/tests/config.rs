use canweeb::config::{
    default_ack_timeout_ms, default_connect_interval_ms, default_discovery_announce_addr,
    default_discovery_announce_interval_ms, default_discovery_bind, default_discovery_enabled,
    default_discovery_peer_ttl_ms, default_heartbeat_interval_ms, default_max_hops,
    default_node_role, default_node_status_interval_ms, default_peer_relationship,
    default_retention_seconds, default_wifi_ap_password, default_wifi_ap_ssid,
    default_wifi_auto_manage, default_wifi_hotspot_name, default_wifi_interface, AppConfig,
    DiscoveryConfig, NodeConfig, StorageConfig, TransportConfig, WebConfig, WifiConfig,
};

#[test]
fn defaults_have_their_documented_values() {
    assert_eq!(default_retention_seconds(), 86_400);
    assert_eq!(default_node_role(), "generic");
    assert_eq!(default_connect_interval_ms(), 1_500);
    assert_eq!(default_heartbeat_interval_ms(), 1_000);
    assert_eq!(default_ack_timeout_ms(), 2_500);
    assert_eq!(default_max_hops(), 8);
    assert!(default_discovery_enabled());
    assert_eq!(default_discovery_bind(), "0.0.0.0:7060");
    assert_eq!(default_discovery_announce_addr(), "255.255.255.255:7060");
    assert_eq!(default_discovery_announce_interval_ms(), 1_500);
    assert_eq!(default_discovery_peer_ttl_ms(), 8_000);
    assert_eq!(default_wifi_interface(), "wlan0");
    assert!(default_wifi_auto_manage());
    assert_eq!(default_wifi_ap_ssid(), "CANweeb-Parent");
    assert_eq!(default_wifi_ap_password(), "canweeb1234");
    assert_eq!(default_wifi_hotspot_name(), "CANweeb Hotspot");
    assert_eq!(default_node_status_interval_ms(), 2_000);
    assert_eq!(default_peer_relationship(), "peer");
}

#[test]
fn section_defaults() {
    let w = WifiConfig::default();
    assert_eq!(w.interface, "wlan0");
    assert_eq!(w.desired_mode, "generic");
    assert!(w.fallback_networks.is_empty());
    let d = DiscoveryConfig::default();
    assert!(!d.enabled);
    assert_eq!(d.bind, "");
    assert_eq!(d.peer_ttl_ms, 0);
}

fn config_with_root(root: &str) -> AppConfig {
    AppConfig {
        node: NodeConfig { node_id: "n".into(), role: "generic".into(), tags: vec![] },
        storage: StorageConfig { root: root.into(), retention_seconds: 10 },
        web: WebConfig { bind: "127.0.0.1:0".into() },
        transport: TransportConfig {
            usb_listen: None,
            network_listen: None,
            connect_interval_ms: 1,
            heartbeat_interval_ms: 1,
            ack_timeout_ms: 1,
            max_hops: 1,
        },
        discovery: DiscoveryConfig::default(),
        wifi: WifiConfig::default(),
        peers: vec![],
        loaded_from: None,
    }
}

#[test]
fn relative_storage_root_follows_the_config_file() {
    let mut c = config_with_root("data");
    c.normalize_paths("/etc/canweeb/node.toml");
    assert_eq!(c.storage.root, "/etc/canweeb/data");
    let mut abs = config_with_root("/var/lib/canweeb");
    abs.normalize_paths("/etc/canweeb/node.toml");
    assert_eq!(abs.storage.root, "/var/lib/canweeb");
    let mut bare = config_with_root("data");
    bare.normalize_paths("node.toml");
    assert_eq!(bare.storage.root, "data");
    let mut top = config_with_root("data");
    top.normalize_paths("/");
    assert_eq!(top.storage.root, "./data");
    let mut root_dir = config_with_root("data");
    root_dir.normalize_paths("/node.toml");
    assert_eq!(root_dir.storage.root, "/data");
}

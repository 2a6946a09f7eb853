use canweeb::config::PeerConfig;
use canweeb::mesh::{PeerLinkStatus, PeerPolicy};
use canweeb::status::{
    build_peer_statuses, discovered_peer, endpoint_text, finalize_peer, list_peer_policies, normalize_policy, peer_policy_for,
    update_peer_policy, DiscoveredPeer, NodeRuntimeReport,
};
use canweeb::table::Table;

fn strings(v: &[&str]) -> Vec<String> {
    v.iter().map(|s| s.to_string()).collect()
}

fn policy(id: &str, rel: &str, order: &[&str]) -> PeerPolicy {
    PeerPolicy { node_id: id.into(), role: Some("arm".into()), relationship: rel.into(), preferred_transport_order: strings(order) }
}

fn link(rtt: Option<u64>) -> PeerLinkStatus {
    PeerLinkStatus { transport: "usb".into(), remote_addr: "a".into(), connected_at_ms: 1, last_rx_ms: Some(2), last_rtt_ms: rtt, quality: "excellent".into() }
}

#[test]
fn policies_are_normalized_and_listed_in_order() {
    let mut book: Table<PeerPolicy> = Table::new();
    let p = update_peer_policy(&mut book, &policy("zeta", "  ", &["WIFI"]));
    assert_eq!(p.relationship, "peer");
    assert_eq!(p.preferred_transport_order, strings(&["network", "usb"]));
    update_peer_policy(&mut book, &policy("alpha", " child ", &["usb"]));
    let listed = list_peer_policies(&book);
    assert_eq!(listed.iter().map(|p| p.node_id.as_str()).collect::<Vec<_>>(), vec!["alpha", "zeta"]);
    assert_eq!(listed[0].relationship, "child");
    let d = peer_policy_for(&book, "nobody");
    assert_eq!(d.relationship, "peer");
    assert_eq!(d.role, None);
    assert_eq!(d.preferred_transport_order, strings(&["usb", "network"]));
    let n = normalize_policy(&policy("x", "boss", &[]));
    assert_eq!(n.relationship, "boss");
}

#[test]
fn statuses_merge_sources_and_sort_by_id() {
    let config = vec![PeerConfig {
        node_id: "cfg".into(),
        usb_addr: None,
        network_addr: Some("10.0.0.9:7000".into()),
        role: None,
        relationship: "peer".into(),
        preferred_transport_order: vec![],
        tags: strings(&["arm"]),
    }];
    let mut book: Table<PeerPolicy> = Table::new();
    update_peer_policy(&mut book, &policy("disc", "child", &["usb"]));
    let discovered = vec![
        ("disc".to_string(), DiscoveredPeer { network_addr: "10.0.0.2:7000".into(), web_url: None, tags: strings(&["cam"]), last_seen_ms: 9_500 }),
        ("cfg".to_string(), DiscoveredPeer { network_addr: "10.0.0.3:7000".into(), web_url: Some("http://x".into()), tags: strings(&["other"]), last_seen_ms: 1_000 }),
    ];
    let links = vec![("linked".to_string(), vec![link(Some(30)), link(Some(12))])];
    let mut reports: Table<NodeRuntimeReport> = Table::new();
    reports.insert(
        "cfg".to_string(),
        NodeRuntimeReport {
            node_id: "cfg".into(),
            role: "generic".into(),
            uptime_ms: 77,
            pending_queue: 1,
            inbox_items: 2,
            wifi_mode: "client".into(),
            wifi_ssid: Some("home".into()),
            wifi_signal: Some(80),
            power_state: "sleeping".into(),
            timestamp_ms: 9_900,
        },
    );
    let out = build_peer_statuses(&config, &book, &discovered, links, &reports, 10_000, 8_000);
    let ids: Vec<&str> = out.iter().map(|p| p.node_id.as_str()).collect();
    assert_eq!(ids, vec!["cfg", "disc", "linked"]);

    let cfg = &out[0];
    assert!(cfg.configured && cfg.discovered);
    assert_eq!(cfg.tags, strings(&["arm"]));
    assert_eq!(cfg.advertised_network_addr.as_deref(), Some("10.0.0.3:7000"));
    assert_eq!(cfg.last_seen_ms, Some(9_900));
    assert!(cfg.alive);
    assert_eq!(cfg.power_state, "sleeping");
    assert_eq!(cfg.connection_quality, "good");
    assert_eq!(cfg.uptime_ms, Some(77));

    let disc = &out[1];
    assert!(!disc.configured && disc.discovered);
    assert_eq!(disc.relationship, "child");
    assert_eq!(disc.tags, strings(&["cam"]));
    assert!(disc.alive);
    assert_eq!(disc.power_state, "awake");
    assert_eq!(disc.connection_quality, "discovered");

    let linked = &out[2];
    assert!(!linked.configured && !linked.discovered);
    assert_eq!(linked.links.len(), 2);
    assert_eq!(linked.last_rtt_ms, Some(12));
    assert_eq!(linked.connection_quality, "excellent");
    assert_eq!(linked.preferred_transport_order, strings(&["usb", "network"]));
}

#[test]
fn stale_peers_are_offline() {
    let discovered = vec![("old".to_string(), DiscoveredPeer { network_addr: "x".into(), web_url: None, tags: vec![], last_seen_ms: 100 })];
    let out = build_peer_statuses(&[], &Table::new(), &discovered, vec![], &Table::new(), 100_000, 8_000);
    assert_eq!(out.len(), 1);
    assert!(!out[0].alive);
    assert_eq!(out[0].power_state, "unknown");
    assert_eq!(out[0].connection_quality, "offline");
    let again = finalize_peer(out[0].clone(), None, None, 100, 8_000);
    assert!(again.alive);
}

#[test]
fn discovery_builds_address_from_sender_ip_and_announced_port() {
    let p = discovered_peer("me", "arm-1", Some(7000), Some((192, 168, 1, 20)), Some(8080), strings(&["cam"]), 42)
        .expect("peer");
    assert_eq!(p.network_addr, "192.168.1.20:7000");
    assert_eq!(p.web_url.as_deref(), Some("http://192.168.1.20:8080"));
    assert_eq!(p.tags, strings(&["cam"]));
    assert_eq!(p.last_seen_ms, 42);
}

#[test]
fn discovery_without_web_port_has_no_web_url() {
    let p = discovered_peer("me", "arm-1", Some(1), Some((10, 0, 0, 255)), None, vec![], 0).expect("peer");
    assert_eq!(p.network_addr, "10.0.0.255:1");
    assert_eq!(p.web_url, None);
}

#[test]
fn discovery_ignores_own_id_missing_port_and_non_ipv4() {
    assert!(discovered_peer("me", "me", Some(7000), Some((10, 0, 0, 1)), None, vec![], 0).is_none());
    assert!(discovered_peer("me", "other", None, Some((10, 0, 0, 1)), None, vec![], 0).is_none());
    assert!(discovered_peer("me", "other", Some(7000), None, Some(80), vec![], 0).is_none());
}

#[test]
fn endpoint_text_formats_each_octet_in_decimal() {
    assert_eq!(endpoint_text((0, 9, 10, 100), 65535), "0.9.10.100:65535");
}

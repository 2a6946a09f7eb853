use canweeb::mesh::{
    add_subscriptions, remove_subscriptions, classify_link_quality, default_transport_order, min_link_rtt, node_status_topic,
    normalize_transport_order, outbound_hops, peer_priority, pending_action,
    remove_after_dispatch, should_retry, sort_candidates_for_message, stores_in_inbox,
    summarize_peer_quality, updates_topic, PeerLinkStatus, PeerRegistry, PendingAction,
    discovery_fresh, resolve_network_addr, status_topic_node,
};
use canweeb::config::PeerConfig;
use canweeb::protocol::{DeliveryTarget, TrafficClass, TransportKind};

fn strings(v: &[&str]) -> Vec<String> {
    v.iter().map(|s| s.to_string()).collect()
}

fn link(transport: &str, rtt: Option<u64>) -> PeerLinkStatus {
    PeerLinkStatus {
        transport: transport.into(),
        remote_addr: "addr".into(),
        connected_at_ms: 0,
        last_rx_ms: None,
        last_rtt_ms: rtt,
        quality: String::new(),
    }
}

#[test]
fn transport_orders() {
    assert_eq!(default_transport_order(), strings(&["usb", "network"]));
    assert_eq!(normalize_transport_order(&strings(&[" WiFi ", "bogus", "USB"])), strings(&["network", "usb"]));
    assert_eq!(normalize_transport_order(&strings(&[])), strings(&["usb", "network"]));
    assert_eq!(normalize_transport_order(&strings(&["network"])), strings(&["network", "usb"]));
    let once = normalize_transport_order(&strings(&["wifi", "wifi", "usb"]));
    assert_eq!(once, strings(&["network", "network", "usb"]));
    assert_eq!(normalize_transport_order(&once), once);
}

#[test]
fn candidates_named_by_the_target_come_first() {
    let target = DeliveryTarget::Nodes(strings(&["c", "a"]));
    let mut peers = strings(&["a", "b", "c", "d"]);
    sort_candidates_for_message(&mut peers, &target);
    assert_eq!(peers, strings(&["a", "c", "b", "d"]));
    let mut peers = strings(&["x", "y"]);
    sort_candidates_for_message(&mut peers, &DeliveryTarget::Broadcast);
    assert_eq!(peers, strings(&["x", "y"]));
    assert_eq!(peer_priority("y", Some(&DeliveryTarget::Node("y".into()))), 0);
    assert_eq!(peer_priority("y", Some(&DeliveryTarget::Broadcast)), 1);
    assert_eq!(peer_priority("y", None), 1);
}

#[test]
fn pending_message_decisions() {
    let b = DeliveryTarget::Broadcast;
    assert_eq!(pending_action(3, 3, TrafficClass::Telemetry, &b, "me"), PendingAction::Remove);
    assert_eq!(pending_action(3, 3, TrafficClass::Control, &b, "me"), PendingAction::Keep);
    assert_eq!(pending_action(0, 3, TrafficClass::Control, &b, "me"), PendingAction::Forward);
    let here = DeliveryTarget::Node("me".into());
    assert_eq!(pending_action(0, 3, TrafficClass::Stream, &here, "me"), PendingAction::Remove);
    assert!(should_retry(true, None, 10, 100, false));
    assert!(!should_retry(true, Some(50), 100, 100, false));
    assert!(should_retry(true, Some(0), 100, 100, false));
    assert!(!should_retry(true, Some(500), 100, 1, false));
    assert!(!should_retry(false, None, 0, 0, true));
    assert_eq!(outbound_hops(2, 3), Some(3));
    assert_eq!(outbound_hops(3, 3), None);
    assert_eq!(outbound_hops(255, 255), Some(255));
    assert!(remove_after_dispatch(TrafficClass::Telemetry, true));
    assert!(!remove_after_dispatch(TrafficClass::Control, true));
    assert!(stores_in_inbox(TrafficClass::Control, &here, "me"));
    assert!(!stores_in_inbox(TrafficClass::Stream, &here, "me"));
    assert!(!stores_in_inbox(TrafficClass::Control, &here, "other"));
    assert!(updates_topic(TrafficClass::Telemetry, "imu"));
    assert!(!updates_topic(TrafficClass::Telemetry, ""));
    assert!(!updates_topic(TrafficClass::Control, "imu"));
    assert_eq!(node_status_topic("n1"), "sys/node_status/n1");
}

#[test]
fn quality_words() {
    assert_eq!(summarize_peer_quality(&[link("usb", Some(5))], None, false), "offline");
    assert_eq!(summarize_peer_quality(&[link("usb", Some(90)), link("network", Some(15))], None, true), "excellent");
    assert_eq!(summarize_peer_quality(&[link("usb", Some(80))], None, true), "good");
    assert_eq!(summarize_peer_quality(&[link("usb", Some(200))], None, true), "fair");
    assert_eq!(summarize_peer_quality(&[link("usb", Some(201))], None, true), "poor");
    assert_eq!(summarize_peer_quality(&[link("usb", None)], Some(80), true), "good");
    assert_eq!(summarize_peer_quality(&[link("usb", None)], Some(50), true), "fair");
    assert_eq!(summarize_peer_quality(&[link("usb", None)], Some(10), true), "poor");
    assert_eq!(summarize_peer_quality(&[link("usb", None)], None, true), "connected");
    assert_eq!(summarize_peer_quality(&[], None, true), "discovered");
    assert_eq!(min_link_rtt(&[link("usb", Some(9)), link("x", None), link("y", Some(3))]), Some(3));
    assert_eq!(classify_link_quality("usb", Some(10), None), "excellent");
    assert_eq!(classify_link_quality("usb", Some(40), None), "good");
    assert_eq!(classify_link_quality("usb", Some(41), None), "fair");
    assert_eq!(classify_link_quality("usb", None, Some(99)), "connected");
    assert_eq!(classify_link_quality("network", Some(5), Some(20)), "poor");
    assert_eq!(classify_link_quality("network", Some(100), None), "fair");
    assert_eq!(classify_link_quality("network", Some(121), None), "poor");
    assert_eq!(classify_link_quality("network", None, None), "connected");
}

#[test]
fn registry_tracks_links() {
    let mut r = PeerRegistry::new();
    r.register("p1".into(), TransportKind::Usb, 11, "usb0".into());
    r.register("p1".into(), TransportKind::Wifi, 12, "10.0.0.2:7000".into());
    assert!(r.has_link("p1", TransportKind::Usb));
    assert!(r.has_link("p1", TransportKind::Wifi));
    assert!(!r.has_link("p2", TransportKind::Usb));
    assert_eq!(r.best_sender("p1", &strings(&["network", "usb"])), Some((TransportKind::Wifi, 12)));
    assert_eq!(r.best_sender("p1", &strings(&["usb"])), Some((TransportKind::Usb, 11)));
    assert_eq!(r.best_sender("p1", &strings(&["bogus"])), None);
    r.record_rtt("p1", TransportKind::Usb, 7);
    r.touch_rx("p1", TransportKind::Wifi);
    // A stale connection id leaves the link in place.
    r.unregister("p1", TransportKind::Usb, 99);
    assert!(r.has_link("p1", TransportKind::Usb));
    r.unregister("p1", TransportKind::Usb, 11);
    assert!(!r.has_link("p1", TransportKind::Usb));
    assert_eq!(r.connected_peer_ids(), strings(&["p1"]));
    r.unregister("p1", TransportKind::Wifi, 12);
    assert!(r.connected_peer_ids().is_empty());
}

#[test]
fn subscriptions_add_once_and_remove() {
    let mut topics = vec!["imu".to_string()];
    add_subscriptions(&mut topics, vec!["odom".to_string(), "imu".to_string(), "cam".to_string(), "odom".to_string()]);
    assert_eq!(topics, vec!["imu", "odom", "cam"]);
    remove_subscriptions(&mut topics, &vec!["imu".to_string(), "lidar".to_string()]);
    assert_eq!(topics, vec!["odom", "cam"]);
}

fn peer_at(id: &str, addr: Option<&str>) -> PeerConfig {
    PeerConfig {
        node_id: id.into(),
        usb_addr: None,
        network_addr: addr.map(|a| a.to_string()),
        role: None,
        relationship: "peer".into(),
        preferred_transport_order: vec![],
        tags: vec![],
    }
}

#[test]
fn discovered_address_used_while_fresh() {
    assert!(discovery_fresh(1_000, 9_000, 8_000));
    assert!(!discovery_fresh(1_000, 9_001, 8_000));
    assert!(discovery_fresh(5_000, 1_000, 0));
    let peers = vec![peer_at("a", None), peer_at("b", Some("10.0.0.2:7002")), peer_at("b", Some("10.0.0.3:7002"))];
    assert_eq!(
        resolve_network_addr(Some(("192.168.1.5:7002", 1_000)), &peers, "b", 2_000, 8_000),
        Some("192.168.1.5:7002".to_string())
    );
    assert_eq!(
        resolve_network_addr(Some(("192.168.1.5:7002", 1_000)), &peers, "b", 20_000, 8_000),
        Some("10.0.0.2:7002".to_string())
    );
    assert_eq!(resolve_network_addr(None, &peers, "a", 0, 8_000), None);
    assert_eq!(resolve_network_addr(None, &peers, "zzz", 0, 8_000), None);
}

#[test]
fn status_topics_name_their_node() {
    assert_eq!(status_topic_node(&node_status_topic("pi-7")), Some("pi-7".to_string()));
    assert_eq!(status_topic_node("sys/node_status/"), Some(String::new()));
    assert_eq!(status_topic_node("sys/node_stat"), None);
    assert_eq!(status_topic_node("app/sys/node_status/x"), None);
}

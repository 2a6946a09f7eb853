use canweeb::protocol::{payload_preview, preview_from_text, DeliveryTarget, ProtocolError, TrafficClass};

#[test]
fn traffic_class_parses_names_in_any_case() {
    assert_eq!(TrafficClass::parse("control").unwrap(), TrafficClass::Control);
    assert_eq!(TrafficClass::parse("  TeLeMeTrY \n").unwrap(), TrafficClass::Telemetry);
    assert_eq!(TrafficClass::parse("STREAM").unwrap(), TrafficClass::Stream);
    match TrafficClass::parse(" Bulk ") {
        Err(ProtocolError::UnknownTrafficClass(s)) => assert_eq!(s, "bulk"),
        other => panic!("unexpected {other:?}"),
    }
}

#[test]
fn traffic_class_label_round_trips_and_policies() {
    for c in [TrafficClass::Control, TrafficClass::Telemetry, TrafficClass::Stream] {
        assert_eq!(TrafficClass::parse(c.label()).unwrap(), c);
    }
    assert!(TrafficClass::Control.requires_ack());
    assert!(!TrafficClass::Telemetry.requires_ack());
    assert!(TrafficClass::Control.should_persist_queue());
    assert!(!TrafficClass::Stream.should_persist_inbox());
    assert!(TrafficClass::Telemetry.should_store_inbox());
    assert!(!TrafficClass::Stream.should_store_inbox());
    assert_eq!(TrafficClass::Control.dispatch_priority(), 0);
    assert_eq!(TrafficClass::Telemetry.dispatch_priority(), 1);
    assert_eq!(TrafficClass::Stream.dispatch_priority(), 2);
    assert_eq!(TrafficClass::default(), TrafficClass::Control);
}

#[test]
fn delivery_target_parses_all_forms() {
    assert!(matches!(DeliveryTarget::parse(" BroadCast ").unwrap(), DeliveryTarget::Broadcast));
    match DeliveryTarget::parse("node: alpha ").unwrap() {
        DeliveryTarget::Node(n) => assert_eq!(n, "alpha"),
        other => panic!("unexpected {other:?}"),
    }
    match DeliveryTarget::parse("nodes: a, ,b,,c ").unwrap() {
        DeliveryTarget::Nodes(ns) => assert_eq!(ns, vec!["a", "b", "c"]),
        other => panic!("unexpected {other:?}"),
    }
    match DeliveryTarget::parse("  beta ").unwrap() {
        DeliveryTarget::Node(n) => assert_eq!(n, "beta"),
        other => panic!("unexpected {other:?}"),
    }
    assert_eq!(DeliveryTarget::parse("node:  ").unwrap_err(), ProtocolError::EmptyTargetNode);
    assert_eq!(DeliveryTarget::parse("nodes: , ,").unwrap_err(), ProtocolError::EmptyTargetList);
}

#[test]
fn delivery_target_label_round_trips() {
    let targets = vec![
        DeliveryTarget::Broadcast,
        DeliveryTarget::Node("n1".to_string()),
        DeliveryTarget::Nodes(vec!["a".to_string(), "b c".to_string()]),
    ];
    for t in targets {
        let label = t.label();
        let back = DeliveryTarget::parse(&label).unwrap();
        assert_eq!(back.label(), label);
    }
    assert_eq!(DeliveryTarget::Nodes(vec!["x".into(), "y".into()]).label(), "nodes:x,y");
    assert_eq!(DeliveryTarget::Node("z".into()).label(), "node:z");
}

#[test]
fn delivery_target_matching_and_forwarding() {
    let b = DeliveryTarget::Broadcast;
    assert!(b.matches("anyone"));
    assert!(b.requires_forwarding_after("anyone"));
    let one = DeliveryTarget::Node("me".into());
    assert!(one.matches("me"));
    assert!(!one.matches("you"));
    assert!(!one.requires_forwarding_after("me"));
    assert!(one.requires_forwarding_after("you"));
    let many = DeliveryTarget::Nodes(vec!["me".into(), "you".into()]);
    assert!(many.matches("you"));
    assert!(!many.matches("them"));
    assert!(many.requires_forwarding_after("me"));
    let only_me = DeliveryTarget::Nodes(vec!["me".into(), "me".into()]);
    assert!(!only_me.requires_forwarding_after("me"));
}

#[test]
fn payload_previews() {
    assert_eq!(payload_preview("text/plain", b"hello"), "hello");
    assert_eq!(payload_preview("application/json", b"{\"a\":1}"), "{\"a\":1}");
    assert_eq!(payload_preview("application/octet-stream", &[1, 2, 3]), "<binary: 3 bytes>");
    assert_eq!(payload_preview("text/plain", &[0xff, 0xfe]), "<invalid utf8: 2 bytes>");
    let long = "x".repeat(200);
    assert_eq!(payload_preview("text/plain", long.as_bytes()).chars().count(), 160);
    assert_eq!(preview_from_text("image/png", Some("ignored"), 10), "<binary: 10 bytes>");
}

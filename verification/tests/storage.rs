use canweeb::protocol::{DeliveryTarget, Envelope, TrafficClass};
use canweeb::storage::{InboxEntry, StorageData, StoredMessage, MAX_TRANSIENT_SEEN};

fn envelope(id: u128, class: TrafficClass, created_at_ms: u64) -> Envelope {
    Envelope {
        message_id: id,
        source_node: "node-a".to_string(),
        target: DeliveryTarget::Broadcast,
        traffic_class: class,
        topic: String::new(),
        subject: "s".to_string(),
        content_type: "text/plain".to_string(),
        created_at_ms,
        ttl: 4,
        hops: 0,
        payload: b"hi".to_vec(),
    }
}

fn queue(store: &mut StorageData, id: u128, class: TrafficClass, created: u64, stored: u64) -> bool {
    if store.is_seen(id) {
        return false;
    }
    store.record_queued(StoredMessage::new(envelope(id, class, created), None, stored));
    true
}

#[test]
fn queued_message_is_not_queued_twice() {
    let mut s = StorageData::new();
    assert!(queue(&mut s, 1, TrafficClass::Control, 10, 100));
    assert!(!queue(&mut s, 1, TrafficClass::Control, 10, 100));
    assert!(queue(&mut s, 2, TrafficClass::Telemetry, 10, 100));
    assert!(!queue(&mut s, 2, TrafficClass::Telemetry, 10, 100));
    assert_eq!(s.counts(), (2, 0));
}

#[test]
fn removed_control_message_stays_seen() {
    let mut s = StorageData::new();
    assert!(queue(&mut s, 7, TrafficClass::Control, 1, 1));
    let removed = s.remove_message(7).unwrap();
    assert_eq!(removed.envelope.message_id, 7);
    assert!(s.remove_message(7).is_none());
    assert!(s.is_seen(7));
    assert!(!queue(&mut s, 7, TrafficClass::Control, 1, 1));
}

#[test]
fn transient_window_forgets_the_oldest() {
    let mut s = StorageData::new();
    for id in 0..(MAX_TRANSIENT_SEEN as u128 + 1) {
        s.record_inbox(InboxEntry { envelope: envelope(id, TrafficClass::Stream, 0), received_at_ms: 0 });
    }
    assert!(!s.is_seen(0));
    assert!(s.is_seen(1));
    assert!(s.is_seen(MAX_TRANSIENT_SEEN as u128));
    assert!(s.has_inbox(0));
}

#[test]
fn acks_are_kept_sorted_and_once() {
    let mut s = StorageData::new();
    queue(&mut s, 5, TrafficClass::Control, 0, 0);
    assert!(s.mark_ack(5, "node-c"));
    assert!(s.mark_ack(5, "node-b"));
    assert!(s.mark_dispatched(5, "node-c"));
    assert!(!s.mark_ack(6, "node-b"));
    let m = s.get_message(5).unwrap();
    assert_eq!(m.acked_peers, vec!["node-b".to_string(), "node-c".to_string()]);
}

#[test]
fn attempts_are_recorded_per_peer() {
    let mut s = StorageData::new();
    queue(&mut s, 5, TrafficClass::Control, 0, 0);
    assert!(s.record_attempt(5, "node-b", 40));
    assert!(s.record_attempt(5, "node-b", 90));
    assert!(!s.record_attempt(9, "node-b", 90));
    let m = s.get_message(5).unwrap();
    assert_eq!(m.last_attempt_ms_by_peer.get("node-b"), Some(&90));
}

#[test]
fn pending_messages_come_by_class_then_age() {
    let mut s = StorageData::new();
    queue(&mut s, 1, TrafficClass::Stream, 5, 0);
    queue(&mut s, 2, TrafficClass::Telemetry, 9, 0);
    queue(&mut s, 3, TrafficClass::Control, 30, 0);
    queue(&mut s, 4, TrafficClass::Control, 20, 0);
    let ids: Vec<u128> = s.pending_messages().iter().map(|m| m.envelope.message_id).collect();
    assert_eq!(ids, vec![4, 3, 2, 1]);
}

#[test]
fn inbox_lists_latest_first() {
    let mut s = StorageData::new();
    for (id, at) in [(1u128, 50u64), (2, 70), (3, 60)] {
        s.record_inbox(InboxEntry { envelope: envelope(id, TrafficClass::Control, 0), received_at_ms: at });
    }
    let ids: Vec<u128> = s.list_inbox().iter().map(|e| e.envelope.message_id).collect();
    assert_eq!(ids, vec![2, 3, 1]);
    assert_eq!(s.get_inbox(3).unwrap().received_at_ms, 60);
    assert!(s.get_inbox(4).is_none());
}

#[test]
fn cleanup_drops_only_old_messages() {
    let mut s = StorageData::new();
    queue(&mut s, 1, TrafficClass::Control, 0, 100);
    queue(&mut s, 2, TrafficClass::Control, 0, 500);
    queue(&mut s, 3, TrafficClass::Control, 0, 900);
    let removed = s.cleanup_queue(1000, 500);
    let mut ids: Vec<u128> = removed.iter().map(|m| m.envelope.message_id).collect();
    ids.sort();
    assert_eq!(ids, vec![1, 2]);
    assert_eq!(s.counts(), (1, 0));
    assert!(s.cleanup_queue(10, 500).is_empty());
    let mut expired = s.expired_ids(900);
    expired.sort();
    assert_eq!(expired, vec![3]);
}

#[test]
fn restored_store_remembers_everything() {
    let msgs = vec![StoredMessage::new(envelope(1, TrafficClass::Control, 0), Some("peer".to_string()), 3)];
    let inbox = vec![InboxEntry { envelope: envelope(2, TrafficClass::Telemetry, 0), received_at_ms: 4 }];
    let s = StorageData::restore(msgs, inbox, vec![9]);
    assert_eq!(s.counts(), (1, 1));
    assert!(s.is_seen(1) && s.is_seen(2) && s.is_seen(9));
    assert!(!s.is_seen(3));
    assert_eq!(s.get_message(1).unwrap().ingress_peer.as_deref(), Some("peer"));
}

#[test]
fn messages_offered_to_other_peers_until_acked() {
    let mut m = StoredMessage::new(envelope(9, TrafficClass::Control, 0), Some("from".to_string()), 0);
    assert!(!m.offer_to("me", "me", 0, 2_500));
    assert!(!m.offer_to("from", "me", 0, 2_500));
    assert!(m.offer_to("other", "me", 0, 2_500));
    m.last_attempt_ms_by_peer.insert("other".to_string(), 1_000);
    assert!(!m.offer_to("other", "me", 3_499, 2_500));
    assert!(m.offer_to("other", "me", 3_500, 2_500));
    m.acked_peers.push("other".to_string());
    assert!(!m.offer_to("other", "me", 10_000, 2_500));
    let mut t = StoredMessage::new(envelope(10, TrafficClass::Telemetry, 0), None, 0);
    t.last_attempt_ms_by_peer.insert("other".to_string(), 1_000);
    assert!(t.offer_to("other", "me", 1_001, 2_500));
}

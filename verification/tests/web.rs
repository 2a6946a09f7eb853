use canweeb::protocol::{split_chunks, stream_frames, DeliveryTarget, Envelope, TrafficClass};
use canweeb::storage::{InboxEntry, StorageData};
use canweeb::web::{
    find_inbox, inbox_detail, inbox_summary, plan_send, uuid_string, InboxLookupError, SendError,
    SendMessageRequest,
};

fn request(target: &str) -> SendMessageRequest {
    SendMessageRequest {
        target: target.to_string(),
        traffic_class: None,
        subject: None,
        content_type: None,
        text: Some("héllo".to_string()),
        payload_base64: None,
        ttl: None,
    }
}

#[test]
fn send_requests_fill_in_defaults() {
    let plan = plan_send(request("node:node-b")).unwrap();
    assert!(matches!(plan.target, DeliveryTarget::Node(ref n) if n == "node-b"));
    assert_eq!(plan.traffic_class, TrafficClass::Control);
    assert_eq!(plan.subject, "untitled");
    assert_eq!(plan.content_type, "text/plain; charset=utf-8");
    assert_eq!(plan.payload, "héllo".as_bytes().to_vec());
    assert_eq!(plan.ttl, None);
}

#[test]
fn send_requests_with_base64_and_class() {
    let mut r = request("broadcast");
    r.payload_base64 = Some("aGk=".to_string());
    r.traffic_class = Some(" Telemetry ".to_string());
    r.ttl = Some(3);
    let plan = plan_send(r).unwrap();
    assert_eq!(plan.payload, b"hi".to_vec());
    assert_eq!(plan.content_type, "application/octet-stream");
    assert_eq!(plan.traffic_class, TrafficClass::Telemetry);
    assert_eq!(plan.ttl, Some(3));
}

#[test]
fn send_requests_refused_in_order() {
    let e = plan_send(request("node:")).unwrap_err();
    assert!(matches!(e, SendError::InvalidTarget(_)));
    assert_eq!(e.message(), "invalid target");
    let mut r = request("broadcast");
    r.payload_base64 = Some("***".to_string());
    r.traffic_class = Some("bogus".to_string());
    let e = plan_send(r).unwrap_err();
    assert!(matches!(e, SendError::InvalidBase64));
    assert_eq!(e.message(), "payload_base64 is not valid base64");
    let mut r = request("broadcast");
    r.traffic_class = Some("bogus".to_string());
    let e = plan_send(r).unwrap_err();
    assert_eq!(e.message(), "invalid traffic_class");
}

#[test]
fn uuids_print_hyphenated() {
    assert_eq!(uuid_string(0), "00000000-0000-0000-0000-000000000000");
    assert_eq!(uuid_string(0x0123_4567_89ab_cdef_0011_2233_4455_6677), "01234567-89ab-cdef-0011-223344556677");
    assert_eq!(uuid_string(u128::MAX), "ffffffff-ffff-ffff-ffff-ffffffffffff");
}

fn entry(id: u128) -> InboxEntry {
    InboxEntry {
        envelope: Envelope {
            message_id: id,
            source_node: "node-a".to_string(),
            target: DeliveryTarget::Nodes(vec!["b".to_string(), "c".to_string()]),
            traffic_class: TrafficClass::Control,
            topic: String::new(),
            subject: "hello".to_string(),
            content_type: "text/plain".to_string(),
            created_at_ms: 5,
            ttl: 4,
            hops: 1,
            payload: b"hi there".to_vec(),
        },
        received_at_ms: 9,
    }
}

#[test]
fn inbox_entries_are_shown() {
    let e = entry(0xabc);
    let s = inbox_summary(&e);
    assert_eq!(s.message_id, "00000000-0000-0000-0000-000000000abc");
    assert_eq!(s.target, "nodes:b,c");
    assert_eq!(s.traffic_class, "control");
    assert_eq!(s.payload_size, 8);
    assert_eq!(s.preview, "hi there");
    let d = inbox_detail(&e);
    assert_eq!(d.payload_base64, "aGkgdGhlcmU=");
}

#[test]
fn inbox_lookup_by_text_id() {
    let mut store = StorageData::new();
    store.record_inbox(entry(0xabc));
    assert!(find_inbox(&store, "00000000-0000-0000-0000-000000000abc").is_ok());
    assert_eq!(find_inbox(&store, "00000000-0000-0000-0000-000000000abd").unwrap_err(), InboxLookupError::NotFound);
    assert_eq!(find_inbox(&store, "nope").unwrap_err(), InboxLookupError::InvalidId);
    assert_eq!(InboxLookupError::NotFound.status_and_message(), (404, "message not found"));
}

#[test]
fn payloads_are_cut_into_chunks() {
    let data: Vec<u8> = (0u8..10).collect();
    let chunks = split_chunks(&data, 4);
    assert_eq!(chunks, vec![vec![0, 1, 2, 3], vec![4, 5, 6, 7], vec![8, 9]]);
    assert_eq!(split_chunks(&data, 0).len(), 10);
    assert!(split_chunks(&[], 3).is_empty());
    let (open, frames, close) = stream_frames(7, "n".to_string(), "cam".to_string(), "image/jpeg".to_string(), &data, 5, 42);
    assert_eq!(open.total_chunks, 2);
    assert_eq!(open.total_bytes, 10);
    assert_eq!(frames[1].chunk_index, 1);
    assert_eq!(frames[1].data, vec![5, 6, 7, 8, 9]);
    assert_eq!(close.stream_id, 7);
    assert_eq!(close.timestamp_ms, 42);
}

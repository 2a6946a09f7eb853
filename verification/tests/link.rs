use canweeb::link::{on_frame, FrameDecision, StreamAssembly};
use canweeb::protocol::{
    AckFrame, DeliveryTarget, Envelope, Frame, PingFrame, StreamChunkFrame, StreamCloseFrame, StreamOpenFrame,
    SubscribeFrame, TrafficClass,
};

fn data(id: u128, class: TrafficClass) -> Frame {
    Frame::Data(Envelope {
        message_id: id,
        source_node: "peer".to_string(),
        target: DeliveryTarget::Broadcast,
        traffic_class: class,
        topic: String::new(),
        subject: "s".to_string(),
        content_type: "text/plain".to_string(),
        created_at_ms: 0,
        ttl: 4,
        hops: 0,
        payload: vec![1, 2],
    })
}

#[test]
fn control_data_is_acknowledged_and_pings_answered() {
    let mut s = StreamAssembly::new();
    match on_frame(&data(7, TrafficClass::Control), "me", 1_000, &mut s) {
        FrameDecision::Accept { ack: Some(a) } => {
            assert_eq!(a.message_id, 7);
            assert_eq!(a.from_node, "me");
            assert_eq!(a.timestamp_ms, 1_000);
        }
        other => panic!("unexpected {other:?}"),
    }
    assert!(matches!(on_frame(&data(8, TrafficClass::Telemetry), "me", 0, &mut s), FrameDecision::Accept { ack: None }));
    let ack = Frame::Ack(AckFrame { message_id: 9, from_node: "peer".into(), timestamp_ms: 0 });
    assert!(matches!(on_frame(&ack, "me", 0, &mut s), FrameDecision::Acked { message_id: 9 }));
    assert!(matches!(
        on_frame(&Frame::Ping(PingFrame { timestamp_ms: 40 }), "me", 50, &mut s),
        FrameDecision::Pong(PingFrame { timestamp_ms: 40 })
    ));
    assert!(matches!(
        on_frame(&Frame::Pong(PingFrame { timestamp_ms: 40 }), "me", 55, &mut s),
        FrameDecision::RoundTrip { rtt_ms: 15 }
    ));
    assert!(matches!(
        on_frame(&Frame::Pong(PingFrame { timestamp_ms: 90 }), "me", 55, &mut s),
        FrameDecision::RoundTrip { rtt_ms: 0 }
    ));
    let sub = Frame::Subscribe(SubscribeFrame { topics: vec!["a".into()] });
    assert!(matches!(on_frame(&sub, "me", 0, &mut s), FrameDecision::Subscribe));
}

#[test]
fn streams_assembled_at_close_with_missing_chunks_empty() {
    let mut s = StreamAssembly::new();
    let open = Frame::StreamOpen(StreamOpenFrame {
        stream_id: 5,
        source_node: "cam".into(),
        topic: "video".into(),
        content_type: "image/jpeg".into(),
        total_chunks: 3,
        total_bytes: 6,
        timestamp_ms: 0,
    });
    assert!(matches!(on_frame(&open, "me", 0, &mut s), FrameDecision::Nothing));
    let chunk = |i: u32, d: Vec<u8>| Frame::StreamChunk(StreamChunkFrame { stream_id: 5, chunk_index: i, data: d });
    on_frame(&chunk(2, vec![5, 6]), "me", 0, &mut s);
    on_frame(&chunk(0, vec![1, 2]), "me", 0, &mut s);
    // A chunk of a stream that was never opened is dropped.
    on_frame(&Frame::StreamChunk(StreamChunkFrame { stream_id: 6, chunk_index: 0, data: vec![9] }), "me", 0, &mut s);
    match on_frame(&Frame::StreamClose(StreamCloseFrame { stream_id: 5, timestamp_ms: 0 }), "me", 0, &mut s) {
        FrameDecision::Assembled(a) => {
            assert_eq!(a.stream_id, 5);
            assert_eq!(a.topic, "video");
            assert_eq!(a.data, vec![1, 2, 5, 6]);
        }
        other => panic!("unexpected {other:?}"),
    }
    // Closed once: a second close finds nothing.
    assert!(matches!(
        on_frame(&Frame::StreamClose(StreamCloseFrame { stream_id: 5, timestamp_ms: 0 }), "me", 0, &mut s),
        FrameDecision::Nothing
    ));
}

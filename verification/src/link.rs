//! What a node does with each frame it receives on a link: control data is
//! acknowledged, a ping is answered, a pong gives the round trip, and the
//! chunks of a stream are filed until its close assembles them (missing
//! chunks count as empty). The caller reads the frames and carries out the
//! decision.
use crate::protocol::{AckFrame, Frame, PingFrame, TrafficClass};
use vstd::prelude::*;

verus! {

/// A stream being received, as text and bytes.
pub struct StreamState {
    pub stream_id: u128,
    pub source_node: Seq<char>,
    pub topic: Seq<char>,
    pub content_type: Seq<char>,
    pub total_chunks: u32,
    /// The chunks received, in order of arrival: index and data.
    pub chunks: Seq<(u32, Seq<u8>)>,
}

struct PendingStream {
    stream_id: u128,
    source_node: String,
    topic: String,
    content_type: String,
    total_chunks: u32,
    chunks: Vec<(u32, Vec<u8>)>,
}

spec fn chunks_view(c: Seq<(u32, Vec<u8>)>) -> Seq<(u32, Seq<u8>)> {
    c.map_values(|x: (u32, Vec<u8>)| (x.0, x.1@))
}

spec fn pending_view(p: PendingStream) -> StreamState {
    StreamState {
        stream_id: p.stream_id,
        source_node: p.source_node@,
        topic: p.topic@,
        content_type: p.content_type@,
        total_chunks: p.total_chunks,
        chunks: chunks_view(p.chunks@),
    }
}

/// The streams a link is receiving.
pub struct StreamAssembly {
    streams: Vec<PendingStream>,
}

/// A stream put together at its close.
#[derive(Debug)]
pub struct AssembledStream {
    pub stream_id: u128,
    pub source_node: String,
    pub topic: String,
    pub content_type: String,
    pub data: Vec<u8>,
}

/// What to do with a received frame.
#[derive(Debug)]
pub enum FrameDecision {
    /// Accept the data message, then send `ack` back when there is one.
    Accept { ack: Option<AckFrame> },
    /// Record that the peer acknowledged the message.
    Acked { message_id: u128 },
    /// Answer with a pong carrying this ping.
    Pong(PingFrame),
    /// Record the round trip of the link.
    RoundTrip { rtt_ms: u64 },
    /// Add the frame's topics to the peer's subscriptions.
    Subscribe,
    /// Remove the frame's topics from the peer's subscriptions.
    Unsubscribe,
    /// A stream was closed and put together.
    Assembled(AssembledStream),
    /// Nothing to do.
    Nothing,
}

/// The position of the stream `id` among the streams being received.
pub open spec fn stream_position(s: Seq<StreamState>, id: u128) -> Option<int>
    decreases s.len(),
{
    if s.len() == 0 {
        None
    } else if s.last().stream_id == id {
        Some(s.len() - 1)
    } else {
        stream_position(s.drop_last(), id)
    }
}

proof fn lemma_stream_position(s: Seq<StreamState>, id: u128)
    ensures
        stream_position(s, id) matches Some(i) ==> 0 <= i < s.len() && s[i].stream_id == id,
    decreases s.len(),
{
    if s.len() > 0 && s.last().stream_id != id {
        lemma_stream_position(s.drop_last(), id);
    }
}

/// The data of chunk `k`: the last one received with that index, empty when
/// none was.
pub open spec fn chunk_data(chunks: Seq<(u32, Seq<u8>)>, k: u32) -> Seq<u8>
    decreases chunks.len(),
{
    if chunks.len() == 0 {
        Seq::empty()
    } else if chunks.last().0 == k {
        chunks.last().1
    } else {
        chunk_data(chunks.drop_last(), k)
    }
}

/// The first `n` chunks put together in order.
pub open spec fn assembled_data(chunks: Seq<(u32, Seq<u8>)>, n: nat) -> Seq<u8>
    decreases n,
{
    if n == 0 {
        Seq::empty()
    } else {
        assembled_data(chunks, (n - 1) as nat) + chunk_data(chunks, (n - 1) as u32)
    }
}

impl StreamAssembly {
    pub closed spec fn streams(&self) -> Seq<StreamState> {
        self.streams@.map_values(|p: PendingStream| pending_view(p))
    }

    /// No stream being received.
    pub fn new() -> (a: StreamAssembly)
        ensures
            a.streams() == Seq::<StreamState>::empty(),
    {
        let a = StreamAssembly { streams: Vec::new() };
        assert(a.streams() =~= Seq::<StreamState>::empty());
        a
    }

    fn position(&self, id: u128) -> (r: Option<usize>)
        ensures
            match stream_position(self.streams(), id) {
                Some(i) => r matches Some(j) && j as int == i,
                None => r is None,
            },
            r matches Some(i) ==> i < self.streams@.len() && self.streams@[i as int].stream_id == id,
    {
        proof {
            lemma_stream_position(self.streams(), id);
        }
        let n = self.streams.len();
        let mut i: usize = n;
        let ghost s = self.streams();
        assert(s.subrange(0, n as int) =~= s);
        while i > 0
            invariant
                i <= n,
                n == self.streams@.len(),
                s == self.streams(),
                stream_position(s, id) == stream_position(s.subrange(0, i as int), id),
            decreases i,
        {
            let ghost t = s.subrange(0, i as int);
            assert(t.drop_last() =~= s.subrange(0, i - 1));
            assert(t.last() == pending_view(self.streams@[i - 1]));
            if self.streams[i - 1].stream_id == id {
                return Some(i - 1);
            }
            i = i - 1;
        }
        None
    }
}

fn copy_bytes(v: &Vec<u8>) -> (r: Vec<u8>)
    ensures
        r@ == v@,
{
    let mut r: Vec<u8> = Vec::new();
    let mut i: usize = 0;
    while i < v.len()
        invariant
            i <= v.len(),
            r@ == v@.subrange(0, i as int),
        decreases v.len() - i,
    {
        r.push(v[i]);
        assert(v@.subrange(0, i + 1) =~= v@.subrange(0, i as int).push(v@[i as int]));
        i = i + 1;
    }
    assert(v@.subrange(0, v.len() as int) =~= v@);
    r
}

/// The data of chunk `k` of a stream.
fn find_chunk(chunks: &Vec<(u32, Vec<u8>)>, k: u32) -> (r: Vec<u8>)
    ensures
        r@ == chunk_data(chunks_view(chunks@), k),
{
    let n = chunks.len();
    let mut i: usize = n;
    let ghost c = chunks_view(chunks@);
    assert(c.subrange(0, n as int) =~= c);
    while i > 0
        invariant
            i <= n,
            n == chunks@.len(),
            c == chunks_view(chunks@),
            chunk_data(c, k) == chunk_data(c.subrange(0, i as int), k),
        decreases i,
    {
        let ghost t = c.subrange(0, i as int);
        assert(t.drop_last() =~= c.subrange(0, i - 1));
        if chunks[i - 1].0 == k {
            return copy_bytes(&chunks[i - 1].1);
        }
        i = i - 1;
    }
    Vec::new()
}

/// The chunks of a stream put together in order of their index, up to its
/// chunk count; a chunk that did not arrive counts as empty.
fn assemble(chunks: &Vec<(u32, Vec<u8>)>, total: u32) -> (r: Vec<u8>)
    ensures
        r@ == assembled_data(chunks_view(chunks@), total as nat),
{
    let mut out: Vec<u8> = Vec::new();
    let mut k: u32 = 0;
    while k < total
        invariant
            k <= total,
            out@ == assembled_data(chunks_view(chunks@), k as nat),
        decreases total - k,
    {
        let part = find_chunk(chunks, k);
        let mut j: usize = 0;
        let ghost base = out@;
        while j < part.len()
            invariant
                j <= part.len(),
                out@ == base + part@.subrange(0, j as int),
            decreases part.len() - j,
        {
            out.push(part[j]);
            assert(part@.subrange(0, j + 1) =~= part@.subrange(0, j as int).push(part@[j as int]));
            j = j + 1;
        }
        assert(part@.subrange(0, part.len() as int) =~= part@);
        k = k + 1;
    }
    out
}

/// What a frame does to the streams being received.
pub open spec fn streams_after(s: Seq<StreamState>, frame: Frame) -> Seq<StreamState> {
    match frame {
        Frame::StreamOpen(o) => {
            let fresh = StreamState {
                stream_id: o.stream_id,
                source_node: o.source_node@,
                topic: o.topic@,
                content_type: o.content_type@,
                total_chunks: o.total_chunks,
                chunks: Seq::empty(),
            };
            match stream_position(s, o.stream_id) {
                Some(i) => s.update(i, fresh),
                None => s.push(fresh),
            }
        },
        Frame::StreamChunk(c) => match stream_position(s, c.stream_id) {
            Some(i) => s.update(i, StreamState { chunks: s[i].chunks.push((c.chunk_index, c.data@)), ..s[i] }),
            None => s,
        },
        Frame::StreamClose(c) => match stream_position(s, c.stream_id) {
            Some(i) => s.remove(i),
            None => s,
        },
        _ => s,
    }
}

/// Decides what to do with a frame received on a link by node `node_id` at
/// `now_ms`: control data is accepted and acknowledged, other data accepted;
/// an ack is recorded; a ping is answered with a pong carrying it; a pong
/// gives the round trip since the ping it carries was sent; subscriptions
/// are updated; a stream's open starts it again, its chunks are filed (those
/// of a stream that was not opened are dropped), and its close puts it
/// together, each chunk in order of its index and a missing one empty.
pub fn on_frame(frame: &Frame, node_id: &str, now_ms: u64, streams: &mut StreamAssembly) -> (d: FrameDecision)
    ensures
        final(streams).streams() == streams_after(old(streams).streams(), *frame),
        match *frame {
            Frame::Data(env) => d matches FrameDecision::Accept { ack } && (ack is Some <==> env.traffic_class
                == TrafficClass::Control) && (ack matches Some(a) ==> a.message_id == env.message_id && a.from_node@
                == node_id@ && a.timestamp_ms == now_ms),
            Frame::Ack(a) => d == FrameDecision::Acked { message_id: a.message_id },
            Frame::Ping(p) => d == FrameDecision::Pong(p),
            Frame::Pong(p) => d == FrameDecision::RoundTrip {
                rtt_ms: if now_ms >= p.timestamp_ms {
                    (now_ms - p.timestamp_ms) as u64
                } else {
                    0
                },
            },
            Frame::Subscribe(_) => d is Subscribe,
            Frame::Unsubscribe(_) => d is Unsubscribe,
            Frame::StreamClose(c) => match stream_position(old(streams).streams(), c.stream_id) {
                Some(i) => {
                    let st = old(streams).streams()[i];
                    d matches FrameDecision::Assembled(a) && a.stream_id == c.stream_id && a.source_node@
                        == st.source_node && a.topic@ == st.topic && a.content_type@ == st.content_type && a.data@
                        == assembled_data(st.chunks, st.total_chunks as nat)
                },
                None => d is Nothing,
            },
            _ => d is Nothing,
        },
{
    match frame {
        Frame::Data(env) => {
            if env.traffic_class.requires_ack() {
                FrameDecision::Accept {
                    ack: Some(AckFrame { message_id: env.message_id, from_node: String::from_str(node_id), timestamp_ms: now_ms }),
                }
            } else {
                FrameDecision::Accept { ack: None }
            }
        },
        Frame::Ack(a) => FrameDecision::Acked { message_id: a.message_id },
        Frame::Ping(p) => FrameDecision::Pong(*p),
        Frame::Pong(p) => FrameDecision::RoundTrip { rtt_ms: now_ms.saturating_sub(p.timestamp_ms) },
        Frame::Subscribe(_) => FrameDecision::Subscribe,
        Frame::Unsubscribe(_) => FrameDecision::Unsubscribe,
        Frame::Hello(_) => FrameDecision::Nothing,
        Frame::StreamOpen(o) => {
            let fresh = PendingStream {
                stream_id: o.stream_id,
                source_node: o.source_node.clone(),
                topic: o.topic.clone(),
                content_type: o.content_type.clone(),
                total_chunks: o.total_chunks,
                chunks: Vec::new(),
            };
            let ghost fv = pending_view(fresh);
            assert(fv.chunks =~= Seq::<(u32, Seq<u8>)>::empty());
            let ghost before = streams.streams@;
            match streams.position(o.stream_id) {
                Some(i) => {
                    streams.streams.set(i, fresh);
                    proof {
                        assert(streams.streams() =~= old(streams).streams().update(i as int, fv));
                    }
                },
                None => {
                    streams.streams.push(fresh);
                    proof {
                        assert(streams.streams() =~= old(streams).streams().push(fv));
                    }
                },
            }
            FrameDecision::Nothing
        },
        Frame::StreamChunk(c) => {
            match streams.position(c.stream_id) {
                Some(i) => {
                    let mut p = streams.streams.remove(i);
                    let ghost pv = pending_view(p);
                    let ghost pc = p.chunks@;
                    p.chunks.push((c.chunk_index, copy_bytes(&c.data)));
                    proof {
                        assert(chunks_view(p.chunks@) =~= chunks_view(pc).push((c.chunk_index, c.data@)));
                    }
                    streams.streams.insert(i, p);
                    proof {
                        assert(streams.streams() =~= old(streams).streams().update(
                            i as int,
                            StreamState { chunks: pv.chunks.push((c.chunk_index, c.data@)), ..pv },
                        ));
                    }
                },
                None => {},
            }
            FrameDecision::Nothing
        },
        Frame::StreamClose(c) => {
            match streams.position(c.stream_id) {
                Some(i) => {
                    let ghost all = streams.streams@;
                    let p = streams.streams.remove(i);
                    proof {
                        assert(p == all[i as int]);
                        assert(pending_view(p) == old(streams).streams()[i as int]);
                        assert(streams.streams() =~= old(streams).streams().remove(i as int));
                    }
                    let data = assemble(&p.chunks, p.total_chunks);
                    FrameDecision::Assembled(
                        AssembledStream {
                            stream_id: p.stream_id,
                            source_node: p.source_node,
                            topic: p.topic,
                            content_type: p.content_type,
                            data,
                        },
                    )
                },
                None => FrameDecision::Nothing,
            }
        },
    }
}

} // verus!

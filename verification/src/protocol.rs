//! The vocabulary of the mesh: transports, traffic classes, frames, delivery
//! targets and the short text previews of payloads.
//!
//! Identifiers that travel as UUIDs are held as their 128-bit values.
use crate::text::{
    chars_contain, chars_eq, chars_of, chars_start_with, chars_view, concat_str, contains_seq,
    decimal, decimal_string, is_ws, join, join_strings, lemma_split_join, lower, lower_chars,
    lower_seq, split, split_chars, starts_with, string_of, strings_view, sub_chars, trim,
    trim_chars, trim_end, trim_start,
};
use vstd::prelude::*;
use vstd::utf8::{decode_utf8, valid_utf8};

verus! {

/// The physical link a peer is reached over.
#[derive(Debug, Clone, Copy, PartialEq, Eq, Structural)]
pub enum TransportKind {
    Usb,
    Wifi,
}

/// Quality of service of a message: `Control` is acknowledged, persisted and
/// retried; `Telemetry` keeps only the latest value; `Stream` goes through a
/// ring buffer.
#[derive(Debug, Clone, Copy, PartialEq, Eq, Structural)]
pub enum TrafficClass {
    Control,
    Telemetry,
    Stream,
}

impl Default for TrafficClass {
    fn default() -> (c: TrafficClass)
        ensures
            c == TrafficClass::Control,
    {
        TrafficClass::Control
    }
}

/// Why a traffic class or a delivery target was refused.
#[derive(Debug, PartialEq, Eq)]
pub enum ProtocolError {
    /// The trimmed, lower-cased text that names no class.
    UnknownTrafficClass(String),
    EmptyTargetNode,
    EmptyTargetList,
}

/// The handshake that opens a connection.
#[derive(Debug)]
pub struct HelloFrame {
    pub node_id: String,
    pub transport: TransportKind,
    pub capabilities: Vec<String>,
    pub timestamp_ms: u64,
}

/// A hop-by-hop acknowledgement (control traffic only).
#[derive(Debug)]
pub struct AckFrame {
    pub message_id: u128,
    pub from_node: String,
    pub timestamp_ms: u64,
}

/// A liveness probe of a link.
#[derive(Debug, Clone, Copy)]
pub struct PingFrame {
    pub timestamp_ms: u64,
}

/// A request to receive the given topics.
#[derive(Debug)]
pub struct SubscribeFrame {
    pub topics: Vec<String>,
}

/// A request to stop receiving the given topics.
#[derive(Debug)]
pub struct UnsubscribeFrame {
    pub topics: Vec<String>,
}

/// The start of a chunked stream.
#[derive(Debug)]
pub struct StreamOpenFrame {
    pub stream_id: u128,
    pub source_node: String,
    pub topic: String,
    pub content_type: String,
    pub total_chunks: u32,
    pub total_bytes: u64,
    pub timestamp_ms: u64,
}

/// One chunk of a stream.
#[derive(Debug)]
pub struct StreamChunkFrame {
    pub stream_id: u128,
    pub chunk_index: u32,
    pub data: Vec<u8>,
}

/// The end of a stream.
#[derive(Debug)]
pub struct StreamCloseFrame {
    pub stream_id: u128,
    pub timestamp_ms: u64,
}

/// Where a message goes.
#[derive(Debug)]
pub enum DeliveryTarget {
    Node(String),
    Nodes(Vec<String>),
    Broadcast,
}

/// A message. An empty `topic` means no topic delivery.
#[derive(Debug)]
pub struct Envelope {
    pub message_id: u128,
    pub source_node: String,
    pub target: DeliveryTarget,
    pub traffic_class: TrafficClass,
    pub topic: String,
    pub subject: String,
    pub content_type: String,
    pub created_at_ms: u64,
    pub ttl: u8,
    pub hops: u8,
    pub payload: Vec<u8>,
}

/// What travels over a link.
#[derive(Debug)]
pub enum Frame {
    Hello(HelloFrame),
    Data(Envelope),
    Ack(AckFrame),
    Ping(PingFrame),
    Pong(PingFrame),
    Subscribe(SubscribeFrame),
    Unsubscribe(UnsubscribeFrame),
    StreamOpen(StreamOpenFrame),
    StreamChunk(StreamChunkFrame),
    StreamClose(StreamCloseFrame),
}

// ----- traffic classes -----
pub open spec fn class_label(c: TrafficClass) -> Seq<char> {
    match c {
        TrafficClass::Control => "control"@,
        TrafficClass::Telemetry => "telemetry"@,
        TrafficClass::Stream => "stream"@,
    }
}

/// The class a text names: surrounding white space and ASCII case do not
/// matter.
pub open spec fn class_named(input: Seq<char>) -> Option<TrafficClass> {
    let w = lower_seq(trim(input));
    if w == "control"@ {
        Some(TrafficClass::Control)
    } else if w == "telemetry"@ {
        Some(TrafficClass::Telemetry)
    } else if w == "stream"@ {
        Some(TrafficClass::Stream)
    } else {
        None
    }
}

pub open spec fn class_priority(c: TrafficClass) -> u8 {
    match c {
        TrafficClass::Control => 0,
        TrafficClass::Telemetry => 1,
        TrafficClass::Stream => 2,
    }
}

impl TrafficClass {
    pub fn parse(input: &str) -> (r: Result<TrafficClass, ProtocolError>)
        ensures
            match class_named(input@) {
                Some(c) => r matches Ok(x) && x == c,
                None => r matches Err(ProtocolError::UnknownTrafficClass(s)) && s@ == lower_seq(
                    trim(input@),
                ),
            },
    {
        let cs = chars_of(input);
        let t = trim_chars(&cs);
        let w = lower_chars(&t);
        if chars_eq(&w, &chars_of("control")) {
            Ok(TrafficClass::Control)
        } else if chars_eq(&w, &chars_of("telemetry")) {
            Ok(TrafficClass::Telemetry)
        } else if chars_eq(&w, &chars_of("stream")) {
            Ok(TrafficClass::Stream)
        } else {
            Err(ProtocolError::UnknownTrafficClass(string_of(&w)))
        }
    }

    pub fn label(self) -> (s: &'static str)
        ensures
            s@ == class_label(self),
    {
        match self {
            TrafficClass::Control => "control",
            TrafficClass::Telemetry => "telemetry",
            TrafficClass::Stream => "stream",
        }
    }

    /// Only control traffic is acknowledged.
    pub fn requires_ack(self) -> (b: bool)
        ensures
            b == (self == TrafficClass::Control),
    {
        match self {
            TrafficClass::Control => true,
            _ => false,
        }
    }

    /// Only control traffic is kept in the persistent send queue.
    pub fn should_persist_queue(self) -> (b: bool)
        ensures
            b == (self == TrafficClass::Control),
    {
        match self {
            TrafficClass::Control => true,
            _ => false,
        }
    }

    /// Only control traffic is kept in the persistent inbox.
    pub fn should_persist_inbox(self) -> (b: bool)
        ensures
            b == (self == TrafficClass::Control),
    {
        match self {
            TrafficClass::Control => true,
            _ => false,
        }
    }

    /// Everything but streams is stored in the inbox.
    pub fn should_store_inbox(self) -> (b: bool)
        ensures
            b == (self != TrafficClass::Stream),
    {
        match self {
            TrafficClass::Stream => false,
            _ => true,
        }
    }

    /// Lower goes first: control, then telemetry, then streams.
    pub fn dispatch_priority(self) -> (p: u8)
        ensures
            p == class_priority(self),
    {
        match self {
            TrafficClass::Control => 0,
            TrafficClass::Telemetry => 1,
            TrafficClass::Stream => 2,
        }
    }
}

/// Every class is read back from its label.
pub proof fn law_class_label_round_trip(c: TrafficClass)
    ensures
        class_named(class_label(c)) == Some(c),
{
    reveal_strlit("control");
    reveal_strlit("telemetry");
    reveal_strlit("stream");
    let l = class_label(c);
    assert(l.len() > 0);
    assert(!is_ws(l[0]) && !is_ws(l.last()));
    assert(trim_start(l) == l);
    assert(trim_end(l) == l);
    assert(lower_seq(l) =~= l);
    assert("control"@[0] != "telemetry"@[0]);
}

/// The priority orders the classes strictly: control before telemetry
/// before streams.
pub proof fn law_priority_orders_classes(a: TrafficClass, b: TrafficClass)
    ensures
        class_priority(a) == class_priority(b) <==> a == b,
        a == TrafficClass::Control ==> class_priority(a) <= class_priority(b),
        b == TrafficClass::Stream ==> class_priority(a) <= class_priority(b),
{
}

// ----- delivery targets -----
/// A delivery target as text.
pub enum TargetView {
    Node(Seq<char>),
    Nodes(Seq<Seq<char>>),
    Broadcast,
}

impl View for DeliveryTarget {
    type V = TargetView;

    open spec fn view(&self) -> TargetView {
        match self {
            DeliveryTarget::Node(n) => TargetView::Node(n@),
            DeliveryTarget::Nodes(ns) => TargetView::Nodes(strings_view(ns@)),
            DeliveryTarget::Broadcast => TargetView::Broadcast,
        }
    }
}

/// The pieces trimmed, the empty ones left out.
pub open spec fn trimmed_pieces(parts: Seq<Seq<char>>) -> Seq<Seq<char>>
    decreases parts.len(),
{
    if parts.len() == 0 {
        Seq::empty()
    } else {
        let front = trimmed_pieces(parts.drop_last());
        let t = trim(parts.last());
        if t.len() > 0 {
            front.push(t)
        } else {
            front
        }
    }
}

/// What `DeliveryTarget::parse` makes of a text: `broadcast` in any case,
/// `node:<id>`, `nodes:<id>,<id>,...`, or else the whole text as one node.
pub open spec fn target_named(input: Seq<char>) -> Result<TargetView, ProtocolError> {
    let t = trim(input);
    if lower_seq(t) == lower_seq("broadcast"@) {
        Ok(TargetView::Broadcast)
    } else if starts_with(t, "node:"@) {
        let node = trim(t.subrange("node:"@.len() as int, t.len() as int));
        if node.len() == 0 {
            Err(ProtocolError::EmptyTargetNode)
        } else {
            Ok(TargetView::Node(node))
        }
    } else if starts_with(t, "nodes:"@) {
        let nodes = trimmed_pieces(split(t.subrange("nodes:"@.len() as int, t.len() as int), ','));
        if nodes.len() == 0 {
            Err(ProtocolError::EmptyTargetList)
        } else {
            Ok(TargetView::Nodes(nodes))
        }
    } else {
        Ok(TargetView::Node(t))
    }
}

pub open spec fn target_matches(t: TargetView, id: Seq<char>) -> bool {
    match t {
        TargetView::Node(n) => n == id,
        TargetView::Nodes(ns) => ns.contains(id),
        TargetView::Broadcast => true,
    }
}

pub open spec fn target_forwards_after(t: TargetView, id: Seq<char>) -> bool {
    match t {
        TargetView::Node(n) => n != id,
        TargetView::Nodes(ns) => exists|i: int| 0 <= i < ns.len() && ns[i] != id,
        TargetView::Broadcast => true,
    }
}

pub open spec fn target_label(t: TargetView) -> Seq<char> {
    match t {
        TargetView::Node(n) => "node:"@ + n,
        TargetView::Nodes(ns) => "nodes:"@ + join(ns, ","@),
        TargetView::Broadcast => "broadcast"@,
    }
}

/// A node name that its label carries through unchanged: not empty and
/// without white space at either end.
pub open spec fn clean_name(n: Seq<char>) -> bool {
    n.len() > 0 && !is_ws(n[0]) && !is_ws(n.last())
}

/// A target whose label parses back to it: clean names, and in a list at
/// least one name and no comma in any.
pub open spec fn label_round_trips(t: TargetView) -> bool {
    match t {
        TargetView::Node(n) => clean_name(n),
        TargetView::Nodes(ns) => ns.len() > 0 && forall|i: int|
            0 <= i < ns.len() ==> clean_name(#[trigger] ns[i]) && !ns[i].contains(','),
        TargetView::Broadcast => true,
    }
}

impl DeliveryTarget {
    pub fn parse(input: &str) -> (r: Result<DeliveryTarget, ProtocolError>)
        ensures
            match target_named(input@) {
                Ok(t) => r matches Ok(x) && x@ == t,
                Err(e) => r matches Err(x) && x == e,
            },
    {
        let cs = chars_of(input);
        let t = trim_chars(&cs);
        let word = chars_of("broadcast");
        if chars_eq(&lower_chars(&t), &lower_chars(&word)) {
            return Ok(DeliveryTarget::Broadcast);
        }
        let one = chars_of("node:");
        if chars_start_with(&t, &one) {
            let rest = sub_chars(&t, one.len(), t.len());
            let node = trim_chars(&rest);
            if node.len() == 0 {
                return Err(ProtocolError::EmptyTargetNode);
            }
            return Ok(DeliveryTarget::Node(string_of(&node)));
        }
        let many = chars_of("nodes:");
        if chars_start_with(&t, &many) {
            let rest = sub_chars(&t, many.len(), t.len());
            let parts = split_chars(&rest, ',');
            let mut nodes: Vec<String> = Vec::new();
            let mut i: usize = 0;
            while i < parts.len()
                invariant
                    i <= parts.len(),
                    strings_view(nodes@) == trimmed_pieces(chars_view(parts@).subrange(0, i as int)),
                decreases parts.len() - i,
            {
                let piece = trim_chars(&parts[i]);
                let ghost pre = chars_view(parts@).subrange(0, i as int);
                assert(chars_view(parts@).subrange(0, i + 1).drop_last() =~= pre);
                if piece.len() > 0 {
                    nodes.push(string_of(&piece));
                    assert(strings_view(nodes@) =~= trimmed_pieces(pre).push(piece@));
                }
                i = i + 1;
            }
            assert(chars_view(parts@).subrange(0, parts.len() as int) == chars_view(parts@));
            if nodes.len() == 0 {
                return Err(ProtocolError::EmptyTargetList);
            }
            return Ok(DeliveryTarget::Nodes(nodes));
        }
        Ok(DeliveryTarget::Node(string_of(&t)))
    }

    /// Whether a node is among the receivers.
    pub fn matches(&self, node_id: &str) -> (b: bool)
        ensures
            b == target_matches(self@, node_id@),
    {
        match self {
            DeliveryTarget::Node(node) => crate::json::str_eq(node.as_str(), node_id),
            DeliveryTarget::Nodes(nodes) => {
                let mut i: usize = 0;
                while i < nodes.len()
                    invariant
                        i <= nodes.len(),
                        forall|k: int| 0 <= k < i ==> nodes@[k]@ != node_id@,
                        self@ == TargetView::Nodes(strings_view(nodes@)),
                    decreases nodes.len() - i,
                {
                    if crate::json::str_eq(nodes[i].as_str(), node_id) {
                        assert(strings_view(nodes@)[i as int] == node_id@);
                        assert(strings_view(nodes@).contains(node_id@));
                        return true;
                    }
                    i = i + 1;
                }
                assert(!strings_view(nodes@).contains(node_id@)) by {
                    if strings_view(nodes@).contains(node_id@) {
                        let k = choose|k: int| 0 <= k < nodes@.len() && strings_view(nodes@)[k] == node_id@;
                        assert(nodes@[k]@ == node_id@);
                    }
                }
                false
            },
            DeliveryTarget::Broadcast => true,
        }
    }

    /// Whether the message still has receivers other than this node.
    pub fn requires_forwarding_after(&self, node_id: &str) -> (b: bool)
        ensures
            b == target_forwards_after(self@, node_id@),
    {
        match self {
            DeliveryTarget::Node(node) => !crate::json::str_eq(node.as_str(), node_id),
            DeliveryTarget::Nodes(nodes) => {
                let mut i: usize = 0;
                while i < nodes.len()
                    invariant
                        i <= nodes.len(),
                        forall|k: int| 0 <= k < i ==> nodes@[k]@ == node_id@,
                        self@ == TargetView::Nodes(strings_view(nodes@)),
                    decreases nodes.len() - i,
                {
                    if !crate::json::str_eq(nodes[i].as_str(), node_id) {
                        assert(strings_view(nodes@)[i as int] != node_id@);
                        proof {
                            lemma_forwards_witness(strings_view(nodes@), node_id@, i as int);
                        }
                        return true;
                    }
                    i = i + 1;
                }
                assert forall|k: int| 0 <= k < strings_view(nodes@).len() implies strings_view(nodes@)[k]
                    == node_id@ by {
                    assert(nodes@[k]@ == node_id@);
                }
                false
            },
            DeliveryTarget::Broadcast => true,
        }
    }

    /// The text that `parse` reads back.
    pub fn label(&self) -> (s: String)
        ensures
            s@ == target_label(self@),
    {
        match self {
            DeliveryTarget::Node(node) => concat_str("node:", node.as_str()),
            DeliveryTarget::Nodes(nodes) => {
                let list = join_strings(nodes.as_slice(), ",");
                concat_str("nodes:", list.as_str())
            },
            DeliveryTarget::Broadcast => String::from_str("broadcast"),
        }
    }
}

proof fn lemma_forwards_witness(ns: Seq<Seq<char>>, id: Seq<char>, k: int)
    requires
        0 <= k < ns.len(),
        ns[k] != id,
    ensures
        target_forwards_after(TargetView::Nodes(ns), id),
{
    assert(exists|i: int| 0 <= i < ns.len() && ns[i] != id);
    let t = TargetView::Nodes(ns);
    assert(t matches TargetView::Nodes(x) && x == ns);
}

/// Broadcast reaches every node, and a single node target exactly its node.
pub proof fn law_target_matching(n: Seq<char>, id: Seq<char>)
    ensures
        target_matches(TargetView::Broadcast, id),
        target_matches(TargetView::Node(n), id) <==> n == id,
        !target_forwards_after(TargetView::Node(id), id),
        target_forwards_after(TargetView::Broadcast, id),
{
}

/// A node list is forwarded after a node unless that node is its only
/// receiver.
pub proof fn law_list_forwarding(ns: Seq<Seq<char>>, id: Seq<char>)
    requires
        ns.len() > 0,
    ensures
        !target_forwards_after(TargetView::Nodes(ns), id) <==> (forall|i: int|
            0 <= i < ns.len() ==> #[trigger] ns[i] == id),
        !target_forwards_after(TargetView::Nodes(ns), id) ==> target_matches(TargetView::Nodes(ns), id),
{
    if !target_forwards_after(TargetView::Nodes(ns), id) {
        assert(ns[0] == id);
    }
}

proof fn lemma_clean_trims(n: Seq<char>)
    requires
        clean_name(n),
    ensures
        trim(n) == n,
{
    assert(trim_start(n) == n);
    assert(trim_end(n) == n);
}

proof fn lemma_clean_pieces(ns: Seq<Seq<char>>)
    requires
        forall|i: int| 0 <= i < ns.len() ==> clean_name(#[trigger] ns[i]),
    ensures
        trimmed_pieces(ns) == ns,
    decreases ns.len(),
{
    if ns.len() > 0 {
        let front = ns.drop_last();
        assert forall|i: int| 0 <= i < front.len() implies clean_name(#[trigger] front[i]) by {
            assert(front[i] == ns[i]);
        }
        lemma_clean_pieces(front);
        assert(clean_name(ns[ns.len() - 1]));
        lemma_clean_trims(ns.last());
        assert(front.push(ns.last()) =~= ns);
    }
}

proof fn lemma_join_last(ns: Seq<Seq<char>>, sep: Seq<char>)
    requires
        ns.len() > 0,
        ns.last().len() > 0,
    ensures
        join(ns, sep).len() > 0,
        join(ns, sep).last() == ns.last().last(),
{
}

/// A target written with `label` is read back by `parse` as the same
/// target, provided its names survive the trimming and splitting that
/// `parse` does (`label_round_trips`).
pub proof fn law_target_label_round_trip(t: TargetView)
    requires
        label_round_trips(t),
    ensures
        target_named(target_label(t)) == Ok::<TargetView, ProtocolError>(t),
{
    reveal_strlit("broadcast");
    reveal_strlit("node:");
    reveal_strlit("nodes:");
    reveal_strlit(",");
    let l = target_label(t);
    match t {
        TargetView::Broadcast => {
            lemma_clean_trims(l);
        },
        TargetView::Node(n) => {
            assert(l.len() > 0 && l.last() == n.last());
            lemma_clean_trims(l);
            assert(lower_seq(l)[0] != lower_seq("broadcast"@)[0]);
            assert(l.subrange(0, 5) =~= "node:"@);
            assert(l.subrange(5, l.len() as int) =~= n);
            lemma_clean_trims(n);
        },
        TargetView::Nodes(ns) => {
            assert(clean_name(ns[ns.len() - 1]));
            lemma_join_last(ns, ","@);
            assert(l.len() > 0 && l.last() == ns.last().last());
            lemma_clean_trims(l);
            assert(lower_seq(l)[0] != lower_seq("broadcast"@)[0]);
            assert(l.subrange(0, 5)[4] != "node:"@[4]);
            assert(l.subrange(0, 6) =~= "nodes:"@);
            let rest = l.subrange(6, l.len() as int);
            assert(rest =~= join(ns, ","@));
            assert(","@ =~= seq![',']);
            lemma_split_join(ns, ',');
            lemma_clean_pieces(ns);
        },
    }
}

// ----- payload previews -----
/// The decoded text of UTF-8 bytes (`std::str::from_utf8`): text exactly
/// when the bytes are valid UTF-8, and then the characters they encode.
#[verifier::external_body]
fn decode_text(bytes: &[u8]) -> (r: Option<String>)
    ensures
        r is Some <==> valid_utf8(bytes@),
        r matches Some(s) ==> s@ == decode_utf8(bytes@),
{
    match std::str::from_utf8(bytes) {
        Ok(t) => Some(t.to_string()),
        Err(_) => None,
    }
}

/// Whether a payload of this content type is shown as text.
pub open spec fn textual(content_type: Seq<char>) -> bool {
    starts_with(content_type, "text/"@) || contains_seq(content_type, "json"@)
}

pub open spec fn take_chars(s: Seq<char>, n: nat) -> Seq<char> {
    if s.len() <= n {
        s
    } else {
        s.subrange(0, n as int)
    }
}

/// The preview of a payload once its text (if any) is known: at most the
/// first 160 characters of the text, or a note with the byte count.
pub open spec fn preview_of(content_type: Seq<char>, decoded: Option<Seq<char>>, len: nat) -> Seq<char> {
    if textual(content_type) {
        match decoded {
            Some(text) => take_chars(text, 160),
            None => "<invalid utf8: "@ + decimal(len) + " bytes>"@,
        }
    } else {
        "<binary: "@ + decimal(len) + " bytes>"@
    }
}

pub open spec fn utf8_text(bytes: Seq<u8>) -> Option<Seq<char>> {
    if valid_utf8(bytes) {
        Some(decode_utf8(bytes))
    } else {
        None
    }
}

/// A short, printable view of a payload.
pub fn payload_preview(content_type: &str, payload: &[u8]) -> (s: String)
    ensures
        s@ == preview_of(content_type@, utf8_text(payload@), payload@.len()),
{
    let decoded = decode_text(payload);
    let text: Option<&str> = match &decoded {
        Some(t) => Some(t.as_str()),
        None => None,
    };
    preview_from_text(content_type, text, payload.len())
}

/// The preview, given the decoded text of the payload (`None` when it is not
/// UTF-8) and its length in bytes.
pub fn preview_from_text(content_type: &str, text: Option<&str>, len: usize) -> (s: String)
    ensures
        s@ == preview_of(
            content_type@,
            match text {
                Some(t) => Some(t@),
                None => None,
            },
            len as nat,
        ),
{
    let ct = chars_of(content_type);
    let is_text = chars_start_with(&ct, &chars_of("text/")) || chars_contain(&ct, &chars_of("json"));
    if is_text {
        match text {
            Some(t) => {
                let cs = chars_of(t);
                let n: usize = if cs.len() <= 160 {
                    cs.len()
                } else {
                    160
                };
                string_of(&sub_chars(&cs, 0, n))
            },
            None => {
                let count = decimal_string(len as u64);
                let head = concat_str("<invalid utf8: ", count.as_str());
                concat_str(head.as_str(), " bytes>")
            },
        }
    } else {
        let count = decimal_string(len as u64);
        let head = concat_str("<binary: ", count.as_str());
        concat_str(head.as_str(), " bytes>")
    }
}

/// Milliseconds since the Unix epoch.
pub fn now_ms() -> u64 {
    crate::command::now_ms()
}

// ----- streams -----
/// The size of the pieces a stream is cut into: the asked size, at least 1.
pub open spec fn piece_size(chunk_size: usize) -> nat {
    if chunk_size == 0 { 1 } else { chunk_size as nat }
}

/// How many pieces of `size` bytes `len` bytes make, the last one possibly
/// shorter.
pub open spec fn piece_count(len: nat, size: nat) -> nat {
    if size == 0 { 0 } else { ((len + size - 1) / size as int) as nat }
}

/// Piece `i` of `payload` cut into pieces of `size` bytes.
pub open spec fn piece(payload: Seq<u8>, size: nat, i: int) -> Seq<u8> {
    let start = i * size;
    let end = if (i + 1) * size < payload.len() { (i + 1) * size } else { payload.len() as int };
    payload.subrange(start, end)
}

proof fn lemma_piece_count(len: nat, size: nat, k: nat)
    requires
        size > 0,
        (k * size) as int >= len as int,
        k == 0 || ((k - 1) * size) < len,
    ensures
        k == piece_count(len, size),
{
    if k == 0 {
        assert(len == 0);
        assert((size - 1) / size as int == 0) by (nonlinear_arith)
            requires
                size > 0,
        ;
    } else {
        let q = (len + size - 1) / size as int;
        assert(q == k) by (nonlinear_arith)
            requires
                size > 0,
                k > 0,
                (k * size) >= len,
                ((k - 1) * size) < len,
                q == (len + size - 1) / size as int,
        ;
    }
}

/// The payload cut into pieces of `chunk_size` bytes (at least 1), the last
/// one possibly shorter (`slice::chunks`).
pub fn split_chunks(payload: &[u8], chunk_size: usize) -> (chunks: Vec<Vec<u8>>)
    ensures
        chunks@.len() == piece_count(payload@.len(), piece_size(chunk_size)),
        forall|i: int| 0 <= i < chunks@.len() ==> #[trigger] chunks@[i]@ == piece(payload@, piece_size(chunk_size), i),
{
    let size: usize = if chunk_size == 0 { 1 } else { chunk_size };
    let len = payload.len();
    let mut chunks: Vec<Vec<u8>> = Vec::new();
    let mut start: usize = 0;
    assert(chunks@.len() * size == 0) by (nonlinear_arith)
        requires
            chunks@.len() == 0,
    ;
    while start < len
        invariant
            size == piece_size(chunk_size),
            size > 0,
            len == payload@.len(),
            start <= len,
            chunks@.len() * size >= len ==> start == len,
            chunks@.len() * size < len ==> start == chunks@.len() * size,
            chunks@.len() > 0 ==> (chunks@.len() - 1) * size < len,
            forall|i: int| 0 <= i < chunks@.len() ==> #[trigger] chunks@[i]@ == piece(payload@, size as nat, i),
        decreases len - start,
    {
        let end: usize = if len - start > size { start + size } else { len };
        let mut c: Vec<u8> = Vec::new();
        let mut k: usize = start;
        while k < end
            invariant
                start <= k <= end <= len,
                len == payload@.len(),
                c@ == payload@.subrange(start as int, k as int),
            decreases end - k,
        {
            c.push(payload[k]);
            assert(payload@.subrange(start as int, k + 1) =~= payload@.subrange(start as int, k as int).push(payload@[k as int]));
            k = k + 1;
        }
        let ghost n = chunks@.len();
        proof {
            assert((n + 1) * size == n * size + size) by (nonlinear_arith);
            assert(start == n * size);
            assert(c@ == piece(payload@, size as nat, n as int));
        }
        chunks.push(c);
        start = end;
        proof {
            assert(chunks@.len() == n + 1);
            assert((chunks@.len() - 1) * size == n * size);
        }
    }
    proof {
        let k = chunks@.len();
        lemma_piece_count(len as nat, size as nat, k);
    }
    chunks
}

/// The frames that carry a payload as a stream: the opening frame with the
/// counts, one chunk frame per piece in order, and the closing frame
/// (`Runtime::publish_stream`).
pub fn stream_frames(
    stream_id: u128,
    source_node: String,
    topic: String,
    content_type: String,
    payload: &[u8],
    chunk_size: usize,
    now_ms: u64,
) -> (r: (StreamOpenFrame, Vec<StreamChunkFrame>, StreamCloseFrame))
    ensures
        r.0.stream_id == stream_id,
        r.0.source_node == source_node,
        r.0.topic == topic,
        r.0.content_type == content_type,
        r.0.total_chunks as int == piece_count(payload@.len(), piece_size(chunk_size)) % 0x1_0000_0000,
        r.0.total_bytes == payload@.len(),
        r.0.timestamp_ms == now_ms,
        r.1@.len() == piece_count(payload@.len(), piece_size(chunk_size)),
        forall|i: int| 0 <= i < r.1@.len() ==> {
            let c = #[trigger] r.1@[i];
            &&& c.stream_id == stream_id
            &&& c.chunk_index as int == i % 0x1_0000_0000
            &&& c.data@ == piece(payload@, piece_size(chunk_size), i)
        },
        r.2.stream_id == stream_id,
        r.2.timestamp_ms == now_ms,
{
    let pieces = split_chunks(payload, chunk_size);
    let mut chunks: Vec<StreamChunkFrame> = Vec::new();
    let mut pieces = pieces;
    let n = pieces.len();
    let ghost all = pieces@;
    let mut rev: Vec<Vec<u8>> = Vec::new();
    while pieces.len() > 0
        invariant
            rev@.len() + pieces@.len() == n,
            n == all.len(),
            forall|j: int| 0 <= j < pieces@.len() ==> pieces@[j] == all[j],
            forall|j: int| 0 <= j < rev@.len() ==> rev@[j] == all[n - 1 - j],
        decreases pieces@.len(),
    {
        let p = pieces.pop().unwrap();
        rev.push(p);
    }
    let mut i: usize = 0;
    while rev.len() > 0
        invariant
            i + rev@.len() == n,
            n == all.len(),
            forall|j: int| 0 <= j < rev@.len() ==> rev@[j] == all[n - 1 - j],
            chunks@.len() == i,
            forall|j: int| 0 <= j < i ==> {
                let c = #[trigger] chunks@[j];
                &&& c.stream_id == stream_id
                &&& c.chunk_index as int == j % 0x1_0000_0000
                &&& c.data == all[j]
            },
        decreases rev@.len(),
    {
        let data = rev.pop().unwrap();
        let index: u32 = ((i as u64) % 0x1_0000_0000u64) as u32;
        chunks.push(StreamChunkFrame { stream_id, chunk_index: index, data });
        i = i + 1;
    }
    let total: u32 = ((n as u64) % 0x1_0000_0000u64) as u32;
    let open = StreamOpenFrame {
        stream_id,
        source_node,
        topic,
        content_type,
        total_chunks: total,
        total_bytes: payload.len() as u64,
        timestamp_ms: now_ms,
    };
    (open, chunks, StreamCloseFrame { stream_id, timestamp_ms: now_ms })
}

} // verus!

//! What the web interface computes: the message a send request asks for,
//! the inbox as it is shown, and message ids as text. Serving HTTP happens
//! outside the library.
use crate::protocol::{
    class_label, class_named, preview_of, target_label, target_named, utf8_text, DeliveryTarget,
    payload_preview, ProtocolError, TargetView, TrafficClass,
};
use crate::storage::{InboxEntry, StorageData};
use crate::text::push_char;
use base64::Engine;
use vstd::prelude::*;
use vstd::utf8::encode_utf8;

verus! {

/// What `base64`'s standard engine decodes the text to, or `None` when it is
/// not valid base64.
pub uninterp spec fn base64_decoded(text: Seq<char>) -> Option<Seq<u8>>;

/// What `base64`'s standard engine encodes the bytes to (padded).
pub uninterp spec fn base64_encoded(bytes: Seq<u8>) -> Seq<char>;

/// `STANDARD.decode` of the `base64` crate: the bytes the text stands for,
/// or `None` when it is not valid (padded, standard alphabet) base64.
#[verifier::external_body]
fn decode_base64(text: &str) -> (r: Option<Vec<u8>>)
    ensures
        match r {
            Some(v) => base64_decoded(text@) == Some(v@),
            None => base64_decoded(text@) is None,
        },
{
    base64::engine::general_purpose::STANDARD.decode(text).ok()
}

/// `STANDARD.encode` of the `base64` crate, which panics only when the
/// length of the text would overflow `usize`.
#[verifier::external_body]
fn encode_base64(bytes: &[u8]) -> (s: String)
    requires
        (bytes@.len() / 3) * 4 + 4 <= usize::MAX,
    ensures
        s@ == base64_encoded(bytes@),
{
    base64::engine::general_purpose::STANDARD.encode(bytes)
}

/// A request to send a message, as the web form posts it.
#[derive(Debug)]
pub struct SendMessageRequest {
    pub target: String,
    pub traffic_class: Option<String>,
    pub subject: Option<String>,
    pub content_type: Option<String>,
    pub text: Option<String>,
    pub payload_base64: Option<String>,
    pub ttl: Option<u8>,
}

/// The message a send request asks for.
#[derive(Debug)]
pub struct SendPlan {
    pub target: DeliveryTarget,
    pub traffic_class: TrafficClass,
    pub subject: String,
    pub content_type: String,
    pub payload: Vec<u8>,
    pub ttl: Option<u8>,
}

/// Why a send request is refused.
#[derive(Debug)]
pub enum SendError {
    InvalidTarget(ProtocolError),
    InvalidBase64,
    InvalidTrafficClass(ProtocolError),
}

pub open spec fn send_error_text(e: SendError) -> Seq<char> {
    match e {
        SendError::InvalidTarget(_) => "invalid target"@,
        SendError::InvalidBase64 => "payload_base64 is not valid base64"@,
        SendError::InvalidTrafficClass(_) => "invalid traffic_class"@,
    }
}

impl SendError {
    /// The text the web interface answers with.
    pub fn message(&self) -> (s: &'static str)
        ensures
            s@ == send_error_text(*self),
    {
        match self {
            SendError::InvalidTarget(_) => "invalid target",
            SendError::InvalidBase64 => "payload_base64 is not valid base64",
            SendError::InvalidTrafficClass(_) => "invalid traffic_class",
        }
    }
}

/// The content type when the request names none: binary for a base64
/// payload, UTF-8 text otherwise.
pub open spec fn default_content_type(binary: bool) -> Seq<char> {
    if binary {
        "application/octet-stream"@
    } else {
        "text/plain; charset=utf-8"@
    }
}

/// The request names a class that is not one.
pub open spec fn class_refused(traffic_class: Option<String>) -> bool {
    match traffic_class {
        Some(c) => class_named(c@) is None,
        None => false,
    }
}

/// What a base64 payload, if the request has one, was decoded to, by view.
pub open spec fn decoded_view(decoded: Option<Option<Vec<u8>>>) -> Option<Option<Seq<u8>>> {
    match decoded {
        Some(Some(bytes)) => Some(Some(bytes@)),
        Some(None) => Some(None),
        None => None,
    }
}

/// What the request's base64 payload, if it has one, decodes to.
pub open spec fn payload_decoded(request: SendMessageRequest) -> Option<Option<Seq<u8>>> {
    match request.payload_base64 {
        Some(t) => Some(base64_decoded(t@)),
        None => None,
    }
}

/// The answer to a send request whose base64 payload, if any, decoded to
/// `decoded`: the target is read first, then the payload, then the class
/// (control when none is named); a request that passes all three is planned.
pub open spec fn send_answer(
    request: SendMessageRequest,
    decoded: Option<Option<Seq<u8>>>,
    r: Result<SendPlan, SendError>,
) -> bool {
    &&& (target_named(request.target@) is Err ==> (r matches Err(SendError::InvalidTarget(e))
        && Err::<TargetView, ProtocolError>(e) == target_named(request.target@)))
    &&& (target_named(request.target@) is Ok && decoded == Some(None::<Seq<u8>>) ==> (r matches Err(
        SendError::InvalidBase64,
    )))
    &&& (target_named(request.target@) is Ok && !(decoded == Some(None::<Seq<u8>>)) && class_refused(
        request.traffic_class,
    ) ==> (r matches Err(SendError::InvalidTrafficClass(_))))
    &&& (r matches Ok(plan) ==> {
        &&& target_named(request.target@) == Ok::<TargetView, ProtocolError>(plan.target@)
        &&& plan.payload@ == match decoded {
            Some(Some(bytes)) => bytes,
            _ => match request.text {
                Some(t) => encode_utf8(t@),
                None => Seq::<u8>::empty(),
            },
        }
        &&& plan.content_type@ == match request.content_type {
            Some(c) => c@,
            None => default_content_type(request.payload_base64 is Some),
        }
        &&& plan.subject@ == match request.subject {
            Some(s) => s@,
            None => "untitled"@,
        }
        &&& plan.traffic_class == match request.traffic_class {
            Some(c) => class_named(c@).unwrap(),
            None => TrafficClass::Control,
        }
        &&& plan.ttl == request.ttl
    })
    &&& (target_named(request.target@) is Ok && !(decoded == Some(None::<Seq<u8>>)) && !class_refused(
        request.traffic_class,
    )) ==> r is Ok
}

/// What a send request asks for, given what its base64 payload decodes to
/// (`None` when it has none).
pub fn plan_send_with(request: SendMessageRequest, decoded: Option<Option<Vec<u8>>>) -> (r: Result<SendPlan, SendError>)
    requires
        decoded is Some <==> request.payload_base64 is Some,
    ensures
        send_answer(request, decoded_view(decoded), r),
{
    let binary = request.payload_base64.is_some();
    let target = match DeliveryTarget::parse(request.target.as_str()) {
        Ok(t) => t,
        Err(e) => {
            return Err(SendError::InvalidTarget(e));
        },
    };
    let payload = match decoded {
        Some(Some(bytes)) => bytes,
        Some(None) => {
            return Err(SendError::InvalidBase64);
        },
        None => match request.text {
            Some(t) => text_bytes(t.as_str()),
            None => Vec::new(),
        },
    };
    let content_type = match request.content_type {
        Some(c) => c,
        None => if binary {
            String::from_str("application/octet-stream")
        } else {
            String::from_str("text/plain; charset=utf-8")
        },
    };
    let subject = match request.subject {
        Some(s) => s,
        None => String::from_str("untitled"),
    };
    let traffic_class = match request.traffic_class {
        Some(raw) => match TrafficClass::parse(raw.as_str()) {
            Ok(c) => c,
            Err(e) => {
                return Err(SendError::InvalidTrafficClass(e));
            },
        },
        None => TrafficClass::Control,
    };
    Ok(SendPlan { target, traffic_class, subject, content_type, payload, ttl: request.ttl })
}

/// The UTF-8 bytes of a text (`String::into_bytes`).
fn text_bytes(t: &str) -> (b: Vec<u8>)
    ensures
        b@ == encode_utf8(t@),
{
    vstd::slice::slice_to_vec(t.as_bytes())
}

/// What a send request asks for: the base64 payload, if any, is decoded
/// first.
pub fn plan_send(request: SendMessageRequest) -> (r: Result<SendPlan, SendError>)
    ensures
        send_answer(request, payload_decoded(request), r),
{
    let decoded = match &request.payload_base64 {
        Some(text) => Some(decode_base64(text.as_str())),
        None => None,
    };
    plan_send_with(request, decoded)
}

// ----- message ids -----
/// The hexadecimal digit of a value below 16, in lower case.
pub open spec fn hex_digit(n: u8) -> char {
    if n < 10 { ((48 + n) as u8) as char } else { ((87 + n) as u8) as char }
}

/// Digit `k` (0 to 31, most significant first) of a 128-bit value in
/// hexadecimal.
pub open spec fn nibble(id: u128, k: int) -> u8 {
    ((id >> (((31 - k) * 4) as u32)) & 15u128) as u8
}

/// How many hyphens come before position `p` of a UUID's text.
pub open spec fn hyphens_before(p: int) -> int {
    if p < 9 { 0 } else if p < 14 { 1 } else if p < 19 { 2 } else if p < 24 { 3 } else { 4 }
}

/// The text of a UUID (`Uuid`'s `Display`): 32 lower-case hexadecimal
/// digits, most significant first, with hyphens after the 8th, 12th, 16th
/// and 20th.
pub open spec fn uuid_text(id: u128) -> Seq<char> {
    Seq::new(
        36,
        |p: int|
            if p == 8 || p == 13 || p == 18 || p == 23 {
                '-'
            } else {
                hex_digit(nibble(id, p - hyphens_before(p)))
            },
    )
}

/// A message id as text.
pub fn uuid_string(id: u128) -> (s: String)
    ensures
        s@ == uuid_text(id),
{
    let mut s = String::new();
    let mut p: u32 = 0;
    let mut k: u32 = 0;
    while p < 36
        invariant
            p <= 36,
            k as int == p - (if p <= 8 { 0int } else if p <= 13 { 1int } else if p <= 18 { 2int } else if p <= 23 { 3int } else { 4int }),
            s@ == uuid_text(id).subrange(0, p as int),
        decreases 36 - p,
    {
        let c = if p == 8 || p == 13 || p == 18 || p == 23 {
            '-'
        } else {
            let sh: u32 = (31 - k) * 4;
            let m: u128 = (id >> sh) & 15u128;
            assert(m <= 15u128) by (bit_vector)
                requires
                    m == (id >> sh) & 15u128,
            ;
            let n: u8 = m as u8;
            assert(n == nibble(id, p - hyphens_before(p as int)));
            k = k + 1;
            if n < 10 {
                ((48 + n) as u8) as char
            } else {
                ((87 + n) as u8) as char
            }
        };
        assert(c == uuid_text(id)[p as int]);
        push_char(&mut s, c);
        assert(uuid_text(id).subrange(0, p + 1) =~= uuid_text(id).subrange(0, p as int).push(c));
        p = p + 1;
    }
    assert(uuid_text(id).subrange(0, 36) =~= uuid_text(id));
    s
}

/// What `Uuid::parse_str` reads a text as, or `None` when it refuses it.
pub uninterp spec fn uuid_parsed(text: Seq<char>) -> Option<u128>;

/// `Uuid::parse_str` of the `uuid` crate, as the 128-bit value.
#[verifier::external_body]
fn parse_uuid(text: &str) -> (r: Option<u128>)
    ensures
        r == uuid_parsed(text@),
{
    uuid::Uuid::parse_str(text).ok().map(|u| u.as_u128())
}

// ----- the inbox, as shown -----
/// An inbox entry in the inbox list.
#[derive(Debug)]
pub struct InboxSummary {
    pub message_id: String,
    pub source_node: String,
    pub target: String,
    pub traffic_class: String,
    pub subject: String,
    pub content_type: String,
    pub created_at_ms: u64,
    pub received_at_ms: u64,
    pub payload_size: usize,
    pub preview: String,
}

/// An inbox entry shown on its own, with its payload.
#[derive(Debug)]
pub struct InboxDetail {
    pub summary: InboxSummary,
    pub payload_base64: String,
}

/// Why an inbox entry cannot be shown: a bad id (400) or none such (404).
#[derive(Debug, Clone, Copy, PartialEq, Eq, Structural)]
pub enum InboxLookupError {
    InvalidId,
    NotFound,
}

impl InboxLookupError {
    /// The HTTP status and the text the web interface answers with.
    pub fn status_and_message(self) -> (r: (u16, &'static str))
        ensures
            self == InboxLookupError::InvalidId ==> r.0 == 400 && r.1@ == "invalid message id"@,
            self == InboxLookupError::NotFound ==> r.0 == 404 && r.1@ == "message not found"@,
    {
        match self {
            InboxLookupError::InvalidId => (400, "invalid message id"),
            InboxLookupError::NotFound => (404, "message not found"),
        }
    }
}

/// How an inbox entry is listed: its id as text, its target and class by
/// label, the size and a preview of its payload.
pub fn inbox_summary(item: &InboxEntry) -> (s: InboxSummary)
    ensures
        s.message_id@ == uuid_text(item.envelope.message_id),
        s.source_node@ == item.envelope.source_node@,
        s.target@ == target_label(item.envelope.target@),
        s.traffic_class@ == class_label(item.envelope.traffic_class),
        s.subject@ == item.envelope.subject@,
        s.content_type@ == item.envelope.content_type@,
        s.created_at_ms == item.envelope.created_at_ms,
        s.received_at_ms == item.received_at_ms,
        s.payload_size == item.envelope.payload@.len(),
        s.preview@ == preview_of(item.envelope.content_type@, utf8_text(item.envelope.payload@), item.envelope.payload@.len()),
{
    let e = &item.envelope;
    InboxSummary {
        message_id: uuid_string(e.message_id),
        source_node: e.source_node.clone(),
        target: e.target.label(),
        traffic_class: String::from_str(e.traffic_class.label()),
        subject: e.subject.clone(),
        content_type: e.content_type.clone(),
        created_at_ms: e.created_at_ms,
        received_at_ms: item.received_at_ms,
        payload_size: e.payload.len(),
        preview: payload_preview(e.content_type.as_str(), e.payload.as_slice()),
    }
}

/// How an inbox entry is shown on its own: as listed, with its payload in
/// base64.
pub fn inbox_detail(item: &InboxEntry) -> (d: InboxDetail)
    requires
        (item.envelope.payload@.len() / 3) * 4 + 4 <= usize::MAX,
    ensures
        d.summary.message_id@ == uuid_text(item.envelope.message_id),
        d.summary.payload_size == item.envelope.payload@.len(),
        d.summary.preview@ == preview_of(item.envelope.content_type@, utf8_text(item.envelope.payload@), item.envelope.payload@.len()),
        d.payload_base64@ == base64_encoded(item.envelope.payload@),
{
    InboxDetail { summary: inbox_summary(item), payload_base64: encode_base64(item.envelope.payload.as_slice()) }
}

/// The inbox entry a message id names, given how the id text was read
/// (`None` when it is not a UUID).
pub fn find_inbox_with<'a>(store: &'a StorageData, id: Option<u128>) -> (r: Result<&'a InboxEntry, InboxLookupError>)
    ensures
        match id {
            None => r == Err::<&InboxEntry, InboxLookupError>(InboxLookupError::InvalidId),
            Some(k) => match r {
                Ok(e) => store.inbox().contains_key(k) && *e == store.inbox()[k],
                Err(x) => x == InboxLookupError::NotFound && !store.inbox().contains_key(k),
            },
        },
{
    match id {
        None => Err(InboxLookupError::InvalidId),
        Some(k) => match store.get_inbox(k) {
            Some(e) => Ok(e),
            None => Err(InboxLookupError::NotFound),
        },
    }
}

/// The inbox entry a message id (as text) names.
pub fn find_inbox<'a>(store: &'a StorageData, id_text: &str) -> (r: Result<&'a InboxEntry, InboxLookupError>)
    ensures
        uuid_parsed(id_text@) is None ==> r == Err::<&InboxEntry, InboxLookupError>(InboxLookupError::InvalidId),
        uuid_parsed(id_text@) matches Some(k) ==> match r {
            Ok(e) => store.inbox().contains_key(k) && *e == store.inbox()[k],
            Err(x) => x == InboxLookupError::NotFound && !store.inbox().contains_key(k),
        },
{
    find_inbox_with(store, parse_uuid(id_text))
}

} // verus!

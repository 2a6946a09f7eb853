//! The decisions of the mesh runtime: which links a peer has and which one
//! carries a message, which pending messages are forwarded, kept or dropped,
//! in what order peers are tried, and how link quality is summarised.
//!
//! Sockets, channels and timers stay with the caller, which hands the
//! library plain values and acts on what it answers.
use crate::protocol::{
    target_forwards_after, target_matches, DeliveryTarget, Frame, TargetView, TrafficClass, TransportKind,
};
use crate::table::Table;
use crate::text::{
    chars_eq, chars_of, concat_str, lower_chars, lower_seq, strings_view, trim, trim_chars,
};
use vstd::prelude::*;

verus! {

#[derive(Debug, Clone)]
pub struct RuntimeStatus {
    pub node_id: String,
    pub tags: Vec<String>,
    pub pending_queue: usize,
    pub inbox_items: usize,
    pub peers: Vec<PeerStatus>,
}

#[derive(Debug, Clone)]
pub struct PeerStatus {
    pub node_id: String,
    pub role: Option<String>,
    pub relationship: String,
    pub preferred_transport_order: Vec<String>,
    pub tags: Vec<String>,
    pub configured: bool,
    pub discovered: bool,
    pub alive: bool,
    pub power_state: String,
    pub last_seen_ms: Option<u64>,
    pub last_report_ms: Option<u64>,
    pub uptime_ms: Option<u64>,
    pub remote_pending_queue: Option<usize>,
    pub remote_inbox_items: Option<usize>,
    pub remote_wifi_mode: Option<String>,
    pub remote_wifi_ssid: Option<String>,
    pub remote_wifi_signal: Option<u8>,
    pub connection_quality: String,
    pub last_rtt_ms: Option<u64>,
    pub advertised_network_addr: Option<String>,
    pub advertised_web_url: Option<String>,
    pub links: Vec<PeerLinkStatus>,
}

#[derive(Debug, Clone)]
pub struct PeerLinkStatus {
    pub transport: String,
    pub remote_addr: String,
    pub connected_at_ms: u64,
    pub last_rx_ms: Option<u64>,
    pub last_rtt_ms: Option<u64>,
    pub quality: String,
}

#[derive(Debug, Clone)]
pub struct PeerPolicy {
    pub node_id: String,
    pub role: Option<String>,
    pub relationship: String,
    pub preferred_transport_order: Vec<String>,
}

// ----- transport orders -----
pub open spec fn transport_word(s: Seq<char>) -> bool {
    s == "usb"@ || s == "network"@ || s == "wifi"@
}

pub open spec fn canonical_transport(s: Seq<char>) -> Seq<char> {
    if s == "wifi"@ {
        "network"@
    } else {
        s
    }
}

/// The known transport names among `items` (trimmed, lower-cased, `wifi`
/// read as `network`), in their order.
pub open spec fn known_transports(items: Seq<Seq<char>>) -> Seq<Seq<char>>
    decreases items.len(),
{
    if items.len() == 0 {
        Seq::empty()
    } else {
        let front = known_transports(items.drop_last());
        let w = lower_seq(trim(items.last()));
        if transport_word(w) {
            front.push(canonical_transport(w))
        } else {
            front
        }
    }
}

/// A transport order: the known names in the given order, then `usb` and
/// `network` if they were not named.
pub open spec fn normalized_order(items: Seq<Seq<char>>) -> Seq<Seq<char>> {
    let k = known_transports(items);
    let with_usb = if k.contains("usb"@) {
        k
    } else {
        k.push("usb"@)
    };
    if with_usb.contains("network"@) {
        with_usb
    } else {
        with_usb.push("network"@)
    }
}

/// `usb` first, then `network`.
pub fn default_transport_order() -> (v: Vec<String>)
    ensures
        strings_view(v@) == seq!["usb"@, "network"@],
{
    let mut v: Vec<String> = Vec::new();
    v.push(String::from_str("usb"));
    v.push(String::from_str("network"));
    assert(strings_view(v@) =~= seq!["usb"@, "network"@]);
    v
}

/// Whether `v` holds the text `s`.
pub(crate) fn contains_text(v: &Vec<String>, s: &str) -> (r: bool)
    ensures
        r == strings_view(v@).contains(s@),
{
    let mut i: usize = 0;
    while i < v.len()
        invariant
            i <= v.len(),
            forall|k: int| 0 <= k < i ==> v@[k]@ != s@,
        decreases v.len() - i,
    {
        if crate::json::str_eq(v[i].as_str(), s) {
            assert(strings_view(v@)[i as int] == s@);
            return true;
        }
        i = i + 1;
    }
    assert(!strings_view(v@).contains(s@)) by {
        if strings_view(v@).contains(s@) {
            let k = choose|k: int| 0 <= k < strings_view(v@).len() && strings_view(v@)[k] == s@;
            assert(v@[k]@ == s@);
        }
    }
    false
}

/// Cleans up a preferred transport order: unknown names are dropped, `wifi`
/// becomes `network`, and a missing `usb` or `network` is appended.
pub fn normalize_transport_order(items: &[String]) -> (v: Vec<String>)
    ensures
        strings_view(v@) == normalized_order(strings_view(items@)),
{
    let mut v: Vec<String> = Vec::new();
    let mut i: usize = 0;
    while i < items.len()
        invariant
            i <= items.len(),
            strings_view(v@) == known_transports(strings_view(items@).subrange(0, i as int)),
        decreases items.len() - i,
    {
        let ghost pre = strings_view(items@).subrange(0, i as int);
        assert(strings_view(items@).subrange(0, i + 1).drop_last() =~= pre);
        assert(strings_view(items@).subrange(0, i + 1).last() == items@[i as int]@);
        proof {
            reveal_strlit("usb");
            reveal_strlit("network");
            reveal_strlit("wifi");
            assert("usb"@.len() == 3 && "wifi"@.len() == 4 && "network"@.len() == 7);
        }
        let cs = chars_of(items[i].as_str());
        let w = lower_chars(&trim_chars(&cs));
        let is_usb = chars_eq(&w, &chars_of("usb"));
        let is_network = chars_eq(&w, &chars_of("network"));
        let is_wifi = chars_eq(&w, &chars_of("wifi"));
        let ghost before = strings_view(v@);
        if is_usb {
            v.push(String::from_str("usb"));
        } else if is_network || is_wifi {
            v.push(String::from_str("network"));
        }
        assert(strings_view(v@) =~= known_transports(strings_view(items@).subrange(0, i + 1)));
        i = i + 1;
    }
    assert(strings_view(items@).subrange(0, items.len() as int) == strings_view(items@));
    let ghost k = strings_view(v@);
    if !contains_text(&v, "usb") {
        v.push(String::from_str("usb"));
        assert(strings_view(v@) =~= k.push("usb"@));
    }
    let ghost k2 = strings_view(v@);
    if !contains_text(&v, "network") {
        v.push(String::from_str("network"));
        assert(strings_view(v@) =~= k2.push("network"@));
    }
    v
}

proof fn lemma_known_are_canonical(items: Seq<Seq<char>>)
    ensures
        forall|i: int|
            0 <= i < known_transports(items).len() ==> (#[trigger] known_transports(items)[i] == "usb"@
                || known_transports(items)[i] == "network"@),
    decreases items.len(),
{
    if items.len() > 0 {
        let front = known_transports(items.drop_last());
        lemma_known_are_canonical(items.drop_last());
        let k = known_transports(items);
        assert forall|i: int| 0 <= i < k.len() implies (#[trigger] k[i] == "usb"@ || k[i] == "network"@) by {
            if i < front.len() {
                assert(k[i] == front[i]);
            }
        }
    }
}

proof fn lemma_canonical_known(items: Seq<Seq<char>>)
    requires
        forall|i: int| 0 <= i < items.len() ==> (#[trigger] items[i] == "usb"@ || items[i] == "network"@),
    ensures
        known_transports(items) == items,
    decreases items.len(),
{
    reveal_strlit("usb");
    reveal_strlit("network");
    reveal_strlit("wifi");
    if items.len() > 0 {
        let front = items.drop_last();
        assert forall|i: int| 0 <= i < front.len() implies (#[trigger] front[i] == "usb"@ || front[i]
            == "network"@) by {
            assert(front[i] == items[i]);
        }
        lemma_canonical_known(front);
        let last = items.last();
        assert(last == "usb"@ || last == "network"@);
        assert(trim("usb"@) == "usb"@) by {
            assert(crate::text::trim_start("usb"@) == "usb"@);
            assert(crate::text::trim_end("usb"@) == "usb"@);
        }
        assert(trim("network"@) == "network"@) by {
            assert(crate::text::trim_start("network"@) == "network"@);
            assert(crate::text::trim_end("network"@) == "network"@);
        }
        assert(lower_seq("usb"@) =~= "usb"@);
        assert(lower_seq("network"@) =~= "network"@);
        assert(front.push(last) =~= items);
    }
}

/// A normalized order names only `usb` and `network`, names both, and is
/// left as it is by normalizing again.
pub proof fn law_normalized_order(items: Seq<Seq<char>>)
    ensures
        forall|i: int|
            0 <= i < normalized_order(items).len() ==> (#[trigger] normalized_order(items)[i] == "usb"@
                || normalized_order(items)[i] == "network"@),
        normalized_order(items).contains("usb"@),
        normalized_order(items).contains("network"@),
        normalized_order(normalized_order(items)) == normalized_order(items),
{
    let k = known_transports(items);
    lemma_known_are_canonical(items);
    let n = normalized_order(items);
    let with_usb = if k.contains("usb"@) { k } else { k.push("usb"@) };
    assert(with_usb.contains("usb"@)) by {
        if !k.contains("usb"@) {
            assert(with_usb[with_usb.len() - 1] == "usb"@);
        }
    }
    assert(n.contains("usb"@)) by {
        let j = choose|j: int| 0 <= j < with_usb.len() && with_usb[j] == "usb"@;
        assert(n[j] == "usb"@);
    }
    assert(n.contains("network"@)) by {
        if !with_usb.contains("network"@) {
            assert(n[n.len() - 1] == "network"@);
        }
    }
    assert forall|i: int| 0 <= i < n.len() implies (#[trigger] n[i] == "usb"@ || n[i] == "network"@) by {
        if i < k.len() {
            assert(n[i] == k[i]);
        }
    }
    lemma_canonical_known(n);
}

// ----- peers and messages -----
/// Peers named by the target come first.
pub open spec fn priority_of(peer: Seq<char>, target: Option<TargetView>) -> u8 {
    match target {
        Some(TargetView::Node(n)) => if n == peer {
            0
        } else {
            1
        },
        Some(TargetView::Nodes(ns)) => if ns.contains(peer) {
            0
        } else {
            1
        },
        _ => 1,
    }
}

pub fn peer_priority(peer_id: &str, target: Option<&DeliveryTarget>) -> (p: u8)
    ensures
        p == priority_of(
            peer_id@,
            match target {
                Some(t) => Some(t@),
                None => None,
            },
        ),
{
    match target {
        Some(DeliveryTarget::Node(_)) | Some(DeliveryTarget::Nodes(_)) => {
            let t = target.unwrap();
            if t.matches(peer_id) {
                0
            } else {
                1
            }
        },
        _ => 1,
    }
}

/// The peers of priority `p`, in their order.
pub open spec fn with_priority(peers: Seq<Seq<char>>, target: TargetView, p: u8) -> Seq<Seq<char>>
    decreases peers.len(),
{
    if peers.len() == 0 {
        Seq::empty()
    } else {
        let front = with_priority(peers.drop_last(), target, p);
        if priority_of(peers.last(), Some(target)) == p {
            front.push(peers.last())
        } else {
            front
        }
    }
}

/// A stable sort by priority: the peers the target names, then the others,
/// each group in its original order.
pub fn sort_candidates_for_message(candidates: &mut Vec<String>, target: &DeliveryTarget)
    ensures
        strings_view(final(candidates)@) == with_priority(strings_view(old(candidates)@), target@, 0)
            + with_priority(strings_view(old(candidates)@), target@, 1),
{
    let ghost orig = strings_view(candidates@);
    let mut first: Vec<String> = Vec::new();
    let mut rest: Vec<String> = Vec::new();
    let mut all: Vec<String> = Vec::new();
    std::mem::swap(&mut all, candidates);
    let mut i: usize = 0;
    while i < all.len()
        invariant
            i <= all.len(),
            strings_view(all@) == orig,
            strings_view(first@) == with_priority(orig.subrange(0, i as int), target@, 0),
            strings_view(rest@) == with_priority(orig.subrange(0, i as int), target@, 1),
        decreases all.len() - i,
    {
        let ghost pre = orig.subrange(0, i as int);
        assert(orig.subrange(0, i + 1).drop_last() =~= pre);
        assert(orig.subrange(0, i + 1).last() == all@[i as int]@);
        let p = peer_priority(all[i].as_str(), Some(target));
        let ghost f0 = strings_view(first@);
        let ghost r0 = strings_view(rest@);
        if p == 0 {
            first.push(all[i].clone());
            assert(strings_view(first@) =~= f0.push(all@[i as int]@));
        } else {
            rest.push(all[i].clone());
            assert(strings_view(rest@) =~= r0.push(all@[i as int]@));
        }
        i = i + 1;
    }
    assert(orig.subrange(0, all.len() as int) == orig);
    let ghost fv = strings_view(first@);
    let ghost rv = strings_view(rest@);
    first.append(&mut rest);
    assert(strings_view(first@) =~= fv + rv);
    *candidates = first;
}

/// The topic a node publishes its status on.
pub fn node_status_topic(node_id: &str) -> (t: String)
    ensures
        t@ == "sys/node_status/"@ + node_id@,
{
    concat_str("sys/node_status/", node_id)
}

/// The node whose status a topic carries: what follows `sys/node_status/`.
pub fn status_topic_node(topic: &str) -> (r: Option<String>)
    ensures
        match r {
            Some(n) => topic@ == "sys/node_status/"@ + n@,
            None => !crate::text::starts_with(topic@, "sys/node_status/"@),
        },
{
    let t = chars_of(topic);
    let p = chars_of("sys/node_status/");
    proof {
        reveal_strlit("sys/node_status/");
    }
    if t.len() < p.len() {
        return None;
    }
    let head = crate::text::sub_chars(t.as_slice(), 0, p.len());
    if !chars_eq(&head, &p) {
        return None;
    }
    let rest = crate::text::sub_chars(t.as_slice(), p.len(), t.len());
    assert(t@ =~= head@ + rest@);
    Some(crate::text::string_of(rest.as_slice()))
}

/// What to do with a pending message before any peer is tried.
#[derive(Debug, Clone, Copy, PartialEq, Eq, Structural)]
pub enum PendingAction {
    /// Drop it from the queue.
    Remove,
    /// Leave it queued (acknowledged traffic waits for its acks).
    Keep,
    /// Try the peers.
    Forward,
}

pub open spec fn pending_action_of(hops: u8, ttl: u8, class: TrafficClass, target: TargetView, node: Seq<char>) -> PendingAction {
    if hops >= ttl || !target_forwards_after(target, node) {
        if class != TrafficClass::Control {
            PendingAction::Remove
        } else {
            PendingAction::Keep
        }
    } else {
        PendingAction::Forward
    }
}

/// A message that ran out of hops, or that has no receiver beyond this node,
/// is not forwarded; unacknowledged traffic is then dropped.
pub fn pending_action(hops: u8, ttl: u8, class: TrafficClass, target: &DeliveryTarget, node_id: &str) -> (a: PendingAction)
    ensures
        a == pending_action_of(hops, ttl, class, target@, node_id@),
{
    if hops >= ttl || !target.requires_forwarding_after(node_id) {
        if !class.requires_ack() {
            PendingAction::Remove
        } else {
            PendingAction::Keep
        }
    } else {
        PendingAction::Forward
    }
}

/// What happens to a pending message: it is forwarded exactly when hops
/// are left and someone beyond this node is to receive it (a broadcast
/// always has); a message that is not forwarded stays queued only when it
/// is control traffic, which waits for its acks, and is dropped otherwise.
/// Fewer hops taken never stops a message that more hops would forward.
pub proof fn law_pending_action(hops: u8, fewer: u8, ttl: u8, class: TrafficClass, target: TargetView, node: Seq<char>)
    requires
        fewer <= hops,
    ensures
        (pending_action_of(hops, ttl, class, target, node) == PendingAction::Forward) <==> (hops < ttl
            && target_forwards_after(target, node)),
        hops < ttl && target == TargetView::Broadcast ==> pending_action_of(hops, ttl, class, target, node)
            == PendingAction::Forward,
        pending_action_of(hops, ttl, class, target, node) == PendingAction::Keep <==> (class == TrafficClass::Control
            && !(hops < ttl && target_forwards_after(target, node))),
        pending_action_of(hops, ttl, class, target, node) == PendingAction::Forward ==> pending_action_of(
            fewer,
            ttl,
            class,
            target,
            node,
        ) == PendingAction::Forward,
        target == TargetView::Node(node) ==> pending_action_of(hops, ttl, class, target, node) != PendingAction::Forward,
{
}

/// Whether a peer is tried again: acknowledged traffic once the ack timeout
/// has passed since the last attempt (or when there was none), other
/// traffic while the peer has not taken it.
pub fn should_retry(requires_ack: bool, last_attempt_ms: Option<u64>, now_ms: u64, ack_timeout_ms: u64, acked: bool) -> (r: bool)
    ensures
        r == (if requires_ack {
            match last_attempt_ms {
                Some(t) => (if now_ms >= t {
                    now_ms - t
                } else {
                    0
                }) >= ack_timeout_ms,
                None => true,
            }
        } else {
            !acked
        }),
{
    if requires_ack {
        match last_attempt_ms {
            Some(t) => now_ms.saturating_sub(t) >= ack_timeout_ms,
            None => true,
        }
    } else {
        !acked
    }
}

/// The hop count a forwarded copy carries, or none when that exceeds the
/// time to live.
pub fn outbound_hops(hops: u8, ttl: u8) -> (r: Option<u8>)
    ensures
        r == (if (if hops < 255 {
            hops + 1
        } else {
            255
        }) > ttl {
            None::<u8>
        } else {
            Some((if hops < 255 {
                hops + 1
            } else {
                255
            }) as u8)
        }),
{
    let h = hops.saturating_add(1);
    if h > ttl {
        None
    } else {
        Some(h)
    }
}

/// Whether a dispatched message leaves the queue: unacknowledged traffic
/// once it went to at least one peer.
pub fn remove_after_dispatch(class: TrafficClass, dispatched_any: bool) -> (r: bool)
    ensures
        r == (class != TrafficClass::Control && dispatched_any),
{
    !class.requires_ack() && dispatched_any
}

/// Whether a message is kept in this node's inbox: it is addressed here and
/// is not stream traffic.
pub fn stores_in_inbox(class: TrafficClass, target: &DeliveryTarget, node_id: &str) -> (r: bool)
    ensures
        r == (class != TrafficClass::Stream && target_matches(target@, node_id@)),
{
    class.should_store_inbox() && target.matches(node_id)
}

/// Whether a message updates the latest value of its topic: telemetry with
/// a topic.
pub fn updates_topic(class: TrafficClass, topic: &str) -> (r: bool)
    ensures
        r == (class == TrafficClass::Telemetry && topic@.len() > 0),
{
    match class {
        TrafficClass::Telemetry => chars_of(topic).len() > 0,
        _ => false,
    }
}

// ----- link quality -----
pub open spec fn min_opt(a: Option<u64>, b: Option<u64>) -> Option<u64> {
    match (a, b) {
        (Some(x), Some(y)) => Some(if x <= y {
            x
        } else {
            y
        }),
        (Some(x), None) => Some(x),
        (None, y) => y,
    }
}

/// The smallest round-trip time among the links.
pub open spec fn best_rtt(links: Seq<PeerLinkStatus>) -> Option<u64>
    decreases links.len(),
{
    if links.len() == 0 {
        None
    } else {
        min_opt(best_rtt(links.drop_last()), links.last().last_rtt_ms)
    }
}

pub open spec fn rtt_grade(rtt: u64) -> Seq<char> {
    if rtt <= 20 {
        "excellent"@
    } else if rtt <= 80 {
        "good"@
    } else if rtt <= 200 {
        "fair"@
    } else {
        "poor"@
    }
}

pub open spec fn signal_grade(signal: u8) -> Seq<char> {
    if signal >= 75 {
        "good"@
    } else if signal >= 45 {
        "fair"@
    } else {
        "poor"@
    }
}

pub open spec fn peer_quality(links: Seq<PeerLinkStatus>, wifi_signal: Option<u8>, alive: bool) -> Seq<char> {
    if !alive {
        "offline"@
    } else if best_rtt(links) is Some {
        rtt_grade(best_rtt(links).unwrap())
    } else if wifi_signal is Some {
        signal_grade(wifi_signal.unwrap())
    } else if links.len() > 0 {
        "connected"@
    } else {
        "discovered"@
    }
}

/// The smallest round-trip time among the links, if any link has one.
pub fn min_link_rtt(links: &[PeerLinkStatus]) -> (r: Option<u64>)
    ensures
        r == best_rtt(links@),
{
    let mut best: Option<u64> = None;
    let mut i: usize = 0;
    while i < links.len()
        invariant
            i <= links.len(),
            best == best_rtt(links@.subrange(0, i as int)),
        decreases links.len() - i,
    {
        assert(links@.subrange(0, i + 1).drop_last() =~= links@.subrange(0, i as int));
        best = match (best, links[i].last_rtt_ms) {
            (Some(x), Some(y)) => Some(if x <= y {
                x
            } else {
                y
            }),
            (Some(x), None) => Some(x),
            (None, y) => y,
        };
        i = i + 1;
    }
    assert(links@.subrange(0, links.len() as int) == links@);
    best
}

/// One word for how well a peer is reachable.
pub fn summarize_peer_quality(links: &[PeerLinkStatus], wifi_signal: Option<u8>, alive: bool) -> (s: String)
    ensures
        s@ == peer_quality(links@, wifi_signal, alive),
{
    if !alive {
        return String::from_str("offline");
    }
    match min_link_rtt(links) {
        Some(rtt) => {
            if rtt <= 20 {
                return String::from_str("excellent");
            }
            if rtt <= 80 {
                return String::from_str("good");
            }
            if rtt <= 200 {
                return String::from_str("fair");
            }
            return String::from_str("poor");
        },
        None => {},
    }
    match wifi_signal {
        Some(signal) => {
            if signal >= 75 {
                return String::from_str("good");
            }
            if signal >= 45 {
                return String::from_str("fair");
            }
            return String::from_str("poor");
        },
        None => {},
    }
    if links.len() > 0 {
        return String::from_str("connected");
    }
    String::from_str("discovered")
}

pub open spec fn link_quality(transport: Seq<char>, rtt_ms: Option<u64>, wifi_signal: Option<u8>) -> Seq<char> {
    if transport == "usb"@ {
        match rtt_ms {
            Some(rtt) => if rtt <= 10 {
                "excellent"@
            } else if rtt <= 40 {
                "good"@
            } else {
                "fair"@
            },
            None => "connected"@,
        }
    } else if wifi_signal is Some {
        signal_grade(wifi_signal.unwrap())
    } else {
        match rtt_ms {
            Some(rtt) => if rtt <= 40 {
                "good"@
            } else if rtt <= 120 {
                "fair"@
            } else {
                "poor"@
            },
            None => "connected"@,
        }
    }
}

/// One word for the quality of a single link.
pub fn classify_link_quality(transport: &str, rtt_ms: Option<u64>, wifi_signal: Option<u8>) -> (s: String)
    ensures
        s@ == link_quality(transport@, rtt_ms, wifi_signal),
{
    if crate::json::str_eq(transport, "usb") {
        match rtt_ms {
            Some(rtt) => if rtt <= 10 {
                String::from_str("excellent")
            } else if rtt <= 40 {
                String::from_str("good")
            } else {
                String::from_str("fair")
            },
            None => String::from_str("connected"),
        }
    } else {
        match wifi_signal {
            Some(signal) => if signal >= 75 {
                String::from_str("good")
            } else if signal >= 45 {
                String::from_str("fair")
            } else {
                String::from_str("poor")
            },
            None => match rtt_ms {
                Some(rtt) => if rtt <= 40 {
                    String::from_str("good")
                } else if rtt <= 120 {
                    String::from_str("fair")
                } else {
                    String::from_str("poor")
                },
                None => String::from_str("connected"),
            },
        }
    }
}

/// An offline peer is reported offline whatever its links; a live peer with
/// a measured round trip is graded by its best one.
pub proof fn law_quality_grades(links: Seq<PeerLinkStatus>, wifi_signal: Option<u8>)
    ensures
        peer_quality(links, wifi_signal, false) == "offline"@,
        best_rtt(links) matches Some(r) ==> peer_quality(links, wifi_signal, true) == rtt_grade(r),
{
}

/// The grades of a live peer by its best round trip: excellent up to 20 ms,
/// good up to 80 ms, fair up to 200 ms, poor beyond; a faster best round
/// trip never grades worse. Without any round trip, its Wi-Fi signal
/// grades it (good from 75, fair from 45, poor below); without either, it
/// is connected when it has a link and only discovered when it has none.
pub proof fn law_peer_grades(links: Seq<PeerLinkStatus>, wifi_signal: Option<u8>, other: Seq<PeerLinkStatus>)
    ensures
        best_rtt(links) matches Some(r) ==> {
            &&& r <= 20 ==> peer_quality(links, wifi_signal, true) == "excellent"@
            &&& 20 < r <= 80 ==> peer_quality(links, wifi_signal, true) == "good"@
            &&& 80 < r <= 200 ==> peer_quality(links, wifi_signal, true) == "fair"@
            &&& 200 < r ==> peer_quality(links, wifi_signal, true) == "poor"@
        },
        (best_rtt(links) matches Some(r) && best_rtt(other) matches Some(q) && r <= q) ==> grade_rank(
            peer_quality(links, wifi_signal, true),
        ) >= grade_rank(peer_quality(other, wifi_signal, true)),
        best_rtt(links) is None ==> (wifi_signal matches Some(sg) ==> {
            &&& sg >= 75 ==> peer_quality(links, wifi_signal, true) == "good"@
            &&& 45 <= sg < 75 ==> peer_quality(links, wifi_signal, true) == "fair"@
            &&& sg < 45 ==> peer_quality(links, wifi_signal, true) == "poor"@
        }),
        best_rtt(links) is None && wifi_signal is None ==> peer_quality(links, wifi_signal, true) == (if links.len() > 0 {
            "connected"@
        } else {
            "discovered"@
        }),
{
    lemma_grade_ranks();
}

/// How well a grade ranks: excellent, good, fair, poor; any other word
/// (no measurement) ranks below them all.
pub open spec fn grade_rank(g: Seq<char>) -> int {
    if g == "excellent"@ {
        4
    } else if g == "good"@ {
        3
    } else if g == "fair"@ {
        2
    } else if g == "poor"@ {
        1
    } else {
        0
    }
}

/// The grades of a single link. A USB link is excellent up to 10 ms round
/// trip, good up to 40 ms and fair beyond. Any other link is graded by its
/// Wi-Fi signal when there is a reading (good from 75, fair from 45, poor
/// below), and otherwise by its round trip: good up to 40 ms, fair up to
/// 120 ms, poor beyond. A link with neither is merely connected.
pub proof fn law_link_grades(transport: Seq<char>, rtt: u64, signal: u8)
    ensures
        transport == "usb"@ ==> {
            &&& rtt <= 10 ==> link_quality(transport, Some(rtt), None) == "excellent"@
            &&& 10 < rtt <= 40 ==> link_quality(transport, Some(rtt), None) == "good"@
            &&& 40 < rtt ==> link_quality(transport, Some(rtt), None) == "fair"@
            &&& link_quality(transport, None, None) == "connected"@
        },
        transport != "usb"@ ==> {
            &&& rtt <= 40 ==> link_quality(transport, Some(rtt), None) == "good"@
            &&& 40 < rtt <= 120 ==> link_quality(transport, Some(rtt), None) == "fair"@
            &&& 120 < rtt ==> link_quality(transport, Some(rtt), None) == "poor"@
            &&& signal >= 75 ==> link_quality(transport, Some(rtt), Some(signal)) == "good"@
            &&& 45 <= signal < 75 ==> link_quality(transport, Some(rtt), Some(signal)) == "fair"@
            &&& signal < 45 ==> link_quality(transport, Some(rtt), Some(signal)) == "poor"@
            &&& link_quality(transport, None, None) == "connected"@
        },
{
}

/// A faster round trip never grades a link worse than a slower one, on any
/// transport and with or without a signal reading; and a measured round
/// trip always grades a link above an unmeasured one.
pub proof fn law_link_grade_monotone(transport: Seq<char>, fast: u64, slow: u64, signal: Option<u8>)
    requires
        fast <= slow,
    ensures
        grade_rank(link_quality(transport, Some(fast), signal)) >= grade_rank(link_quality(transport, Some(slow), signal)),
        signal is None ==> grade_rank(link_quality(transport, Some(slow), None)) > grade_rank(
            link_quality(transport, None, None),
        ),
{
    lemma_grade_ranks();
}

proof fn lemma_grade_ranks()
    ensures
        grade_rank("excellent"@) == 4,
        grade_rank("good"@) == 3,
        grade_rank("fair"@) == 2,
        grade_rank("poor"@) == 1,
        grade_rank("connected"@) == 0,
{
    reveal_strlit("excellent");
    reveal_strlit("good");
    reveal_strlit("fair");
    reveal_strlit("poor");
    reveal_strlit("connected");
    assert("good"@[0] != "excellent"@[0]);
    assert("fair"@[0] != "excellent"@[0] && "fair"@[0] != "good"@[0]);
    assert("poor"@[0] != "excellent"@[0] && "poor"@[0] != "good"@[0] && "poor"@[0] != "fair"@[0]);
    assert("connected"@[0] != "excellent"@[0] && "connected"@[0] != "good"@[0] && "connected"@[0] != "fair"@[0]
        && "connected"@[0] != "poor"@[0]);
}

// ----- the registry of links -----
/// One live connection to a peer. `connection_id` is the 128-bit value of
/// the connection's UUID; the channel that writes to it stays with the
/// caller, under the same id.
#[derive(Debug, Clone)]
pub struct LinkState {
    pub connection_id: u128,
    pub remote_addr: String,
    pub connected_at_ms: u64,
    pub last_rx_ms: Option<u64>,
    pub last_rtt_ms: Option<u64>,
}

/// The links of one peer: at most one per transport.
#[derive(Debug, Clone)]
pub struct PeerLinks {
    pub usb: Option<LinkState>,
    pub wifi: Option<LinkState>,
}

pub open spec fn link_on(l: PeerLinks, t: TransportKind) -> Option<LinkState> {
    match t {
        TransportKind::Usb => l.usb,
        TransportKind::Wifi => l.wifi,
    }
}

pub open spec fn with_link(l: PeerLinks, t: TransportKind, v: Option<LinkState>) -> PeerLinks {
    match t {
        TransportKind::Usb => PeerLinks { usb: v, ..l },
        TransportKind::Wifi => PeerLinks { wifi: v, ..l },
    }
}

pub open spec fn no_links() -> PeerLinks {
    PeerLinks { usb: None, wifi: None }
}

/// The transport a name of a transport order stands for.
pub open spec fn order_transport(name: Seq<char>) -> Option<TransportKind> {
    if name == "usb"@ {
        Some(TransportKind::Usb)
    } else if name == "network"@ || name == "wifi"@ {
        Some(TransportKind::Wifi)
    } else {
        None
    }
}

/// The first transport of the order on which the peer has a link.
pub open spec fn best_link(l: PeerLinks, order: Seq<Seq<char>>) -> Option<(TransportKind, LinkState)>
    decreases order.len(),
{
    if order.len() == 0 {
        None
    } else {
        match order_transport(order[0]) {
            Some(t) => match link_on(l, t) {
                Some(s) => Some((t, s)),
                None => best_link(l, order.drop_first()),
            },
            None => best_link(l, order.drop_first()),
        }
    }
}

/// Live links by peer.
pub struct PeerRegistry {
    peers: Table<PeerLinks>,
}

impl View for PeerRegistry {
    type V = Map<Seq<char>, PeerLinks>;

    closed spec fn view(&self) -> Map<Seq<char>, PeerLinks> {
        self.peers@
    }
}

fn take_links(peers: &mut Table<PeerLinks>, peer_id: &str) -> (r: PeerLinks)
    ensures
        final(peers)@ == old(peers)@.remove(peer_id@),
        r == (if old(peers)@.contains_key(peer_id@) {
            old(peers)@[peer_id@]
        } else {
            no_links()
        }),
{
    match peers.remove(peer_id) {
        Some(l) => l,
        None => PeerLinks { usb: None, wifi: None },
    }
}

fn set_link(l: PeerLinks, t: TransportKind, v: Option<LinkState>) -> (r: PeerLinks)
    ensures
        r == with_link(l, t, v),
{
    let mut l = l;
    match t {
        TransportKind::Usb => l.usb = v,
        TransportKind::Wifi => l.wifi = v,
    }
    l
}

impl PeerRegistry {
    pub fn new() -> (r: PeerRegistry)
        ensures
            r@ == Map::<Seq<char>, PeerLinks>::empty(),
    {
        PeerRegistry { peers: Table::new() }
    }

    /// Records a new connection to a peer over a transport, replacing any
    /// earlier one on that transport; it counts as heard from now.
    pub fn register(&mut self, peer_id: String, transport: TransportKind, connection_id: u128, remote_addr: String)
        ensures
            final(self)@.dom() == old(self)@.dom().insert(peer_id@),
            forall|k: Seq<char>| k != peer_id@ && old(self)@.contains_key(k) ==> #[trigger] final(self)@[k] == old(self)@[k],
            link_on(final(self)@[peer_id@], transport) matches Some(s) && s.connection_id == connection_id
                && s.remote_addr@ == remote_addr@ && s.last_rx_ms is Some && s.last_rtt_ms is None,
            link_on(final(self)@[peer_id@], other_transport(transport)) == link_on(
                if old(self)@.contains_key(peer_id@) {
                    old(self)@[peer_id@]
                } else {
                    no_links()
                },
                other_transport(transport),
            ),
    {
        let entry = take_links(&mut self.peers, peer_id.as_str());
        let connected = crate::command::now_ms();
        let heard = crate::command::now_ms();
        let link = LinkState {
            connection_id,
            remote_addr,
            connected_at_ms: connected,
            last_rx_ms: Some(heard),
            last_rtt_ms: None,
        };
        let updated = set_link(entry, transport, Some(link));
        self.peers.insert(peer_id, updated);
        assert(self@.dom() =~= old(self)@.dom().insert(peer_id@));
    }

    /// Drops a connection, but only if it is still the peer's link on that
    /// transport; a peer left without links is forgotten.
    pub fn unregister(&mut self, peer_id: &str, transport: TransportKind, connection_id: u128)
        ensures
            !old(self)@.contains_key(peer_id@) ==> final(self)@ == old(self)@,
            old(self)@.contains_key(peer_id@) ==> {
                let before = old(self)@[peer_id@];
                let after = if link_on(before, transport) matches Some(s) && s.connection_id
                    == connection_id {
                    with_link(before, transport, None)
                } else {
                    before
                };
                if after.usb is None && after.wifi is None {
                    final(self)@ == old(self)@.remove(peer_id@)
                } else {
                    final(self)@ == old(self)@.insert(peer_id@, after)
                }
            },
    {
        if !self.peers.contains(peer_id) {
            return;
        }
        let entry = take_links(&mut self.peers, peer_id);
        let matches = match transport {
            TransportKind::Usb => match &entry.usb {
                Some(l) => l.connection_id == connection_id,
                None => false,
            },
            TransportKind::Wifi => match &entry.wifi {
                Some(l) => l.connection_id == connection_id,
                None => false,
            },
        };
        let after = if matches {
            set_link(entry, transport, None)
        } else {
            entry
        };
        if after.usb.is_none() && after.wifi.is_none() {
            assert(self@ =~= old(self)@.remove(peer_id@));
        } else {
            self.peers.insert(String::from_str(peer_id), after);
            assert(self@ =~= old(self)@.insert(peer_id@, with_link(old(self)@[peer_id@], transport, None))
                || self@ =~= old(self)@.insert(peer_id@, old(self)@[peer_id@]));
        }
    }

    /// Whether the peer has a link on the transport.
    pub fn has_link(&self, peer_id: &str, transport: TransportKind) -> (r: bool)
        ensures
            r == (self@.contains_key(peer_id@) && link_on(self@[peer_id@], transport) is Some),
    {
        match self.peers.get(peer_id) {
            Some(entry) => match transport {
                TransportKind::Usb => entry.usb.is_some(),
                TransportKind::Wifi => entry.wifi.is_some(),
            },
            None => false,
        }
    }

    /// The link to send on: the first transport of the order (`usb`, or
    /// `network`/`wifi`) on which the peer has a link. The caller sends on
    /// the channel it keeps under the link's connection id.
    pub fn best_sender(&self, peer_id: &str, transport_order: &[String]) -> (r: Option<(TransportKind, u128)>)
        ensures
            !self@.contains_key(peer_id@) ==> r is None,
            self@.contains_key(peer_id@) ==> match best_link(self@[peer_id@], strings_view(transport_order@)) {
                Some((t, s)) => r == Some((t, s.connection_id)),
                None => r is None,
            },
    {
        let entry = match self.peers.get(peer_id) {
            Some(e) => e,
            None => return None,
        };
        let ghost order = strings_view(transport_order@);
        let mut i: usize = 0;
        assert(order.skip(0) =~= order);
        while i < transport_order.len()
            invariant
                i <= transport_order.len(),
                order == strings_view(transport_order@),
                self@.contains_key(peer_id@),
                *entry == self@[peer_id@],
                best_link(*entry, order) == best_link(*entry, order.skip(i as int)),
            decreases transport_order.len() - i,
        {
            assert(order.skip(i as int)[0] == transport_order@[i as int]@);
            assert(order.skip(i as int).drop_first() =~= order.skip(i + 1));
            let name = transport_order[i].as_str();
            if crate::json::str_eq(name, "usb") {
                match &entry.usb {
                    Some(l) => return Some((TransportKind::Usb, l.connection_id)),
                    None => {},
                }
            } else if crate::json::str_eq(name, "network") || crate::json::str_eq(name, "wifi") {
                match &entry.wifi {
                    Some(l) => return Some((TransportKind::Wifi, l.connection_id)),
                    None => {},
                }
            }
            i = i + 1;
        }
        None
    }

    /// Notes traffic from the peer on the transport, now.
    pub fn touch_rx(&mut self, peer_id: &str, transport: TransportKind)
        ensures
            final(self)@.dom() == old(self)@.dom(),
            forall|k: Seq<char>| k != peer_id@ && old(self)@.contains_key(k) ==> #[trigger] final(self)@[k] == old(self)@[k],
            old(self)@.contains_key(peer_id@) ==> {
                let before = old(self)@[peer_id@];
                let after = final(self)@[peer_id@];
                &&& link_on(after, other_transport(transport)) == link_on(before, other_transport(transport))
                &&& match link_on(before, transport) {
                    Some(s) => link_on(after, transport) matches Some(a) && a.last_rx_ms is Some
                        && a.connection_id == s.connection_id && a.last_rtt_ms == s.last_rtt_ms,
                    None => link_on(after, transport) is None,
                }
            },
    {
        if !self.peers.contains(peer_id) {
            return;
        }
        let entry = take_links(&mut self.peers, peer_id);
        let heard = crate::command::now_ms();
        let mut entry = entry;
        match transport {
            TransportKind::Usb => match entry.usb {
                Some(mut l) => {
                    l.last_rx_ms = Some(heard);
                    entry.usb = Some(l);
                },
                None => {},
            },
            TransportKind::Wifi => match entry.wifi {
                Some(mut l) => {
                    l.last_rx_ms = Some(heard);
                    entry.wifi = Some(l);
                },
                None => {},
            },
        }
        self.peers.insert(String::from_str(peer_id), entry);
        assert(self@.dom() =~= old(self)@.dom());
    }

    /// Notes a measured round trip on the transport.
    pub fn record_rtt(&mut self, peer_id: &str, transport: TransportKind, rtt_ms: u64)
        ensures
            final(self)@.dom() == old(self)@.dom(),
            forall|k: Seq<char>| k != peer_id@ && old(self)@.contains_key(k) ==> #[trigger] final(self)@[k] == old(self)@[k],
            old(self)@.contains_key(peer_id@) ==> {
                let before = old(self)@[peer_id@];
                let after = final(self)@[peer_id@];
                &&& link_on(after, other_transport(transport)) == link_on(before, other_transport(transport))
                &&& match link_on(before, transport) {
                    Some(s) => link_on(after, transport) == Some(LinkState { last_rtt_ms: Some(rtt_ms), ..s }),
                    None => link_on(after, transport) is None,
                }
            },
    {
        if !self.peers.contains(peer_id) {
            return;
        }
        let entry = take_links(&mut self.peers, peer_id);
        let mut entry = entry;
        match transport {
            TransportKind::Usb => match entry.usb {
                Some(mut l) => {
                    l.last_rtt_ms = Some(rtt_ms);
                    entry.usb = Some(l);
                },
                None => {},
            },
            TransportKind::Wifi => match entry.wifi {
                Some(mut l) => {
                    l.last_rtt_ms = Some(rtt_ms);
                    entry.wifi = Some(l);
                },
                None => {},
            },
        }
        self.peers.insert(String::from_str(peer_id), entry);
        assert(self@.dom() =~= old(self)@.dom());
    }

    /// The peers with at least one link.
    pub fn connected_peer_ids(&self) -> (ids: Vec<String>)
        ensures
            ids@.len() == self@.len(),
            forall|i: int| 0 <= i < ids@.len() ==> self@.contains_key(#[trigger] ids@[i]@),
            forall|k: Seq<char>| #[trigger] self@.contains_key(k) ==> exists|i: int| 0 <= i < ids@.len() && ids@[i]@ == k,
            forall|i: int, j: int| 0 <= i < j < ids@.len() ==> #[trigger] ids@[i]@ != #[trigger] ids@[j]@,
    {
        self.peers.keys()
    }

    /// The links of every peer as the status page shows them: the USB link
    /// first, then the network link, each with its quality.
    pub fn snapshot(&self) -> (v: Vec<(String, Vec<PeerLinkStatus>)>)
        ensures
            v@.len() == self@.len(),
            forall|i: int| 0 <= i < v@.len() ==> self@.contains_key(#[trigger] v@[i].0@) && link_statuses_of(
                v@[i].1@,
                self@[v@[i].0@],
            ),
            forall|k: Seq<char>| #[trigger] self@.contains_key(k) ==> exists|i: int| 0 <= i < v@.len() && v@[i].0@ == k,
    {
        let keys = self.peers.keys();
        let mut v: Vec<(String, Vec<PeerLinkStatus>)> = Vec::new();
        let mut i: usize = 0;
        while i < keys.len()
            invariant
                i <= keys@.len(),
                keys@.len() == self@.len(),
                forall|j: int| 0 <= j < keys@.len() ==> self@.contains_key(#[trigger] keys@[j]@),
                v@.len() == i,
                forall|j: int| 0 <= j < i ==> #[trigger] v@[j].0@ == keys@[j]@ && link_statuses_of(v@[j].1@, self@[keys@[j]@]),
            decreases keys@.len() - i,
        {
            let k = &keys[i];
            assert(self@.contains_key(keys@[i as int]@));
            match self.peers.get(k.as_str()) {
                Some(links) => {
                    let statuses = link_statuses(links);
                    let ghost before = v@;
                    v.push((k.clone(), statuses));
                    proof {
                        assert(v@[i as int].0@ == keys@[i as int]@);
                        assert(link_statuses_of(v@[i as int].1@, self@[keys@[i as int]@]));
                        assert forall|j: int| 0 <= j < i + 1 implies #[trigger] v@[j].0@ == keys@[j]@ && link_statuses_of(
                            v@[j].1@,
                            self@[keys@[j]@],
                        ) by {
                            if j < i {
                                assert(v@[j] == before[j]);
                            }
                        }
                    }
                },
                None => {
                    assert(false);
                },
            }
            i = i + 1;
        }
        proof {
            assert forall|k: Seq<char>| #[trigger] self@.contains_key(k) implies exists|i: int| 0 <= i < v@.len() && v@[i].0@ == k by {
                let j = choose|j: int| 0 <= j < keys@.len() && keys@[j]@ == k;
                assert(v@[j].0@ == k);
            }
        }
        v
    }

    /// For every peer, the connection that broadcast traffic goes out on:
    /// the USB link if there is one, else the network link.
    pub fn broadcast_links(&self) -> (v: Vec<(String, TransportKind, u128)>)
        ensures
            forall|i: int| 0 <= i < v@.len() ==> {
                let (k, t, id) = #[trigger] v@[i];
                &&& self@.contains_key(k@)
                &&& broadcast_link(self@[k@]) == Some((t, id))
            },
            forall|k: Seq<char>| #[trigger] self@.contains_key(k) && broadcast_link(self@[k]) is Some ==> exists|i: int|
                0 <= i < v@.len() && v@[i].0@ == k,
    {
        let keys = self.peers.keys();
        let mut v: Vec<(String, TransportKind, u128)> = Vec::new();
        let mut i: usize = 0;
        while i < keys.len()
            invariant
                i <= keys@.len(),
                keys@.len() == self@.len(),
                forall|j: int| 0 <= j < keys@.len() ==> self@.contains_key(#[trigger] keys@[j]@),
                forall|j: int| 0 <= j < v@.len() ==> {
                    let (k, t, id) = #[trigger] v@[j];
                    &&& self@.contains_key(k@)
                    &&& broadcast_link(self@[k@]) == Some((t, id))
                },
                forall|j: int| 0 <= j < i && broadcast_link(self@[keys@[j]@]) is Some ==> exists|q: int|
                    0 <= q < v@.len() && #[trigger] v@[q].0@ == keys@[j]@,
            decreases keys@.len() - i,
        {
            let k = &keys[i];
            assert(self@.contains_key(keys@[i as int]@));
            match self.peers.get(k.as_str()) {
                Some(links) => {
                    let chosen = match &links.usb {
                        Some(l) => Some((TransportKind::Usb, l.connection_id)),
                        None => match &links.wifi {
                            Some(l) => Some((TransportKind::Wifi, l.connection_id)),
                            None => None,
                        },
                    };
                    assert(chosen == broadcast_link(self@[keys@[i as int]@]));
                    let ghost before = v@;
                    if let Some((t, id)) = chosen {
                        v.push((k.clone(), t, id));
                        assert(v@[v@.len() - 1].0@ == keys@[i as int]@);
                    }
                    proof {
                        assert forall|j: int| 0 <= j < i + 1 && broadcast_link(self@[keys@[j]@]) is Some implies exists|q: int|
                            0 <= q < v@.len() && #[trigger] v@[q].0@ == keys@[j]@ by {
                            if j < i {
                                let q = choose|q: int| 0 <= q < before.len() && #[trigger] before[q].0@ == keys@[j]@;
                                assert(v@[q] == before[q]);
                            } else {
                                assert(v@[v@.len() - 1].0@ == keys@[i as int]@);
                            }
                        }
                    }
                },
                None => {
                    assert(false);
                },
            }
            i = i + 1;
        }
        proof {
            assert forall|k: Seq<char>| #[trigger] self@.contains_key(k) && broadcast_link(self@[k]) is Some implies exists|q: int|
                0 <= q < v@.len() && v@[q].0@ == k by {
                let j = choose|j: int| 0 <= j < keys@.len() && keys@[j]@ == k;
                assert(broadcast_link(self@[keys@[j]@]) is Some);
            }
        }
        v
    }
}

pub open spec fn other_transport(t: TransportKind) -> TransportKind {
    match t {
        TransportKind::Usb => TransportKind::Wifi,
        TransportKind::Wifi => TransportKind::Usb,
    }
}

/// A registered connection is found by `has_link` and, while it is the
/// peer's only link, dropped again by `unregister` with its id.
pub proof fn law_register_unregister(before: PeerLinks, t: TransportKind, s: LinkState)
    requires
        link_on(before, other_transport(t)) is None,
    ensures
        ({
            let after = with_link(before, t, Some(s));
            &&& link_on(after, t) is Some
            &&& (link_on(after, t) matches Some(x) && x.connection_id == s.connection_id)
            &&& ({
                let dropped = with_link(after, t, None);
                dropped.usb is None && dropped.wifi is None
            })
        }),
{
}

/// A link is chosen only on a transport the order names, and only if the
/// peer has it.
pub proof fn law_best_link_follows_order(l: PeerLinks, order: Seq<Seq<char>>)
    ensures
        best_link(l, order) matches Some((t, s)) ==> link_on(l, t) == Some(s) && exists|i: int|
            0 <= i < order.len() && order_transport(#[trigger] order[i]) == Some(t),
    decreases order.len(),
{
    if order.len() > 0 {
        law_best_link_follows_order(l, order.drop_first());
        match best_link(l, order) {
            Some((t, s)) => {
                if !(order_transport(order[0]) == Some(t)) {
                    let i = choose|i: int| 0 <= i < order.drop_first().len() && order_transport(
                        #[trigger] order.drop_first()[i],
                    ) == Some(t);
                    assert(order_transport(order[i + 1]) == Some(t));
                }
            },
            None => {},
        }
    }
}

// ----- topic subscriptions -----
/// The topics of a peer after it subscribes to `topics`: each one not yet
/// there is added at the end, in order.
pub open spec fn subscribed(existing: Seq<Seq<char>>, topics: Seq<Seq<char>>) -> Seq<Seq<char>>
    decreases topics.len(),
{
    if topics.len() == 0 {
        existing
    } else {
        let prev = subscribed(existing, topics.drop_last());
        if prev.contains(topics.last()) { prev } else { prev.push(topics.last()) }
    }
}


/// Adds the topics a peer subscribes to (`Runtime::handle_subscribe`).
pub fn add_subscriptions(existing: &mut Vec<String>, topics: Vec<String>)
    ensures
        strings_view(final(existing)@) == subscribed(strings_view(old(existing)@), strings_view(topics@)),
{
    let ghost start = strings_view(existing@);
    let ghost tv = strings_view(topics@);
    let mut i: usize = 0;
    while i < topics.len()
        invariant
            i <= topics@.len(),
            tv == strings_view(topics@),
            strings_view(existing@) == subscribed(start, tv.take(i as int)),
        decreases topics@.len() - i,
    {
        proof {
            assert(tv.take(i + 1).drop_last() =~= tv.take(i as int));
            assert(tv.take(i + 1).last() == topics@[i as int]@);
        }
        if !contains_text(existing, topics[i].as_str()) {
            let ghost before = existing@;
            existing.push(topics[i].clone());
            assert(strings_view(existing@) =~= strings_view(before).push(topics@[i as int]@));
        }
        i = i + 1;
    }
    assert(tv.take(topics@.len() as int) =~= tv);
}

/// Drops the topics a peer unsubscribes from (`Runtime::handle_unsubscribe`).
pub fn remove_subscriptions(existing: &mut Vec<String>, topics: &Vec<String>)
    ensures
        strings_view(final(existing)@) == strings_view(old(existing)@).filter(
            |t: Seq<char>| !strings_view(topics@).contains(t),
        ),
{
    let ghost sv = strings_view(existing@);
    let mut kept: Vec<String> = Vec::new();
    let mut i: usize = 0;
    while i < existing.len()
        invariant
            i <= existing@.len(),
            sv == strings_view(existing@),
            strings_view(kept@) == sv.take(i as int).filter(|t: Seq<char>| !strings_view(topics@).contains(t)),
        decreases existing@.len() - i,
    {
        proof {
            assert(sv.take(i + 1).drop_last() =~= sv.take(i as int));
            assert(sv.take(i + 1).last() == existing@[i as int]@);
            assert(sv.take(i + 1) =~= sv.take(i as int).push(existing@[i as int]@));
            sv.take(i as int).lemma_filter_push(existing@[i as int]@, |t: Seq<char>| !strings_view(topics@).contains(t));
        }
        if !contains_text(topics, existing[i].as_str()) {
            let ghost before = kept@;
            kept.push(existing[i].clone());
            assert(strings_view(kept@) =~= strings_view(before).push(existing@[i as int]@));
        }
        i = i + 1;
    }
    assert(sv.take(existing@.len() as int) =~= sv);
    *existing = kept;
}

// ----- link status, queues and frame sizes -----
/// How a link is shown: its transport, address, times and quality.
pub open spec fn link_status_of(s: PeerLinkStatus, label: Seq<char>, link: LinkState) -> bool {
    &&& s.transport@ == label
    &&& s.remote_addr@ == link.remote_addr@
    &&& s.connected_at_ms == link.connected_at_ms
    &&& s.last_rx_ms == link.last_rx_ms
    &&& s.last_rtt_ms == link.last_rtt_ms
    &&& s.quality@ == link_quality(label, link.last_rtt_ms, None)
}

/// The links of a peer as shown: the USB link (`usb`) first, then the
/// network link (`network`).
pub open spec fn link_statuses_of(v: Seq<PeerLinkStatus>, l: PeerLinks) -> bool {
    match (l.usb, l.wifi) {
        (Some(u), Some(w)) => v.len() == 2 && link_status_of(v[0], "usb"@, u) && link_status_of(v[1], "network"@, w),
        (Some(u), None) => v.len() == 1 && link_status_of(v[0], "usb"@, u),
        (None, Some(w)) => v.len() == 1 && link_status_of(v[0], "network"@, w),
        (None, None) => v.len() == 0,
    }
}

/// The connection broadcast traffic goes out on: USB first.
pub open spec fn broadcast_link(l: PeerLinks) -> Option<(TransportKind, u128)> {
    match l.usb {
        Some(u) => Some((TransportKind::Usb, u.connection_id)),
        None => match l.wifi {
            Some(w) => Some((TransportKind::Wifi, w.connection_id)),
            None => None,
        },
    }
}

fn link_status(label: &str, link: &LinkState) -> (s: PeerLinkStatus)
    ensures
        link_status_of(s, label@, *link),
{
    PeerLinkStatus {
        transport: String::from_str(label),
        remote_addr: link.remote_addr.clone(),
        connected_at_ms: link.connected_at_ms,
        last_rx_ms: link.last_rx_ms,
        last_rtt_ms: link.last_rtt_ms,
        quality: classify_link_quality(label, link.last_rtt_ms, None),
    }
}

/// The links of a peer, as shown.
pub fn link_statuses(links: &PeerLinks) -> (v: Vec<PeerLinkStatus>)
    ensures
        link_statuses_of(v@, *links),
{
    let mut v: Vec<PeerLinkStatus> = Vec::new();
    if let Some(u) = &links.usb {
        v.push(link_status("usb", u));
    }
    if let Some(w) = &links.wifi {
        v.push(link_status("network", w));
    }
    v
}

/// Frames that go through the bulk queue of a link: data that is not
/// control traffic, and stream frames. Everything else takes the control
/// queue, which is served first.
pub open spec fn bulk_frame(f: Frame) -> bool {
    match f {
        Frame::Data(e) => e.traffic_class != TrafficClass::Control,
        Frame::StreamOpen(_) => true,
        Frame::StreamChunk(_) => true,
        Frame::StreamClose(_) => true,
        _ => false,
    }
}

/// Whether a frame takes the bulk queue of a link.
pub fn uses_bulk_queue(frame: &Frame) -> (r: bool)
    ensures
        r == bulk_frame(*frame),
{
    match frame {
        Frame::Data(e) => !e.traffic_class.requires_ack(),
        Frame::StreamOpen(_) => true,
        Frame::StreamChunk(_) => true,
        Frame::StreamClose(_) => true,
        _ => false,
    }
}

/// The largest frame a link reads: 32 MiB.
pub const MAX_FRAME_SIZE: u32 = 33554432;

/// Why a frame length is refused.
#[derive(Debug, Clone, Copy, PartialEq, Eq, Structural)]
pub enum FrameLengthError {
    Empty,
    TooLarge(u32),
}

/// The length of a frame body read off a link: refused when it is zero or
/// over `MAX_FRAME_SIZE`.
pub fn check_frame_length(length: u32) -> (r: Result<usize, FrameLengthError>)
    ensures
        length == 0 ==> r == Err::<usize, FrameLengthError>(FrameLengthError::Empty),
        length > MAX_FRAME_SIZE ==> r == Err::<usize, FrameLengthError>(FrameLengthError::TooLarge(length)),
        0 < length <= MAX_FRAME_SIZE ==> r == Ok::<usize, FrameLengthError>(length as usize),
{
    if length == 0 {
        Err(FrameLengthError::Empty)
    } else if length > MAX_FRAME_SIZE {
        Err(FrameLengthError::TooLarge(length))
    } else {
        Ok(length as usize)
    }
}


// ----- discovered addresses -----
/// A discovered peer is fresh while it was seen at most `ttl_ms` before
/// `now_ms` (a time after `now_ms` counts as now).
pub open spec fn discovery_fresh_spec(last_seen_ms: u64, now_ms: u64, ttl_ms: u64) -> bool {
    now_ms <= last_seen_ms || now_ms - last_seen_ms <= ttl_ms
}

/// A peer is fresh when just seen, stays fresh for `ttl_ms` and no longer:
/// freshness at a time implies freshness at every earlier time, and a peer
/// last seen more than `ttl_ms` ago is stale.
pub proof fn law_discovery_freshness(last_seen_ms: u64, earlier: u64, now_ms: u64, ttl_ms: u64)
    requires
        earlier <= now_ms,
    ensures
        discovery_fresh_spec(now_ms, now_ms, ttl_ms),
        now_ms <= last_seen_ms + ttl_ms ==> discovery_fresh_spec(last_seen_ms, now_ms, ttl_ms),
        now_ms > last_seen_ms + ttl_ms ==> !discovery_fresh_spec(last_seen_ms, now_ms, ttl_ms),
        discovery_fresh_spec(last_seen_ms, now_ms, ttl_ms) ==> discovery_fresh_spec(last_seen_ms, earlier, ttl_ms),
{
}

/// Whether a peer seen at `last_seen_ms` is still fresh at `now_ms`.
pub fn discovery_fresh(last_seen_ms: u64, now_ms: u64, ttl_ms: u64) -> (r: bool)
    ensures
        r == discovery_fresh_spec(last_seen_ms, now_ms, ttl_ms),
{
    now_ms.saturating_sub(last_seen_ms) <= ttl_ms
}

/// The configured network address of the first configured peer named
/// `peer_id`.
pub open spec fn configured_network_addr(peers: Seq<crate::config::PeerConfig>, peer_id: Seq<char>) -> Option<Seq<char>>
    decreases peers.len(),
{
    if peers.len() == 0 {
        None
    } else if peers[0].node_id@ == peer_id {
        match peers[0].network_addr {
            Some(a) => Some(a@),
            None => None,
        }
    } else {
        configured_network_addr(peers.drop_first(), peer_id)
    }
}

/// The address to dial a peer on over the network: the one it announced
/// (`discovered`, with the time it was seen) while that is fresh, else the
/// configured one.
pub fn resolve_network_addr(
    discovered: Option<(&str, u64)>,
    peers: &[crate::config::PeerConfig],
    peer_id: &str,
    now_ms: u64,
    ttl_ms: u64,
) -> (r: Option<String>)
    ensures
        match discovered {
            Some((addr, seen)) if discovery_fresh_spec(seen, now_ms, ttl_ms) => r matches Some(x) && x@ == addr@,
            _ => match configured_network_addr(peers@, peer_id@) {
                Some(a) => r matches Some(x) && x@ == a,
                None => r is None,
            },
        },
{
    match discovered {
        Some((addr, seen)) => {
            if discovery_fresh(seen, now_ms, ttl_ms) {
                return Some(addr.to_string());
            }
        },
        None => {},
    }
    let mut i: usize = 0;
    assert(peers@.skip(0) =~= peers@);
    while i < peers.len()
        invariant
            i <= peers.len(),
            configured_network_addr(peers@, peer_id@) == configured_network_addr(peers@.skip(i as int), peer_id@),
            match discovered {
                Some((_, seen)) => !discovery_fresh_spec(seen, now_ms, ttl_ms),
                None => true,
            },
        decreases peers.len() - i,
    {
        assert(peers@.skip(i as int)[0] == peers@[i as int]);
        assert(peers@.skip(i as int).drop_first() =~= peers@.skip(i + 1));
        if chars_eq(&chars_of(peers[i].node_id.as_str()), &chars_of(peer_id)) {
            return match &peers[i].network_addr {
                Some(a) => Some(a.clone()),
                None => None,
            };
        }
        i = i + 1;
    }
    None
}

} // verus!

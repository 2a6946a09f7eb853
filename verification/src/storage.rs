//! The message store of a node: the send queue, the inbox, and the ids
//! already seen, which keep a message from being queued twice. Control
//! traffic is remembered for good; other traffic in a bounded window of the
//! most recent ids.
use crate::order::{insert_sorted, strictly_sorted};
use crate::protocol::{class_priority, Envelope, TrafficClass};
use crate::table::Table;
use crate::text::strings_view;
use std::collections::{HashMap, HashSet, VecDeque};
use vstd::prelude::*;
use vstd::std_specs::iter::IteratorSpec;

verus! {

broadcast use vstd::std_specs::hash::group_hash_axioms;

/// How many ids of non-control traffic are remembered.
pub const MAX_TRANSIENT_SEEN: usize = 65536;

/// A message waiting in the send queue.
#[derive(Debug)]
pub struct StoredMessage {
    pub envelope: Envelope,
    /// The peer it came from, if it was not made here.
    pub ingress_peer: Option<String>,
    /// The peers that acknowledged it, in increasing order.
    pub acked_peers: Vec<String>,
    /// When it was last sent to each peer.
    pub last_attempt_ms_by_peer: Table<u64>,
    pub stored_at_ms: u64,
}

/// A message delivered to this node.
#[derive(Debug)]
pub struct InboxEntry {
    pub envelope: Envelope,
    pub received_at_ms: u64,
}

impl StoredMessage {
    /// A message just queued: no acknowledgement, no attempt yet.
    pub fn new(envelope: Envelope, ingress_peer: Option<String>, stored_at_ms: u64) -> (m: StoredMessage)
        ensures
            m.envelope == envelope,
            m.ingress_peer == ingress_peer,
            m.acked_peers@.len() == 0,
            m.last_attempt_ms_by_peer@ == Map::<Seq<char>, u64>::empty(),
            m.stored_at_ms == stored_at_ms,
    {
        StoredMessage {
            envelope,
            ingress_peer,
            acked_peers: Vec::new(),
            last_attempt_ms_by_peer: Table::new(),
            stored_at_ms,
        }
    }

    /// The peers that acknowledged it, as a set of names.
    pub open spec fn acked(&self) -> Set<Seq<char>> {
        strings_view(self.acked_peers@).to_set()
    }
}

/// Whether node `self_id` offers message `m` to `peer` at `now_ms`: never
/// back to itself or to the peer the message came from, never to a peer
/// that acknowledged it, and acknowledged traffic only once the ack timeout
/// has passed since the last attempt on that peer (or when there was none).
pub open spec fn offered(m: StoredMessage, peer: Seq<char>, self_id: Seq<char>, now_ms: u64, ack_timeout_ms: u64) -> bool {
    &&& peer != self_id
    &&& match m.ingress_peer {
        Some(i) => i@ != peer,
        None => true,
    }
    &&& !m.acked().contains(peer)
    &&& m.envelope.traffic_class == TrafficClass::Control && m.last_attempt_ms_by_peer@.contains_key(peer) ==> {
        let t = m.last_attempt_ms_by_peer@[peer];
        (if now_ms >= t {
            now_ms - t
        } else {
            0
        }) >= ack_timeout_ms
    }
}

/// Whom a queued message is offered to. Never this node, never the peer it
/// came from and never a peer that acknowledged it. Otherwise
/// unacknowledged traffic goes to every peer, and control traffic to a peer
/// not yet tried, or last tried at least `ack_timeout_ms` ago; a control
/// message tried more recently than that is held back. Waiting longer never takes
/// an offer away.
pub proof fn law_offer(m: StoredMessage, peer: Seq<char>, self_id: Seq<char>, now_ms: u64, later_ms: u64, ack_timeout_ms: u64)
    requires
        now_ms <= later_ms,
    ensures
        !offered(m, self_id, self_id, now_ms, ack_timeout_ms),
        m.ingress_peer matches Some(i) ==> !offered(m, i@, self_id, now_ms, ack_timeout_ms),
        m.acked().contains(peer) ==> !offered(m, peer, self_id, now_ms, ack_timeout_ms),
        ({
            let fresh_peer = peer != self_id && !(m.ingress_peer matches Some(i) && i@ == peer) && !m.acked().contains(peer);
            &&& fresh_peer && m.envelope.traffic_class != TrafficClass::Control ==> offered(m, peer, self_id, now_ms, ack_timeout_ms)
            &&& fresh_peer && !m.last_attempt_ms_by_peer@.contains_key(peer) ==> offered(m, peer, self_id, now_ms, ack_timeout_ms)
            &&& (fresh_peer && m.last_attempt_ms_by_peer@.contains_key(peer) && m.envelope.traffic_class == TrafficClass::Control
                && now_ms >= m.last_attempt_ms_by_peer@[peer]) ==> (offered(m, peer, self_id, now_ms, ack_timeout_ms) <==> now_ms >= m.last_attempt_ms_by_peer@[peer]
                + ack_timeout_ms)
        }),
        offered(m, peer, self_id, now_ms, ack_timeout_ms) ==> offered(m, peer, self_id, later_ms, ack_timeout_ms),
{
}

impl StoredMessage {
    /// Whether this node (`self_id`) offers the message to `peer` now.
    pub fn offer_to(&self, peer: &str, self_id: &str, now_ms: u64, ack_timeout_ms: u64) -> (r: bool)
        ensures
            r == offered(*self, peer@, self_id@, now_ms, ack_timeout_ms),
    {
        if crate::json::str_eq(peer, self_id) {
            return false;
        }
        match &self.ingress_peer {
            Some(i) => {
                if crate::json::str_eq(i.as_str(), peer) {
                    return false;
                }
            },
            None => {},
        }
        if crate::mesh::contains_text(&self.acked_peers, peer) {
            return false;
        }
        proof {
            assert(strings_view(self.acked_peers@).to_set().contains(peer@) == strings_view(
                self.acked_peers@,
            ).contains(peer@));
        }
        let last: Option<u64> = match self.last_attempt_ms_by_peer.get(peer) {
            Some(t) => Some(*t),
            None => None,
        };
        crate::mesh::should_retry(self.envelope.traffic_class.requires_ack(), last, now_ms, ack_timeout_ms, false)
    }
}

/// The ids of non-control traffic seen last, after `id` is remembered: it is
/// added at the back unless it is there, and the oldest is forgotten when the
/// window is over its size.
pub open spec fn remember(order: Seq<u128>, id: u128) -> Seq<u128> {
    let grown = if order.contains(id) { order } else { order.push(id) };
    if grown.len() > MAX_TRANSIENT_SEEN { grown.drop_first() } else { grown }
}

/// The order in which queued messages are sent: by class, then oldest first.
pub open spec fn send_key_le(a: StoredMessage, b: StoredMessage) -> bool {
    let pa = class_priority(a.envelope.traffic_class);
    let pb = class_priority(b.envelope.traffic_class);
    pa < pb || (pa == pb && a.envelope.created_at_ms <= b.envelope.created_at_ms)
}

/// Each of `s` is a value of `m`, no key twice, and every key once.
pub open spec fn lists_values<V>(s: Seq<&V>, m: Map<u128, V>, key: spec_fn(V) -> u128) -> bool {
    &&& s.len() == m.dom().len()
    &&& forall|i: int| 0 <= i < s.len() ==> m.contains_key(key(*s[i])) && m[key(*s[i])] == *s[i]
    &&& forall|i: int, j: int| 0 <= i < j < s.len() ==> key(*s[i]) != key(*s[j])
}

/// The place of a message in the send order, as one number.
pub open spec fn send_rank(m: StoredMessage) -> int {
    class_priority(m.envelope.traffic_class) * 0x1_0000_0000_0000_0000 + m.envelope.created_at_ms
}

/// The entries of `v` by increasing rank; entries of equal rank keep their
/// order.
fn sort_by_rank<'a, T>(v: &Vec<(u128, &'a T)>) -> (out: Vec<(u128, &'a T)>)
    ensures
        out@.len() == v@.len(),
        forall|j: int| 0 <= j < out@.len() ==> v@.contains(#[trigger] out@[j]),
        v@.no_duplicates() ==> out@.no_duplicates(),
        forall|a: int, b: int| 0 <= a < b < out@.len() ==> out@[a].0 <= out@[b].0,
{
    let mut out: Vec<(u128, &'a T)> = Vec::new();
    let mut i: usize = 0;
    while i < v.len()
        invariant
            i <= v@.len(),
            out@.len() == i,
            forall|j: int| 0 <= j < out@.len() ==> v@.take(i as int).contains(#[trigger] out@[j]),
            v@.no_duplicates() ==> out@.no_duplicates(),
            forall|a: int, b: int| 0 <= a < b < out@.len() ==> out@[a].0 <= out@[b].0,
        decreases v@.len() - i,
    {
        let x = v[i];
        let mut p: usize = 0;
        while p < out.len() && out[p].0 <= x.0
            invariant
                p <= out@.len(),
                forall|q: int| 0 <= q < p ==> out@[q].0 <= x.0,
            decreases out@.len() - p,
        {
            p = p + 1;
        }
        let ghost before = out@;
        let ghost t0 = v@.take(i as int);
        let ghost t1 = v@.take(i + 1);
        out.insert(p, x);
        proof {
            assert(out@ =~= before.insert(p as int, x));
            assert(t1 =~= t0.push(x));
            assert forall|j: int| 0 <= j < out@.len() implies t1.contains(#[trigger] out@[j]) by {
                if j < p {
                    assert(out@[j] == before[j]);
                    let q = choose|q: int| 0 <= q < t0.len() && t0[q] == before[j];
                    assert(t1[q] == before[j]);
                } else if j == p {
                    assert(t1[i as int] == x);
                } else {
                    assert(out@[j] == before[j - 1]);
                    let q = choose|q: int| 0 <= q < t0.len() && t0[q] == before[j - 1];
                    assert(t1[q] == before[j - 1]);
                }
            }
            if v@.no_duplicates() {
                assert(!t0.contains(x)) by {
                    if t0.contains(x) {
                        let q = choose|q: int| 0 <= q < t0.len() && t0[q] == x;
                        assert(v@[q] == v@[i as int]);
                    }
                }
                assert forall|a: int, b: int| 0 <= a < b < out@.len() implies out@[a] != out@[b] by {
                    if a == p {
                        assert(out@[b] == before[b - 1]);
                        assert(t0.contains(before[b - 1]));
                    } else if b == p {
                        assert(out@[a] == before[a]);
                        assert(t0.contains(before[a]));
                    } else {
                        let aa = if a < p { a } else { a - 1 };
                        let bb = if b < p { b } else { b - 1 };
                        assert(out@[a] == before[aa] && out@[b] == before[bb]);
                    }
                }
            }
            assert forall|a: int, b: int| 0 <= a < b < out@.len() implies out@[a].0 <= out@[b].0 by {
                if a == p {
                    assert(out@[b] == before[b - 1]);
                    if p < before.len() {
                        assert(before[p as int].0 > x.0);
                    }
                } else if b == p {
                    assert(out@[a] == before[a]);
                } else {
                    let aa = if a < p { a } else { a - 1 };
                    let bb = if b < p { b } else { b - 1 };
                    assert(out@[a] == before[aa] && out@[b] == before[bb]);
                }
            }
        }
        i = i + 1;
    }
    proof {
        assert(v@.take(v@.len() as int) =~= v@);
    }
    out
}

/// The queue read back from storage: each message under its id, a later one
/// in the list replacing an earlier one with the same id.
pub open spec fn filed_messages(s: Seq<StoredMessage>) -> Map<u128, StoredMessage>
    decreases s.len(),
{
    if s.len() == 0 {
        Map::empty()
    } else {
        filed_messages(s.drop_last()).insert(s.last().envelope.message_id, s.last())
    }
}

/// The inbox read back from storage, in the same way.
pub open spec fn filed_entries(s: Seq<InboxEntry>) -> Map<u128, InboxEntry>
    decreases s.len(),
{
    if s.len() == 0 {
        Map::empty()
    } else {
        filed_entries(s.drop_last()).insert(s.last().envelope.message_id, s.last())
    }
}

/// What remembering an id does to the window of recent ids: the id is in
/// it afterwards, the window keeps each id once and stays within its size,
/// it holds nothing but what it held and the new id, and while it was not
/// full nothing is forgotten.
pub proof fn law_remember_window(order: Seq<u128>, id: u128)
    requires
        order.no_duplicates(),
        order.len() <= MAX_TRANSIENT_SEEN,
    ensures
        remember(order, id).contains(id),
        remember(order, id).no_duplicates(),
        remember(order, id).len() <= MAX_TRANSIENT_SEEN,
        forall|x: u128| #[trigger] remember(order, id).contains(x) ==> order.contains(x) || x == id,
        order.len() < MAX_TRANSIENT_SEEN ==> forall|x: u128| #[trigger] order.contains(x) ==> remember(order, id).contains(x),
{
    let grown = if order.contains(id) { order } else { order.push(id) };
    let r = remember(order, id);
    assert(grown.contains(id)) by {
        if !order.contains(id) {
            assert(grown[grown.len() - 1] == id);
        }
    }
    assert(grown.no_duplicates()) by {
        if !order.contains(id) {
            assert forall|a: int, b: int| 0 <= a < b < grown.len() implies grown[a] != grown[b] by {
                if b == grown.len() - 1 {
                    assert(grown[a] == order[a]);
                } else {
                    assert(grown[a] == order[a] && grown[b] == order[b]);
                }
            }
        }
    }
    assert forall|x: u128| #[trigger] grown.contains(x) implies order.contains(x) || x == id by {
        if !order.contains(id) {
            let k = choose|k: int| 0 <= k < grown.len() && grown[k] == x;
            if k < order.len() {
                assert(order[k] == x);
            }
        }
    }
    assert forall|x: u128| #[trigger] order.contains(x) implies grown.contains(x) by {
        if !order.contains(id) {
            let k = choose|k: int| 0 <= k < order.len() && order[k] == x;
            assert(grown[k] == x);
        }
    }
    if grown.len() > MAX_TRANSIENT_SEEN {
        assert(!order.contains(id));
        assert(r =~= grown.drop_first());
        assert(r[r.len() - 1] == id);
        assert forall|a: int, b: int| 0 <= a < b < r.len() implies r[a] != r[b] by {
            assert(r[a] == grown[a + 1] && r[b] == grown[b + 1]);
        }
        assert forall|x: u128| #[trigger] r.contains(x) implies order.contains(x) || x == id by {
            let k = choose|k: int| 0 <= k < r.len() && r[k] == x;
            assert(grown[k + 1] == x);
        }
    }
}

/// What the store holds.
pub struct StorageData {
    messages: HashMap<u128, StoredMessage>,
    inbox: HashMap<u128, InboxEntry>,
    durable_seen: HashSet<u128>,
    transient_seen: HashSet<u128>,
    transient_seen_order: VecDeque<u128>,
}

impl StorageData {
    /// The send queue, by message id.
    pub closed spec fn messages(&self) -> Map<u128, StoredMessage> {
        self.messages@
    }

    /// The inbox, by message id.
    pub closed spec fn inbox(&self) -> Map<u128, InboxEntry> {
        self.inbox@
    }

    /// The ids remembered for good.
    pub closed spec fn durable_seen(&self) -> Set<u128> {
        self.durable_seen@
    }

    /// The ids of non-control traffic remembered, oldest first.
    pub closed spec fn transient_order(&self) -> Seq<u128> {
        self.transient_seen_order@
    }

    /// The ids remembered, for good or for a while.
    pub open spec fn seen(&self) -> Set<u128> {
        self.durable_seen().union(self.transient_order().to_set())
    }

    /// Each entry is filed under its own id; the window of recent ids holds
    /// each id once, is no longer than its size, and is what the set of
    /// recent ids holds.
    pub closed spec fn well_formed(&self) -> bool {
        &&& forall|k: u128| #[trigger] self.messages@.contains_key(k) ==> self.messages@[k].envelope.message_id == k
        &&& forall|k: u128| #[trigger] self.inbox@.contains_key(k) ==> self.inbox@[k].envelope.message_id == k
        &&& self.transient_seen@ == self.transient_seen_order@.to_set()
        &&& self.transient_seen_order@.no_duplicates()
        &&& self.transient_seen_order@.len() <= MAX_TRANSIENT_SEEN
        &&& forall|k: u128| #[trigger] self.messages@.contains_key(k) ==> strictly_sorted(strings_view(self.messages@[k].acked_peers@))
    }

    /// The window of recent ids never holds an id twice, nor more than its
    /// size.
    pub proof fn lemma_window_bounded(&self)
        requires
            self.well_formed(),
        ensures
            self.transient_order().no_duplicates(),
            self.transient_order().len() <= MAX_TRANSIENT_SEEN,
    {
    }

    /// Every queued message is filed under its id, and every inbox entry.
    pub proof fn lemma_filed_by_id(&self, k: u128)
        requires
            self.well_formed(),
        ensures
            self.messages().contains_key(k) ==> self.messages()[k].envelope.message_id == k,
            self.inbox().contains_key(k) ==> self.inbox()[k].envelope.message_id == k,
    {
    }

    /// An empty store.
    pub fn new() -> (s: StorageData)
        ensures
            s.well_formed(),
            s.messages() == Map::<u128, StoredMessage>::empty(),
            s.inbox() == Map::<u128, InboxEntry>::empty(),
            s.durable_seen() == Set::<u128>::empty(),
            s.transient_order() == Seq::<u128>::empty(),
    {
        let s = StorageData {
            messages: HashMap::new(),
            inbox: HashMap::new(),
            durable_seen: HashSet::new(),
            transient_seen: HashSet::new(),
            transient_seen_order: VecDeque::new(),
        };
        proof {
            assert(s.transient_seen_order@.to_set() =~= Set::<u128>::empty());
        }
        s
    }

    /// The store as read back from disk: the queued messages, the inbox
    /// entries, and the ids marked seen. Everything read back is remembered
    /// for good.
    pub fn restore(messages: Vec<StoredMessage>, inbox: Vec<InboxEntry>, seen: Vec<u128>) -> (s: StorageData)
        requires
            forall|j: int| 0 <= j < messages@.len() ==> strictly_sorted(strings_view(#[trigger] messages@[j].acked_peers@)),
        ensures
            s.well_formed(),
            s.messages() == filed_messages(messages@),
            s.inbox() == filed_entries(inbox@),
            forall|k: u128| #[trigger] s.durable_seen().contains(k) <==> (filed_messages(messages@).contains_key(k)
                || filed_entries(inbox@).contains_key(k) || seen@.contains(k)),
            s.transient_order() == Seq::<u128>::empty(),
    {
        let mut s = StorageData::new();
        let ghost ms = messages@;
        let ghost es = inbox@;
        let mut i: usize = 0;
        let mut messages = messages;
        let n = messages.len();
        let mut items: Vec<StoredMessage> = Vec::new();
        // Reverse first, so that popping gives the messages in order.
        while messages.len() > 0
            invariant
                items@.len() + messages@.len() == ms.len(),
                ms.len() == n,
                forall|j: int| 0 <= j < messages@.len() ==> messages@[j] == ms[j],
                forall|j: int| 0 <= j < items@.len() ==> items@[j] == ms[ms.len() - 1 - j],
            decreases messages@.len(),
        {
            let m = messages.pop().unwrap();
            items.push(m);
        }
        while items.len() > 0
            invariant
                s.well_formed(),
                i + items@.len() == ms.len(),
                ms.len() == n,
                forall|j: int| 0 <= j < items@.len() ==> items@[j] == ms[ms.len() - 1 - j],
                forall|j: int| 0 <= j < ms.len() ==> strictly_sorted(strings_view(#[trigger] ms[j].acked_peers@)),
                s.messages() == filed_messages(ms.take(i as int)),
                s.inbox() == Map::<u128, InboxEntry>::empty(),
                forall|k: u128| #[trigger] s.durable_seen().contains(k) <==> filed_messages(ms.take(i as int)).contains_key(k),
                s.transient_order() == Seq::<u128>::empty(),
            decreases items@.len(),
        {
            let m = items.pop().unwrap();
            proof {
                assert(m == ms[i as int]);
                assert(ms.take(i + 1).drop_last() =~= ms.take(i as int));
            }
            let id = m.envelope.message_id;
            let ghost d0 = s.durable_seen();
            s.durable_seen.insert(id);
            s.messages.insert(id, m);
            proof {
                assert(ms.take(i + 1).last() == ms[i as int]);
                let f0 = filed_messages(ms.take(i as int));
                let f1 = filed_messages(ms.take(i + 1));
                assert(f1 == f0.insert(id, m));
                assert forall|k: u128| #[trigger] s.durable_seen@.contains(k) <==> f1.contains_key(k) by {
                    assert(d0.contains(k) <==> f0.contains_key(k));
                }
            }
            i = i + 1;
        }
        proof {
            assert(ms.take(ms.len() as int) =~= ms);
        }
        let mut inbox = inbox;
        let n = inbox.len();
        let mut entries: Vec<InboxEntry> = Vec::new();
        while inbox.len() > 0
            invariant
                entries@.len() + inbox@.len() == es.len(),
                es.len() == n,
                forall|j: int| 0 <= j < inbox@.len() ==> inbox@[j] == es[j],
                forall|j: int| 0 <= j < entries@.len() ==> entries@[j] == es[es.len() - 1 - j],
            decreases inbox@.len(),
        {
            let e = inbox.pop().unwrap();
            entries.push(e);
        }
        let mut i: usize = 0;
        while entries.len() > 0
            invariant
                s.well_formed(),
                i + entries@.len() == es.len(),
                es.len() == n,
                forall|j: int| 0 <= j < entries@.len() ==> entries@[j] == es[es.len() - 1 - j],
                s.messages() == filed_messages(ms),
                s.inbox() == filed_entries(es.take(i as int)),
                forall|k: u128| #[trigger] s.durable_seen().contains(k) <==> (filed_messages(ms).contains_key(k)
                    || filed_entries(es.take(i as int)).contains_key(k)),
                s.transient_order() == Seq::<u128>::empty(),
            decreases entries@.len(),
        {
            let e = entries.pop().unwrap();
            proof {
                assert(e == es[i as int]);
                assert(es.take(i + 1).drop_last() =~= es.take(i as int));
            }
            let id = e.envelope.message_id;
            let ghost d0 = s.durable_seen();
            s.durable_seen.insert(id);
            s.inbox.insert(id, e);
            proof {
                assert(es.take(i + 1).last() == es[i as int]);
                let f0 = filed_entries(es.take(i as int));
                let f1 = filed_entries(es.take(i + 1));
                assert(f1 == f0.insert(id, e));
                assert forall|k: u128| #[trigger] s.durable_seen@.contains(k) <==> (filed_messages(ms).contains_key(k) || f1.contains_key(k)) by {
                    assert(d0.contains(k) <==> (filed_messages(ms).contains_key(k) || f0.contains_key(k)));
                }
            }
            i = i + 1;
        }
        proof {
            assert(es.take(es.len() as int) =~= es);
        }
        let mut j: usize = 0;
        while j < seen.len()
            invariant
                s.well_formed(),
                j <= seen@.len(),
                s.messages() == filed_messages(ms),
                s.inbox() == filed_entries(es),
                forall|k: u128| #[trigger] s.durable_seen().contains(k) <==> (filed_messages(ms).contains_key(k)
                    || filed_entries(es).contains_key(k) || seen@.take(j as int).contains(k)),
                s.transient_order() == Seq::<u128>::empty(),
            decreases seen@.len() - j,
        {
            let id = seen[j];
            let ghost d0 = s.durable_seen();
            s.durable_seen.insert(id);
            proof {
                let t0 = seen@.take(j as int);
                let t1 = seen@.take(j + 1);
                assert(t1 =~= t0.push(id));
                assert forall|k: u128| t1.contains(k) <==> (t0.contains(k) || k == id) by {
                    if t1.contains(k) && k != id {
                        let q = choose|q: int| 0 <= q < t1.len() && t1[q] == k;
                        assert(t0[q] == k);
                    }
                    if t0.contains(k) {
                        let q = choose|q: int| 0 <= q < t0.len() && t0[q] == k;
                        assert(t1[q] == k);
                    }
                    assert(t1[j as int] == id);
                }
                assert forall|k: u128| #[trigger] s.durable_seen@.contains(k) <==> (filed_messages(ms).contains_key(k)
                    || filed_entries(es).contains_key(k) || t1.contains(k)) by {
                    assert(d0.contains(k) <==> (filed_messages(ms).contains_key(k) || filed_entries(es).contains_key(k) || t0.contains(k)));
                }
            }
            j = j + 1;
        }
        proof {
            assert(seen@.take(seen@.len() as int) =~= seen@);
        }
        s
    }

    /// Whether the id was seen, for good or lately.
    pub fn is_seen(&self, id: u128) -> (r: bool)
        requires
            self.well_formed(),
        ensures
            r == self.seen().contains(id),
    {
        self.durable_seen.contains(&id) || self.transient_seen.contains(&id)
    }

    /// Whether the inbox holds the id.
    pub fn has_inbox(&self, id: u128) -> (r: bool)
        ensures
            r == self.inbox().contains_key(id),
    {
        self.inbox.contains_key(&id)
    }

    fn remember_transient_seen(&mut self, id: u128)
        requires
            old(self).well_formed(),
        ensures
            final(self).well_formed(),
            final(self).transient_order() == remember(old(self).transient_order(), id),
            final(self).messages() == old(self).messages(),
            final(self).inbox() == old(self).inbox(),
            final(self).durable_seen() == old(self).durable_seen(),
    {
        let ghost order = self.transient_seen_order@;
        if self.transient_seen.insert(id) {
            self.transient_seen_order.push_back(id);
            proof {
                assert(!order.contains(id));
                assert(self.transient_seen_order@ == order.push(id));
                order.lemma_push_to_set_commute(id);
            }
        } else {
            assert(order.to_set().contains(id));
        }
        let ghost grown = self.transient_seen_order@;
        proof {
            assert(self.transient_seen@ == grown.to_set());
            assert(grown == (if order.contains(id) { order } else { order.push(id) }));
            assert(grown.no_duplicates()) by {
                if !order.contains(id) {
                    assert forall|a: int, b: int| 0 <= a < b < grown.len() implies grown[a] != grown[b] by {
                        if b == grown.len() - 1 {
                            assert(grown[a] == order[a]);
                        } else {
                            assert(grown[a] == order[a] && grown[b] == order[b]);
                        }
                    }
                }
            }
        }
        if self.transient_seen_order.len() > MAX_TRANSIENT_SEEN {
            let front = self.transient_seen_order.pop_front();
            if let Some(expired) = front {
                self.transient_seen.remove(&expired);
                proof {
                    let now = self.transient_seen_order@;
                    assert(now =~= grown.drop_first());
                    assert(grown[0] == expired);
                    assert forall|x: u128| #[trigger] now.to_set().contains(x) <==> grown.to_set().remove(expired).contains(x) by {
                        if now.contains(x) {
                            let k = choose|k: int| 0 <= k < now.len() && now[k] == x;
                            assert(grown[k + 1] == x);
                        }
                        if grown.contains(x) && x != expired {
                            let k = choose|k: int| 0 <= k < grown.len() && grown[k] == x;
                            assert(k != 0);
                            assert(now[k - 1] == x);
                        }
                    }
                    assert(now.to_set() =~= grown.to_set().remove(expired));
                    assert(now.no_duplicates()) by {
                        assert forall|a: int, b: int| 0 <= a < b < now.len() implies now[a] != now[b] by {
                            assert(now[a] == grown[a + 1] && now[b] == grown[b + 1]);
                        }
                    }
                    assert(grown.len() <= MAX_TRANSIENT_SEEN + 1);
                }
            }
        }
    }

    /// Files a message in the send queue under its id. Control traffic is
    /// remembered for good, other traffic in the window of recent ids.
    pub fn record_queued(&mut self, message: StoredMessage)
        requires
            old(self).well_formed(),
            strictly_sorted(strings_view(message.acked_peers@)),
        ensures
            final(self).well_formed(),
            final(self).messages() == old(self).messages().insert(message.envelope.message_id, message),
            final(self).inbox() == old(self).inbox(),
            message.envelope.traffic_class == TrafficClass::Control ==> {
                &&& final(self).durable_seen() == old(self).durable_seen().insert(message.envelope.message_id)
                &&& final(self).transient_order() == old(self).transient_order()
            },
            message.envelope.traffic_class != TrafficClass::Control ==> {
                &&& final(self).durable_seen() == old(self).durable_seen()
                &&& final(self).transient_order() == remember(old(self).transient_order(), message.envelope.message_id)
            },
            final(self).seen().contains(message.envelope.message_id),
    {
        let id = message.envelope.message_id;
        if message.envelope.traffic_class.should_persist_queue() {
            self.durable_seen.insert(id);
        } else {
            self.remember_transient_seen(id);
            proof {
                let o = old(self).transient_order();
                let grown = if o.contains(id) { o } else { o.push(id) };
                assert(grown.contains(id)) by {
                    if !o.contains(id) {
                        assert(grown[grown.len() - 1] == id);
                    }
                }
                if grown.len() > MAX_TRANSIENT_SEEN {
                    // The window was full before: the id was already in it
                    // would leave the length as it was, so it was added last.
                    assert(!o.contains(id));
                    assert(self.transient_order()[self.transient_order().len() - 1] == id);
                }
                assert(self.transient_order().contains(id));
            }
        }
        self.messages.insert(id, message);
    }

    /// Files a delivered message in the inbox under its id. Control traffic
    /// is remembered for good, other traffic in the window of recent ids.
    pub fn record_inbox(&mut self, item: InboxEntry)
        requires
            old(self).well_formed(),
        ensures
            final(self).well_formed(),
            final(self).inbox() == old(self).inbox().insert(item.envelope.message_id, item),
            final(self).messages() == old(self).messages(),
            item.envelope.traffic_class == TrafficClass::Control ==> {
                &&& final(self).durable_seen() == old(self).durable_seen().insert(item.envelope.message_id)
                &&& final(self).transient_order() == old(self).transient_order()
            },
            item.envelope.traffic_class != TrafficClass::Control ==> {
                &&& final(self).durable_seen() == old(self).durable_seen()
                &&& final(self).transient_order() == remember(old(self).transient_order(), item.envelope.message_id)
            },
    {
        let id = item.envelope.message_id;
        if item.envelope.traffic_class.should_persist_inbox() {
            self.durable_seen.insert(id);
        } else {
            self.remember_transient_seen(id);
        }
        self.inbox.insert(id, item);
    }

    /// Records that `peer` acknowledged (or was handed) the message; false
    /// when the queue does not hold it.
    pub fn mark_ack(&mut self, id: u128, peer: &str) -> (found: bool)
        requires
            old(self).well_formed(),
        ensures
            final(self).well_formed(),
            found == old(self).messages().contains_key(id),
            found ==> {
                let m = old(self).messages()[id];
                let n = final(self).messages()[id];
                &&& final(self).messages() == old(self).messages().insert(id, n)
                &&& n.acked() == m.acked().insert(peer@)
                &&& n.envelope == m.envelope
                &&& n.ingress_peer == m.ingress_peer
                &&& n.last_attempt_ms_by_peer == m.last_attempt_ms_by_peer
                &&& n.stored_at_ms == m.stored_at_ms
            },
            !found ==> final(self).messages() == old(self).messages(),
            final(self).inbox() == old(self).inbox(),
            final(self).durable_seen() == old(self).durable_seen(),
            final(self).transient_order() == old(self).transient_order(),
    {
        match self.messages.remove(&id) {
            Some(mut message) => {
                let ghost before = message;
                insert_sorted(&mut message.acked_peers, peer.to_string());
                proof {
                    assert(strings_view(message.acked_peers@).to_set() =~= strings_view(before.acked_peers@).to_set().insert(peer@));
                }
                self.messages.insert(id, message);
                proof {
                    assert(self.messages@ =~= old(self).messages@.insert(id, message));
                }
                true
            },
            None => false,
        }
    }

    /// The same as `mark_ack`: a message handed on is not sent to that peer
    /// again.
    pub fn mark_dispatched(&mut self, id: u128, peer: &str) -> (found: bool)
        requires
            old(self).well_formed(),
        ensures
            final(self).well_formed(),
            found == old(self).messages().contains_key(id),
            found ==> {
                let m = old(self).messages()[id];
                let n = final(self).messages()[id];
                &&& final(self).messages() == old(self).messages().insert(id, n)
                &&& n.acked() == m.acked().insert(peer@)
                &&& n.envelope == m.envelope
                &&& n.ingress_peer == m.ingress_peer
                &&& n.last_attempt_ms_by_peer == m.last_attempt_ms_by_peer
                &&& n.stored_at_ms == m.stored_at_ms
            },
            !found ==> final(self).messages() == old(self).messages(),
            final(self).inbox() == old(self).inbox(),
            final(self).durable_seen() == old(self).durable_seen(),
            final(self).transient_order() == old(self).transient_order(),
    {
        self.mark_ack(id, peer)
    }

    /// Records that the message was sent to `peer` at `now_ms`; false when
    /// the queue does not hold it.
    pub fn record_attempt(&mut self, id: u128, peer: &str, now_ms: u64) -> (found: bool)
        requires
            old(self).well_formed(),
        ensures
            final(self).well_formed(),
            found == old(self).messages().contains_key(id),
            found ==> {
                let m = old(self).messages()[id];
                let n = final(self).messages()[id];
                &&& final(self).messages() == old(self).messages().insert(id, n)
                &&& n.last_attempt_ms_by_peer@ == m.last_attempt_ms_by_peer@.insert(peer@, now_ms)
                &&& n.envelope == m.envelope
                &&& n.ingress_peer == m.ingress_peer
                &&& n.acked_peers == m.acked_peers
                &&& n.stored_at_ms == m.stored_at_ms
            },
            !found ==> final(self).messages() == old(self).messages(),
            final(self).inbox() == old(self).inbox(),
            final(self).durable_seen() == old(self).durable_seen(),
            final(self).transient_order() == old(self).transient_order(),
    {
        match self.messages.remove(&id) {
            Some(mut message) => {
                message.last_attempt_ms_by_peer.insert(peer.to_string(), now_ms);
                self.messages.insert(id, message);
                proof {
                    assert(self.messages@ =~= old(self).messages@.insert(id, message));
                }
                true
            },
            None => false,
        }
    }

    /// The queued message with this id.
    pub fn get_message(&self, id: u128) -> (r: Option<&StoredMessage>)
        ensures
            match r {
                Some(m) => self.messages().contains_key(id) && *m == self.messages()[id],
                None => !self.messages().contains_key(id),
            },
    {
        self.messages.get(&id)
    }

    /// The inbox entry with this id.
    pub fn get_inbox(&self, id: u128) -> (r: Option<&InboxEntry>)
        ensures
            match r {
                Some(e) => self.inbox().contains_key(id) && *e == self.inbox()[id],
                None => !self.inbox().contains_key(id),
            },
    {
        self.inbox.get(&id)
    }

    /// How many messages are queued, and how many are in the inbox.
    pub fn counts(&self) -> (r: (usize, usize))
        ensures
            r.0 == self.messages().len(),
            r.1 == self.inbox().len(),
    {
        (self.messages.len(), self.inbox.len())
    }

    /// Takes a message out of the queue; `None` when it is not there.
    pub fn remove_message(&mut self, id: u128) -> (r: Option<StoredMessage>)
        requires
            old(self).well_formed(),
        ensures
            final(self).well_formed(),
            match r {
                Some(m) => old(self).messages().contains_key(id) && m == old(self).messages()[id],
                None => !old(self).messages().contains_key(id),
            },
            final(self).messages() == old(self).messages().remove(id),
            final(self).inbox() == old(self).inbox(),
            final(self).durable_seen() == old(self).durable_seen(),
            final(self).transient_order() == old(self).transient_order(),
    {
        self.messages.remove(&id)
    }

    /// The ids of the queued messages stored at or before `cutoff_ms`.
    pub fn expired_ids(&self, cutoff_ms: u64) -> (ids: Vec<u128>)
        ensures
            ids@.no_duplicates(),
            forall|k: u128| #[trigger] ids@.contains(k) <==> (self.messages().contains_key(k) && self.messages()[k].stored_at_ms <= cutoff_ms),
    {
        let mut ids: Vec<u128> = Vec::new();
        let keys = self.messages.keys();
        proof {
            vstd::std_specs::hash::axiom_spec_keys_iter(&self.messages);
        }
        let ghost all = keys.remaining().unref();
        for k in it: keys
            invariant
                it.seq() == keys.remaining(),
                all == keys.remaining().unref(),
                all.to_set() == self.messages@.dom(),
                all.no_duplicates(),
                ids@.no_duplicates(),
                forall|x: u128| #[trigger] ids@.contains(x) <==> (all.take(it.index() as int).contains(x) && self.messages@[x].stored_at_ms <= cutoff_ms),
        {
            let ghost i = it.index();
            let ghost before = ids@;
            assert(all[i] == *k);
            assert(all.take(i + 1) =~= all.take(i).push(*k));
            assert(!all.take(i).contains(*k)) by {
                if all.take(i).contains(*k) {
                    let j = choose|j: int| 0 <= j < i && all.take(i)[j] == *k;
                    assert(all[j] == all[i]);
                }
            }
            assert(self.messages@.contains_key(*k)) by {
                assert(all.contains(*k));
            }
            let message = self.messages.get(k);
            if let Some(m) = message {
                if m.stored_at_ms <= cutoff_ms {
                    ids.push(*k);
                    proof {
                        assert forall|a: int, b: int| 0 <= a < b < ids@.len() implies ids@[a] != ids@[b] by {
                            if b == ids@.len() - 1 {
                                assert(before.contains(before[a]));
                            }
                        }
                    }
                }
            }
            proof {
                let t0 = all.take(i);
                let t1 = all.take(i + 1);
                assert forall|x: u128| #[trigger] ids@.contains(x) <==> (t1.contains(x) && self.messages@[x].stored_at_ms <= cutoff_ms) by {
                    if t1.contains(x) && x != *k {
                        let j = choose|j: int| 0 <= j < t1.len() && t1[j] == x;
                        assert(t0[j] == x);
                    }
                    if t0.contains(x) {
                        let j = choose|j: int| 0 <= j < t0.len() && t0[j] == x;
                        assert(t1[j] == x);
                    }
                    if x == *k {
                        assert(t1[i] == x);
                    }
                    if ids@.contains(x) && x != *k {
                        let j = choose|j: int| 0 <= j < ids@.len() && ids@[j] == x;
                        assert(before[j] == x);
                    }
                    if before.contains(x) {
                        let j = choose|j: int| 0 <= j < before.len() && before[j] == x;
                        assert(ids@[j] == x);
                    }
                    if x == *k && self.messages@[x].stored_at_ms <= cutoff_ms {
                        assert(ids@[ids@.len() - 1] == x);
                    }
                }
            }
        }
        proof {
            assert(all.take(all.len() as int) =~= all);
            assert forall|k: u128| #[trigger] ids@.contains(k) <==> (self.messages@.contains_key(k) && self.messages@[k].stored_at_ms <= cutoff_ms) by {
                assert(all.to_set().contains(k) == all.contains(k));
            }
        }
        ids
    }

    /// Drops from the queue the messages stored `retention_ms` or more before
    /// `now_ms`, and hands them back.
    pub fn cleanup_queue(&mut self, now_ms: u64, retention_ms: u64) -> (removed: Vec<StoredMessage>)
        requires
            old(self).well_formed(),
        ensures
            final(self).well_formed(),
            ({
                let cutoff = if now_ms >= retention_ms { (now_ms - retention_ms) as u64 } else { 0u64 };
                &&& forall|k: u128| #[trigger] final(self).messages().contains_key(k) <==> (old(self).messages().contains_key(k) && old(self).messages()[k].stored_at_ms > cutoff)
                &&& forall|k: u128| #[trigger] final(self).messages().contains_key(k) ==> final(self).messages()[k] == old(self).messages()[k]
                &&& removed@.len() == old(self).messages().len() - final(self).messages().len()
                &&& forall|i: int| 0 <= i < removed@.len() ==> {
                    let m = #[trigger] removed@[i];
                    &&& old(self).messages().contains_key(m.envelope.message_id)
                    &&& old(self).messages()[m.envelope.message_id] == m
                    &&& m.stored_at_ms <= cutoff
                }
            }),
            final(self).inbox() == old(self).inbox(),
            final(self).durable_seen() == old(self).durable_seen(),
            final(self).transient_order() == old(self).transient_order(),
    {
        let cutoff = now_ms.saturating_sub(retention_ms);
        let ids = self.expired_ids(cutoff);
        let mut removed: Vec<StoredMessage> = Vec::new();
        let mut i: usize = 0;
        proof {
            vstd::std_specs::hash::axiom_hashmap_view_finite_dom(self.messages);
        }
        while i < ids.len()
            invariant
                self.well_formed(),
                i <= ids@.len(),
                ids@.no_duplicates(),
                forall|k: u128| #[trigger] ids@.contains(k) <==> (old(self).messages@.contains_key(k) && old(self).messages@[k].stored_at_ms <= cutoff),
                forall|k: u128| #[trigger] self.messages@.contains_key(k) <==> (old(self).messages@.contains_key(k) && !ids@.take(i as int).contains(k)),
                forall|k: u128| #[trigger] self.messages@.contains_key(k) ==> self.messages@[k] == old(self).messages@[k],
                self.messages@.dom().finite(),
                removed@.len() == i,
                old(self).messages@.len() == self.messages@.len() + i,
                forall|j: int| 0 <= j < removed@.len() ==> {
                    let m = #[trigger] removed@[j];
                    &&& old(self).messages@.contains_key(m.envelope.message_id)
                    &&& old(self).messages@[m.envelope.message_id] == m
                    &&& m.stored_at_ms <= cutoff
                },
                self.inbox@ == old(self).inbox@,
                self.durable_seen@ == old(self).durable_seen@,
                self.transient_seen_order@ == old(self).transient_seen_order@,
                self.transient_seen@ == old(self).transient_seen@,
            decreases ids@.len() - i,
        {
            let id = ids[i];
            assert(ids@.take(i + 1) =~= ids@.take(i as int).push(id));
            assert(!ids@.take(i as int).contains(id)) by {
                if ids@.take(i as int).contains(id) {
                    let j = choose|j: int| 0 <= j < i && ids@.take(i as int)[j] == id;
                    assert(ids@[j] == ids@[i as int]);
                }
            }
            assert(ids@.contains(id));
            let ghost before = self.messages@;
            match self.messages.remove(&id) {
                Some(m) => {
                    proof {
                        assert(before.contains_key(id));
                        assert(self.messages@ == before.remove(id));
                        assert(self.messages@.dom() =~= before.dom().remove(id));
                        let t = ids@.take(i as int);
                        let t1 = ids@.take(i + 1);
                        assert forall|k: u128| t1.contains(k) <==> (t.contains(k) || k == id) by {
                            if t1.contains(k) && k != id {
                                let j = choose|j: int| 0 <= j < i + 1 && t1[j] == k;
                                assert(t[j] == k);
                            }
                            if t.contains(k) {
                                let j = choose|j: int| 0 <= j < i && t[j] == k;
                                assert(t1[j] == k);
                            }
                            assert(t1[i as int] == id);
                        }
                    }
                    removed.push(m);
                },
                None => {
                    assert(false);
                },
            }
            i = i + 1;
        }
        proof {
            assert(ids@.take(ids@.len() as int) =~= ids@);
        }
        removed
    }


    /// The queued messages in the order they are sent: control first, then
    /// telemetry, then streams; within a class the oldest first.
    pub fn pending_messages(&self) -> (items: Vec<&StoredMessage>)
        requires
            self.well_formed(),
        ensures
            lists_values(items@, self.messages(), |m: StoredMessage| m.envelope.message_id),
            forall|i: int, j: int| 0 <= i < j < items@.len() ==> send_key_le(*items@[i], *items@[j]),
    {
        let mut ranked: Vec<(u128, &StoredMessage)> = Vec::new();
        let keys = self.messages.keys();
        proof {
            vstd::std_specs::hash::axiom_spec_keys_iter(&self.messages);
        }
        let ghost all = keys.remaining().unref();
        for k in it: keys
            invariant
                it.seq() == keys.remaining(),
                all == keys.remaining().unref(),
                all.to_set() == self.messages@.dom(),
                all.no_duplicates(),
                all.len() == self.messages@.dom().len(),
                ranked@.len() == it.index(),
                forall|j: int| 0 <= j < ranked@.len() ==> {
                    let (r, m) = #[trigger] ranked@[j];
                    &&& *m == self.messages@[all[j]]
                    &&& r == send_rank(*m)
                },
        {
            let ghost i = it.index();
            assert(all[i] == *k);
            assert(all.contains(*k));
            let m = self.messages.get(k);
            if let Some(m) = m {
                let r = (m.envelope.traffic_class.dispatch_priority() as u128) * 0x1_0000_0000_0000_0000u128
                    + (m.envelope.created_at_ms as u128);
                ranked.push((r, m));
            } else {
                assert(false);
            }
        }
        proof {
            assert forall|a: int, b: int| 0 <= a < b < ranked@.len() implies ranked@[a] != ranked@[b] by {
                assert(all[a] != all[b]);
                assert(all.contains(all[a]) && all.contains(all[b]));
                assert(all.to_set().contains(all[a]) && all.to_set().contains(all[b]));
                assert(self.messages@.contains_key(all[a]) && self.messages@.contains_key(all[b]));
                assert(self.messages@[all[a]].envelope.message_id == all[a]);
                assert(self.messages@[all[b]].envelope.message_id == all[b]);
            }
        }
        let sorted = sort_by_rank(&ranked);
        let mut items: Vec<&StoredMessage> = Vec::new();
        let mut i: usize = 0;
        while i < sorted.len()
            invariant
                i <= sorted@.len(),
                items@.len() == i,
                forall|j: int| 0 <= j < i ==> items@[j] == sorted@[j].1,
            decreases sorted@.len() - i,
        {
            items.push(sorted[i].1);
            i = i + 1;
        }
        proof {
            assert forall|j: int| 0 <= j < items@.len() implies self.messages@.contains_key(items@[j].envelope.message_id)
                && self.messages@[items@[j].envelope.message_id] == *items@[j] by {
                let q = choose|q: int| 0 <= q < ranked@.len() && ranked@[q] == sorted@[j];
                assert(all.contains(all[q]));
                assert(all.to_set().contains(all[q]));
            }
            assert forall|a: int, b: int| 0 <= a < b < items@.len() implies items@[a].envelope.message_id != items@[b].envelope.message_id by {
                let qa = choose|q: int| 0 <= q < ranked@.len() && ranked@[q] == sorted@[a];
                let qb = choose|q: int| 0 <= q < ranked@.len() && ranked@[q] == sorted@[b];
                assert(all.contains(all[qa]) && all.contains(all[qb]));
                assert(all.to_set().contains(all[qa]) && all.to_set().contains(all[qb]));
                if qa == qb {
                    assert(sorted@[a] == sorted@[b]);
                } else {
                    assert(all[qa] != all[qb]);
                }
            }
            assert forall|a: int, b: int| 0 <= a < b < items@.len() implies send_key_le(*items@[a], *items@[b]) by {
                let qa = choose|q: int| 0 <= q < ranked@.len() && ranked@[q] == sorted@[a];
                let qb = choose|q: int| 0 <= q < ranked@.len() && ranked@[q] == sorted@[b];
                assert(sorted@[a].0 <= sorted@[b].0);
            }
        }
        items
    }

    /// The inbox, the latest received first.
    pub fn list_inbox(&self) -> (items: Vec<&InboxEntry>)
        requires
            self.well_formed(),
        ensures
            lists_values(items@, self.inbox(), |e: InboxEntry| e.envelope.message_id),
            forall|i: int, j: int| 0 <= i < j < items@.len() ==> items@[i].received_at_ms >= items@[j].received_at_ms,
    {
        let mut ranked: Vec<(u128, &InboxEntry)> = Vec::new();
        let keys = self.inbox.keys();
        proof {
            vstd::std_specs::hash::axiom_spec_keys_iter(&self.inbox);
        }
        let ghost all = keys.remaining().unref();
        for k in it: keys
            invariant
                it.seq() == keys.remaining(),
                all == keys.remaining().unref(),
                all.to_set() == self.inbox@.dom(),
                all.no_duplicates(),
                all.len() == self.inbox@.dom().len(),
                ranked@.len() == it.index(),
                forall|j: int| 0 <= j < ranked@.len() ==> {
                    let (r, e) = #[trigger] ranked@[j];
                    &&& *e == self.inbox@[all[j]]
                    &&& r == u64::MAX - e.received_at_ms
                },
        {
            let ghost i = it.index();
            assert(all[i] == *k);
            assert(all.contains(*k));
            let e = self.inbox.get(k);
            if let Some(e) = e {
                let r = (u64::MAX - e.received_at_ms) as u128;
                ranked.push((r, e));
            } else {
                assert(false);
            }
        }
        proof {
            assert forall|a: int, b: int| 0 <= a < b < ranked@.len() implies ranked@[a] != ranked@[b] by {
                assert(all[a] != all[b]);
                assert(all.contains(all[a]) && all.contains(all[b]));
                assert(all.to_set().contains(all[a]) && all.to_set().contains(all[b]));
                assert(self.inbox@.contains_key(all[a]) && self.inbox@.contains_key(all[b]));
                assert(self.inbox@[all[a]].envelope.message_id == all[a]);
                assert(self.inbox@[all[b]].envelope.message_id == all[b]);
            }
        }
        let sorted = sort_by_rank(&ranked);
        let mut items: Vec<&InboxEntry> = Vec::new();
        let mut i: usize = 0;
        while i < sorted.len()
            invariant
                i <= sorted@.len(),
                items@.len() == i,
                forall|j: int| 0 <= j < i ==> items@[j] == sorted@[j].1,
            decreases sorted@.len() - i,
        {
            items.push(sorted[i].1);
            i = i + 1;
        }
        proof {
            assert forall|j: int| 0 <= j < items@.len() implies self.inbox@.contains_key(items@[j].envelope.message_id)
                && self.inbox@[items@[j].envelope.message_id] == *items@[j] by {
                let q = choose|q: int| 0 <= q < ranked@.len() && ranked@[q] == sorted@[j];
                assert(all.contains(all[q]));
                assert(all.to_set().contains(all[q]));
            }
            assert forall|a: int, b: int| 0 <= a < b < items@.len() implies items@[a].envelope.message_id != items@[b].envelope.message_id by {
                let qa = choose|q: int| 0 <= q < ranked@.len() && ranked@[q] == sorted@[a];
                let qb = choose|q: int| 0 <= q < ranked@.len() && ranked@[q] == sorted@[b];
                assert(all.contains(all[qa]) && all.contains(all[qb]));
                assert(all.to_set().contains(all[qa]) && all.to_set().contains(all[qb]));
                if qa == qb {
                    assert(sorted@[a] == sorted@[b]);
                } else {
                    assert(all[qa] != all[qb]);
                }
            }
            assert forall|a: int, b: int| 0 <= a < b < items@.len() implies items@[a].received_at_ms >= items@[b].received_at_ms by {
                let qa = choose|q: int| 0 <= q < ranked@.len() && ranked@[q] == sorted@[a];
                let qb = choose|q: int| 0 <= q < ranked@.len() && ranked@[q] == sorted@[b];
                assert(sorted@[a].0 <= sorted@[b].0);
            }
        }
        items
    }
}

} // verus!

//! The runtime's view of its peers: the policies that say how each peer is
//! treated, and the status report that merges configured, discovered and
//! connected peers with what they last reported about themselves.
use crate::config::PeerConfig;
use crate::mesh::{
    best_rtt, default_transport_order, min_link_rtt, normalize_transport_order, normalized_order,
    peer_quality, summarize_peer_quality, PeerLinkStatus, PeerPolicy, PeerStatus,
};
use crate::order::{sorted_distinct, strictly_sorted, text_lt};
use crate::table::Table;
use crate::json::str_eq;
use crate::text::{chars_of, decimal, decimal_string, push_char, string_of, strings_view, trim, trim_chars};
use vstd::prelude::*;

verus! {

/// A peer heard through discovery.
#[derive(Debug, Clone)]
pub struct DiscoveredPeer {
    pub network_addr: String,
    pub web_url: Option<String>,
    pub tags: Vec<String>,
    pub last_seen_ms: u64,
}

/// An IPv4 address written as four decimal octets joined by dots.
pub open spec fn dotted_ipv4(ip: (u8, u8, u8, u8)) -> Seq<char> {
    decimal(ip.0 as nat) + seq!['.'] + decimal(ip.1 as nat) + seq!['.'] + decimal(ip.2 as nat) + seq!['.']
        + decimal(ip.3 as nat)
}

/// `ip:port` for an IPv4 address.
pub open spec fn ipv4_endpoint(ip: (u8, u8, u8, u8), port: u16) -> Seq<char> {
    dotted_ipv4(ip) + seq![':'] + decimal(port as nat)
}

/// The web address a peer announces: `http://ip:port`.
pub open spec fn web_address(ip: (u8, u8, u8, u8), port: u16) -> Seq<char> {
    seq!['h', 't', 't', 'p', ':', '/', '/'] + ipv4_endpoint(ip, port)
}

/// Appends the decimal text of `n` and then `sep`.
fn push_octet(s: &mut String, n: u8, sep: char)
    ensures
        final(s)@ == old(s)@ + decimal(n as nat) + seq![sep],
{
    let d = decimal_string(n as u64);
    s.append(d.as_str());
    push_char(s, sep);
}

/// `ip:port` for an IPv4 address.
pub fn endpoint_text(ip: (u8, u8, u8, u8), port: u16) -> (r: String)
    ensures
        r@ == ipv4_endpoint(ip, port),
{
    let mut s = String::new();
    push_octet(&mut s, ip.0, '.');
    push_octet(&mut s, ip.1, '.');
    push_octet(&mut s, ip.2, '.');
    push_octet(&mut s, ip.3, ':');
    let p = decimal_string(port as u64);
    s.append(p.as_str());
    assert(s@ =~= ipv4_endpoint(ip, port));
    s
}

/// What a discovery announcement tells of its sender. Announcements of our
/// own id, without a network port, or that did not come over IPv4 are
/// ignored (`None`); otherwise the peer is reachable at the sender's address
/// and the announced port, and its web page, where it announces one, at the
/// sender's address and the web port.
pub fn discovered_peer(
    own_id: &str,
    node_id: &str,
    network_port: Option<u16>,
    source_ipv4: Option<(u8, u8, u8, u8)>,
    web_port: Option<u16>,
    tags: Vec<String>,
    now_ms: u64,
) -> (r: Option<DiscoveredPeer>)
    ensures
        r is Some <==> (node_id@ != own_id@ && network_port is Some && source_ipv4 is Some),
        r matches Some(p) ==> {
            &&& p.network_addr@ == ipv4_endpoint(source_ipv4->0, network_port->0)
            &&& (web_port matches Some(w) ==> p.web_url matches Some(u) && u@ == web_address(source_ipv4->0, w))
            &&& (web_port is None ==> p.web_url is None)
            &&& p.tags@ == tags@
            &&& p.last_seen_ms == now_ms
        },
{
    if str_eq(node_id, own_id) {
        return None;
    }
    let port = match network_port {
        Some(p) => p,
        None => return None,
    };
    let ip = match source_ipv4 {
        Some(ip) => ip,
        None => return None,
    };
    let network_addr = endpoint_text(ip, port);
    let web_url = match web_port {
        Some(w) => {
            let mut u = String::new();
            push_char(&mut u, 'h');
            push_char(&mut u, 't');
            push_char(&mut u, 't');
            push_char(&mut u, 'p');
            push_char(&mut u, ':');
            push_char(&mut u, '/');
            push_char(&mut u, '/');
            let e = endpoint_text(ip, w);
            u.append(e.as_str());
            assert(u@ =~= web_address(ip, w));
            Some(u)
        },
        None => None,
    };
    Some(DiscoveredPeer { network_addr, web_url, tags, last_seen_ms: now_ms })
}

/// What a node last published about itself.
#[derive(Debug, Clone)]
pub struct NodeRuntimeReport {
    pub node_id: String,
    pub role: String,
    pub uptime_ms: u64,
    pub pending_queue: usize,
    pub inbox_items: usize,
    pub wifi_mode: String,
    pub wifi_ssid: Option<String>,
    pub wifi_signal: Option<u8>,
    pub power_state: String,
    pub timestamp_ms: u64,
}

pub open spec fn opt_text(o: Option<String>) -> Option<Seq<char>> {
    match o {
        Some(s) => Some(s@),
        None => None,
    }
}

fn copy_strings(v: &Vec<String>) -> (r: Vec<String>)
    ensures
        strings_view(r@) == strings_view(v@),
{
    let mut r: Vec<String> = Vec::new();
    let mut i: usize = 0;
    while i < v.len()
        invariant
            i <= v.len(),
            strings_view(r@) == strings_view(v@).subrange(0, i as int),
        decreases v.len() - i,
    {
        let ghost before = r@;
        let c = v[i].clone();
        assert(c@ == v@[i as int]@);
        r.push(c);
        assert(r@ == before.push(c));
        assert(strings_view(r@) =~= strings_view(before).push(c@));
        assert(strings_view(v@).subrange(0, i + 1) =~= strings_view(v@).subrange(0, i as int).push(c@));
        i = i + 1;
    }
    r
}

fn copy_text(o: &Option<String>) -> (r: Option<String>)
    ensures
        opt_text(r) == opt_text(*o),
{
    match o {
        Some(s) => Some(s.clone()),
        None => None,
    }
}

/// A policy as text.
pub struct PolicyView {
    pub node_id: Seq<char>,
    pub role: Option<Seq<char>>,
    pub relationship: Seq<char>,
    pub order: Seq<Seq<char>>,
}

pub open spec fn policy_view(p: PeerPolicy) -> PolicyView {
    PolicyView {
        node_id: p.node_id@,
        role: opt_text(p.role),
        relationship: p.relationship@,
        order: strings_view(p.preferred_transport_order@),
    }
}

fn copy_policy(p: &PeerPolicy) -> (r: PeerPolicy)
    ensures
        policy_view(r) == policy_view(*p),
{
    PeerPolicy {
        node_id: p.node_id.clone(),
        role: copy_text(&p.role),
        relationship: p.relationship.clone(),
        preferred_transport_order: copy_strings(&p.preferred_transport_order),
    }
}

/// The policy of a peer without one of its own.
pub open spec fn default_policy(peer_id: Seq<char>) -> PolicyView {
    PolicyView { node_id: peer_id, role: None, relationship: "peer"@, order: seq!["usb"@, "network"@] }
}

/// The policy a peer is treated by: its own, or the default one.
pub fn peer_policy_for(policies: &Table<PeerPolicy>, peer_id: &str) -> (p: PeerPolicy)
    ensures
        policies@.contains_key(peer_id@) ==> policy_view(p) == policy_view(policies@[peer_id@]),
        !policies@.contains_key(peer_id@) ==> policy_view(p) == default_policy(peer_id@),
{
    match policies.get(peer_id) {
        Some(p) => copy_policy(p),
        None => PeerPolicy {
            node_id: String::from_str(peer_id),
            role: None,
            relationship: String::from_str("peer"),
            preferred_transport_order: default_transport_order(),
        },
    }
}

/// A policy as it is stored: the relationship trimmed (`peer` when blank)
/// and the transport order normalized.
pub fn normalize_policy(policy: &PeerPolicy) -> (p: PeerPolicy)
    ensures
        p.node_id@ == policy.node_id@,
        opt_text(p.role) == opt_text(policy.role),
        p.relationship@ == (if trim(policy.relationship@).len() == 0 {
            "peer"@
        } else {
            trim(policy.relationship@)
        }),
        strings_view(p.preferred_transport_order@) == normalized_order(strings_view(policy.preferred_transport_order@)),
{
    let rel = trim_chars(&chars_of(policy.relationship.as_str()));
    let relationship = if rel.len() == 0 {
        String::from_str("peer")
    } else {
        string_of(&rel)
    };
    PeerPolicy {
        node_id: policy.node_id.clone(),
        role: copy_text(&policy.role),
        relationship,
        preferred_transport_order: normalize_transport_order(policy.preferred_transport_order.as_slice()),
    }
}

/// Stores a normalized policy under its node id and gives it back.
pub fn update_peer_policy(policies: &mut Table<PeerPolicy>, policy: &PeerPolicy) -> (p: PeerPolicy)
    ensures
        p.node_id@ == policy.node_id@,
        opt_text(p.role) == opt_text(policy.role),
        p.relationship@ == (if trim(policy.relationship@).len() == 0 {
            "peer"@
        } else {
            trim(policy.relationship@)
        }),
        strings_view(p.preferred_transport_order@) == normalized_order(strings_view(policy.preferred_transport_order@)),
        final(policies)@.dom() == old(policies)@.dom().insert(policy.node_id@),
        policy_view(final(policies)@[policy.node_id@]) == policy_view(p),
        forall|k: Seq<char>| k != policy.node_id@ && old(policies)@.contains_key(k) ==> #[trigger] final(policies)@[k] == old(policies)@[k],
{
    let normalized = normalize_policy(policy);
    let stored = copy_policy(&normalized);
    policies.insert(policy.node_id.clone(), stored);
    assert(policies@.dom() =~= old(policies)@.dom().insert(policy.node_id@));
    normalized
}

/// The policies in the order of the node ids they are stored under.
pub fn list_peer_policies(policies: &Table<PeerPolicy>) -> (v: Vec<PeerPolicy>)
    ensures
        exists|ks: Seq<Seq<char>>|
            #![trigger ks.len()]
            strictly_sorted(ks) && ks.len() == v@.len() && (forall|i: int|
                0 <= i < ks.len() ==> policies@.contains_key(#[trigger] ks[i]) && policy_view(v@[i])
                    == policy_view(policies@[ks[i]])) && (forall|k: Seq<char>|
                #[trigger] policies@.contains_key(k) ==> ks.contains(k)),
{
    let keys = policies.keys();
    let sorted = sorted_distinct(&keys);
    let ghost ks = strings_view(sorted@);
    proof {
        assert forall|k: Seq<char>| #[trigger] policies@.contains_key(k) implies ks.contains(k) by {
            assert(policies@.contains_key(k));
            assert(exists|j: int| 0 <= j < keys@.len() && keys@[j]@ == k);
            let j = choose|j: int| 0 <= j < keys@.len() && keys@[j]@ == k;
            assert(strings_view(keys@)[j] == k);
            assert(strings_view(keys@).contains(k));
        }
        assert forall|q: int| 0 <= q < ks.len() implies #[trigger] policies@.contains_key(ks[q]) by {
            assert(ks.contains(ks[q]));
            let x = choose|x: int| 0 <= x < strings_view(keys@).len() && strings_view(keys@)[x] == ks[q];
            assert(keys@[x]@ == ks[q]);
        }
    }
    let mut v: Vec<PeerPolicy> = Vec::new();
    let mut i: usize = 0;
    while i < sorted.len()
        invariant
            i <= sorted.len(),
            v@.len() == i,
            ks == strings_view(sorted@),
            strictly_sorted(ks),
            forall|k: Seq<char>| #[trigger] policies@.contains_key(k) ==> ks.contains(k),
            forall|q: int| 0 <= q < ks.len() ==> #[trigger] policies@.contains_key(ks[q]),
            forall|j: int| 0 <= j < i ==> policy_view(#[trigger] v@[j]) == policy_view(policies@[ks[j]]),
        decreases sorted.len() - i,
    {
        assert(sorted@[i as int]@ == ks[i as int]);
        let p = peer_policy_for(policies, sorted[i].as_str());
        v.push(p);
        i = i + 1;
    }
    assert(strictly_sorted(ks) && ks.len() == v@.len());
    v
}

// ----- the status report -----
pub open spec fn within_ttl(seen: Option<u64>, now_ms: u64, ttl_ms: u64) -> bool {
    match seen {
        Some(s) => (if now_ms >= s {
            now_ms - s
        } else {
            0
        }) <= ttl_ms,
        None => false,
    }
}

pub open spec fn seen_after_report(seen: Option<u64>, report: Option<NodeRuntimeReport>) -> Option<u64> {
    match report {
        Some(r) => Some(
            match seen {
                Some(s) => if s >= r.timestamp_ms {
                    s
                } else {
                    r.timestamp_ms
                },
                None => r.timestamp_ms,
            },
        ),
        None => seen,
    }
}

/// What does not change when a peer's status is completed.
pub open spec fn same_identity(a: PeerStatus, b: PeerStatus) -> bool {
    &&& a.node_id@ == b.node_id@
    &&& strings_view(a.tags@) == strings_view(b.tags@)
    &&& a.configured == b.configured
    &&& a.discovered == b.discovered
    &&& a.links@ == b.links@
    &&& opt_text(a.advertised_network_addr) == opt_text(b.advertised_network_addr)
    &&& opt_text(a.advertised_web_url) == opt_text(b.advertised_web_url)
}

/// A completed status: alive when linked or seen within the time to live,
/// its best round trip and its quality word follow from its links.
pub open spec fn completed(p: PeerStatus, now_ms: u64, ttl_ms: u64) -> bool {
    &&& p.alive == (p.links@.len() > 0 || within_ttl(p.last_seen_ms, now_ms, ttl_ms))
    &&& p.last_rtt_ms == best_rtt(p.links@)
    &&& p.connection_quality@ == peer_quality(p.links@, p.remote_wifi_signal, p.alive)
}

/// `p` is `peer` completed with its last report and its policy: the
/// report's values are taken over, the policy's fields replace the peer's,
/// and liveness, power state, best round trip and quality are derived.
pub open spec fn finalized(
    p: PeerStatus,
    peer: PeerStatus,
    report: Option<NodeRuntimeReport>,
    policy: Option<PeerPolicy>,
    now_ms: u64,
    peer_ttl_ms: u64,
) -> bool {
    &&& same_identity(p, peer)
    &&& completed(p, now_ms, peer_ttl_ms)
    &&& p.last_seen_ms == seen_after_report(peer.last_seen_ms, report)
    &&& match report {
        Some(r) => {
            &&& p.last_report_ms == Some(r.timestamp_ms)
            &&& p.uptime_ms == Some(r.uptime_ms)
            &&& p.remote_pending_queue == Some(r.pending_queue)
            &&& p.remote_inbox_items == Some(r.inbox_items)
            &&& opt_text(p.remote_wifi_mode) == Some(r.wifi_mode@)
            &&& opt_text(p.remote_wifi_ssid) == opt_text(r.wifi_ssid)
            &&& p.remote_wifi_signal == r.wifi_signal
            &&& p.power_state@ == (if p.alive && r.power_state@ == "unknown"@ {
                "awake"@
            } else {
                r.power_state@
            })
        },
        None => {
            &&& p.last_report_ms == peer.last_report_ms
            &&& p.uptime_ms == peer.uptime_ms
            &&& p.remote_pending_queue == peer.remote_pending_queue
            &&& p.remote_inbox_items == peer.remote_inbox_items
            &&& opt_text(p.remote_wifi_mode) == opt_text(peer.remote_wifi_mode)
            &&& opt_text(p.remote_wifi_ssid) == opt_text(peer.remote_wifi_ssid)
            &&& p.remote_wifi_signal == peer.remote_wifi_signal
            &&& p.power_state@ == (if p.alive && peer.power_state@ == "unknown"@ {
                "awake"@
            } else {
                peer.power_state@
            })
        },
    }
    &&& match policy {
        Some(q) => opt_text(p.role) == opt_text(q.role) && p.relationship@ == q.relationship@ && strings_view(
            p.preferred_transport_order@,
        ) == strings_view(q.preferred_transport_order@),
        None => opt_text(p.role) == opt_text(peer.role) && p.relationship@ == peer.relationship@ && strings_view(
            p.preferred_transport_order@,
        ) == strings_view(peer.preferred_transport_order@),
    }
}

/// Completes a peer's status with its last report and its policy.
pub fn finalize_peer(peer: PeerStatus, report: Option<&NodeRuntimeReport>, policy: Option<&PeerPolicy>, now_ms: u64, peer_ttl_ms: u64) -> (p: PeerStatus)
    ensures
        finalized(
            p,
            peer,
            match report {
                Some(r) => Some(*r),
                None => None,
            },
            match policy {
                Some(q) => Some(*q),
                None => None,
            },
            now_ms,
            peer_ttl_ms,
        ),
{
    let mut peer = peer;
    match report {
        Some(r) => {
            peer.last_report_ms = Some(r.timestamp_ms);
            peer.last_seen_ms = Some(
                match peer.last_seen_ms {
                    Some(seen) => if seen >= r.timestamp_ms {
                        seen
                    } else {
                        r.timestamp_ms
                    },
                    None => r.timestamp_ms,
                },
            );
            peer.uptime_ms = Some(r.uptime_ms);
            peer.remote_pending_queue = Some(r.pending_queue);
            peer.remote_inbox_items = Some(r.inbox_items);
            peer.remote_wifi_mode = Some(r.wifi_mode.clone());
            peer.remote_wifi_ssid = copy_text(&r.wifi_ssid);
            peer.remote_wifi_signal = r.wifi_signal;
            peer.power_state = r.power_state.clone();
        },
        None => {},
    }
    match policy {
        Some(q) => {
            peer.role = copy_text(&q.role);
            peer.relationship = q.relationship.clone();
            peer.preferred_transport_order = copy_strings(&q.preferred_transport_order);
        },
        None => {},
    }
    let recent = match peer.last_seen_ms {
        Some(seen) => now_ms.saturating_sub(seen) <= peer_ttl_ms,
        None => false,
    };
    peer.alive = peer.links.len() > 0 || recent;
    if peer.alive && crate::json::str_eq(peer.power_state.as_str(), "unknown") {
        peer.power_state = String::from_str("awake");
    }
    peer.last_rtt_ms = min_link_rtt(peer.links.as_slice());
    peer.connection_quality = summarize_peer_quality(peer.links.as_slice(), peer.remote_wifi_signal, peer.alive);
    peer
}

/// The status of a peer before its report and policy are applied.
fn fresh_status(node_id: String, policy: PeerPolicy, tags: Vec<String>, configured: bool, discovered: bool, last_seen_ms: Option<u64>, network_addr: Option<String>, web_url: Option<String>, links: Vec<PeerLinkStatus>) -> (p: PeerStatus)
    ensures
        p.node_id@ == node_id@,
        p.configured == configured,
        p.discovered == discovered,
        p.links@ == links@,
        p.last_seen_ms == last_seen_ms,
        strings_view(p.tags@) == strings_view(tags@),
        opt_text(p.advertised_network_addr) == opt_text(network_addr),
        opt_text(p.advertised_web_url) == opt_text(web_url),
        opt_text(p.role) == opt_text(policy.role),
        p.relationship@ == policy.relationship@,
        strings_view(p.preferred_transport_order@) == strings_view(policy.preferred_transport_order@),
        p.last_report_ms is None,
        p.uptime_ms is None,
        p.remote_pending_queue is None,
        p.remote_inbox_items is None,
        p.remote_wifi_mode is None,
        p.remote_wifi_ssid is None,
        p.remote_wifi_signal is None,
        p.power_state@ == "unknown"@,
{
    PeerStatus {
        node_id,
        role: policy.role,
        relationship: policy.relationship,
        preferred_transport_order: policy.preferred_transport_order,
        tags,
        configured,
        discovered,
        alive: false,
        power_state: String::from_str("unknown"),
        last_seen_ms,
        last_report_ms: None,
        uptime_ms: None,
        remote_pending_queue: None,
        remote_inbox_items: None,
        remote_wifi_mode: None,
        remote_wifi_ssid: None,
        remote_wifi_signal: None,
        connection_quality: String::from_str("unknown"),
        last_rtt_ms: None,
        advertised_network_addr: network_addr,
        advertised_web_url: web_url,
        links,
    }
}

pub open spec fn in_config(cps: Seq<PeerConfig>, k: Seq<char>) -> bool {
    exists|i: int| 0 <= i < cps.len() && (#[trigger] cps[i]).node_id@ == k
}

pub open spec fn in_pairs<T>(ps: Seq<(String, T)>, k: Seq<char>) -> bool {
    exists|i: int| 0 <= i < ps.len() && (#[trigger] ps[i]).0@ == k
}

/// The last link list given for a peer.
pub open spec fn links_for(ps: Seq<(String, Vec<PeerLinkStatus>)>, k: Seq<char>) -> Seq<PeerLinkStatus>
    decreases ps.len(),
{
    if ps.len() == 0 {
        Seq::empty()
    } else if ps.last().0@ == k {
        ps.last().1@
    } else {
        links_for(ps.drop_last(), k)
    }
}

/// The last configured peer with this id.
pub open spec fn config_for(cps: Seq<PeerConfig>, k: Seq<char>) -> Option<PeerConfig>
    decreases cps.len(),
{
    if cps.len() == 0 {
        None
    } else if cps.last().node_id@ == k {
        Some(cps.last())
    } else {
        config_for(cps.drop_last(), k)
    }
}

/// The last announcement heard from this id.
pub open spec fn discovery_for(ds: Seq<(String, DiscoveredPeer)>, k: Seq<char>) -> Option<DiscoveredPeer>
    decreases ds.len(),
{
    if ds.len() == 0 {
        None
    } else if ds.last().0@ == k {
        Some(ds.last().1)
    } else {
        discovery_for(ds.drop_last(), k)
    }
}

/// The configured tags of a peer (none when it is not configured).
pub open spec fn configured_tags(cps: Seq<PeerConfig>, k: Seq<char>) -> Seq<Seq<char>> {
    match config_for(cps, k) {
        Some(c) => strings_view(c.tags@),
        None => Seq::empty(),
    }
}

/// The tags of a peer after its announcements: an announcement gives its
/// tags to a peer that has none yet.
pub open spec fn tags_after(tags: Seq<Seq<char>>, ds: Seq<(String, DiscoveredPeer)>, k: Seq<char>) -> Seq<Seq<char>>
    decreases ds.len(),
{
    if ds.len() == 0 {
        tags
    } else {
        let t = tags_after(tags, ds.drop_last(), k);
        if ds.last().0@ == k && t.len() == 0 {
            strings_view(ds.last().1.tags@)
        } else {
            t
        }
    }
}

/// The address a peer is shown with: the announced one, else the
/// configured one.
pub open spec fn advertised_addr(cps: Seq<PeerConfig>, ds: Seq<(String, DiscoveredPeer)>, k: Seq<char>) -> Option<Seq<char>> {
    match discovery_for(ds, k) {
        Some(d) => Some(d.network_addr@),
        None => match config_for(cps, k) {
            Some(c) => opt_text(c.network_addr),
            None => None,
        },
    }
}

/// The web address a peer announced.
pub open spec fn advertised_web(ds: Seq<(String, DiscoveredPeer)>, k: Seq<char>) -> Option<Seq<char>> {
    match discovery_for(ds, k) {
        Some(d) => opt_text(d.web_url),
        None => None,
    }
}

/// When a peer was last heard announcing itself.
pub open spec fn announced_seen(ds: Seq<(String, DiscoveredPeer)>, k: Seq<char>) -> Option<u64> {
    match discovery_for(ds, k) {
        Some(d) => Some(d.last_seen_ms),
        None => None,
    }
}

/// The status of peer `k` gathered from the configuration, the
/// announcements and the links, before its report and policy are applied.
pub open spec fn gathered(
    p: PeerStatus,
    k: Seq<char>,
    cps: Seq<PeerConfig>,
    ds: Seq<(String, DiscoveredPeer)>,
    ls: Seq<(String, Vec<PeerLinkStatus>)>,
    policies: Map<Seq<char>, PeerPolicy>,
) -> bool {
    &&& p.node_id@ == k
    &&& p.configured == in_config(cps, k)
    &&& p.discovered == in_pairs(ds, k)
    &&& p.links@ == links_for(ls, k)
    &&& strings_view(p.tags@) == tags_after(configured_tags(cps, k), ds, k)
    &&& opt_text(p.advertised_network_addr) == advertised_addr(cps, ds, k)
    &&& opt_text(p.advertised_web_url) == advertised_web(ds, k)
    &&& p.last_seen_ms == announced_seen(ds, k)
    &&& !policies.contains_key(k) ==> opt_text(p.role) is None && p.relationship@ == "peer"@ && strings_view(
        p.preferred_transport_order@,
    ) == seq!["usb"@, "network"@]
    &&& p.last_report_ms is None
    &&& p.uptime_ms is None
    &&& p.remote_pending_queue is None
    &&& p.remote_inbox_items is None
    &&& p.remote_wifi_mode is None
    &&& p.remote_wifi_ssid is None
    &&& p.remote_wifi_signal is None
    &&& p.power_state@ == "unknown"@
}

/// The entry of a table, if it has one.
pub open spec fn entry_of<V>(m: Map<Seq<char>, V>, k: Seq<char>) -> Option<V> {
    if m.contains_key(k) {
        Some(m[k])
    } else {
        None
    }
}

proof fn lemma_config_for(cps: Seq<PeerConfig>, k: Seq<char>)
    ensures
        config_for(cps, k) is Some <==> in_config(cps, k),
    decreases cps.len(),
{
    if cps.len() > 0 {
        lemma_config_for(cps.drop_last(), k);
        if in_config(cps, k) && cps.last().node_id@ != k {
            let i = choose|i: int| 0 <= i < cps.len() && (#[trigger] cps[i]).node_id@ == k;
            assert(cps.drop_last()[i] == cps[i]);
        }
        if in_config(cps.drop_last(), k) {
            let i = choose|i: int| 0 <= i < cps.drop_last().len() && (#[trigger] cps.drop_last()[i]).node_id@ == k;
            assert(cps[i] == cps.drop_last()[i]);
        }
        if cps.last().node_id@ == k {
            assert(cps[cps.len() - 1].node_id@ == k);
        }
    }
}

proof fn lemma_discovery_for(ds: Seq<(String, DiscoveredPeer)>, k: Seq<char>)
    ensures
        discovery_for(ds, k) is Some <==> in_pairs(ds, k),
        !in_pairs(ds, k) ==> forall|t: Seq<Seq<char>>| tags_after(t, ds, k) == t,
    decreases ds.len(),
{
    if ds.len() > 0 {
        lemma_discovery_for(ds.drop_last(), k);
        if in_pairs(ds, k) && ds.last().0@ != k {
            let i = choose|i: int| 0 <= i < ds.len() && (#[trigger] ds[i]).0@ == k;
            assert(ds.drop_last()[i] == ds[i]);
        }
        if in_pairs(ds.drop_last(), k) {
            let i = choose|i: int| 0 <= i < ds.drop_last().len() && (#[trigger] ds.drop_last()[i]).0@ == k;
            assert(ds[i] == ds.drop_last()[i]);
        }
        if ds.last().0@ == k {
            assert(ds[ds.len() - 1].0@ == k);
        }
        if !in_pairs(ds, k) {
            assert(ds[ds.len() - 1] == ds.last());
            assert(!in_pairs(ds.drop_last(), k));
            assert forall|t: Seq<Seq<char>>| tags_after(t, ds, k) == t by {
                assert(tags_after(t, ds.drop_last(), k) == t);
            }
        }
    }
}

/// The status of every peer the node knows of, in the order of their ids:
/// configured peers, peers heard through discovery and peers with a live
/// link, each completed with its last report and its policy.
pub fn build_peer_statuses(
    config_peers: &[PeerConfig],
    policies: &Table<PeerPolicy>,
    discovered: &[(String, DiscoveredPeer)],
    links: Vec<(String, Vec<PeerLinkStatus>)>,
    reports: &Table<NodeRuntimeReport>,
    now_ms: u64,
    peer_ttl_ms: u64,
) -> (v: Vec<PeerStatus>)
    ensures
        strictly_sorted(v@.map_values(|p: PeerStatus| p.node_id@)),
        forall|k: Seq<char>|
            (in_config(config_peers@, k) || in_pairs(discovered@, k) || in_pairs(links@, k)) ==> exists|i: int|
                0 <= i < v@.len() && (#[trigger] v@[i]).node_id@ == k,
        forall|i: int|
            0 <= i < v@.len() ==> {
                let p = #[trigger] v@[i];
                &&& in_config(config_peers@, p.node_id@) || in_pairs(discovered@, p.node_id@) || in_pairs(links@, p.node_id@)
                &&& p.configured == in_config(config_peers@, p.node_id@)
                &&& p.discovered == in_pairs(discovered@, p.node_id@)
                &&& p.links@ == links_for(links@, p.node_id@)
                &&& completed(p, now_ms, peer_ttl_ms)
            },
        forall|i: int|
            0 <= i < v@.len() ==> exists|g: PeerStatus|
                gathered(g, (#[trigger] v@[i]).node_id@, config_peers@, discovered@, links@, policies@) && finalized(
                    v@[i],
                    g,
                    entry_of(reports@, v@[i].node_id@),
                    entry_of(policies@, v@[i].node_id@),
                    now_ms,
                    peer_ttl_ms,
                ),
{
    let ghost cps = config_peers@;
    let ghost ds = discovered@;
    let ghost ls = links@;
    let mut map: Table<PeerStatus> = Table::new();
    let mut i: usize = 0;
    while i < config_peers.len()
        invariant
            i <= config_peers.len(),
            cps == config_peers@,
            forall|k: Seq<char>| #[trigger] map@.contains_key(k) <==> in_config(cps.subrange(0, i as int), k),
            forall|k: Seq<char>| #[trigger] map@.contains_key(k) ==> gathered(
                map@[k],
                k,
                cps.subrange(0, i as int),
                Seq::empty(),
                Seq::empty(),
                policies@,
            ),
        decreases config_peers.len() - i,
    {
        let peer = &config_peers[i];
        let ghost before = map@;
        let policy = peer_policy_for(policies, peer.node_id.as_str());
        let st = fresh_status(
            peer.node_id.clone(),
            policy,
            copy_strings(&peer.tags),
            true,
            false,
            None,
            copy_text(&peer.network_addr),
            None,
            Vec::new(),
        );
        map.insert(peer.node_id.clone(), st);
        proof {
            assert forall|k: Seq<char>| #[trigger] map@.contains_key(k) <==> in_config(cps.subrange(0, i + 1), k) by {
                if in_config(cps.subrange(0, i + 1), k) {
                    let j = choose|j: int| 0 <= j < i + 1 && (#[trigger] cps.subrange(0, i + 1)[j]).node_id@ == k;
                    if j < i {
                        assert(cps.subrange(0, i as int)[j] == cps.subrange(0, i + 1)[j]);
                    }
                }
                if in_config(cps.subrange(0, i as int), k) {
                    let j = choose|j: int| 0 <= j < i && (#[trigger] cps.subrange(0, i as int)[j]).node_id@ == k;
                    assert(cps.subrange(0, i + 1)[j] == cps.subrange(0, i as int)[j]);
                }
                assert(cps.subrange(0, i + 1)[i as int] == cps[i as int]);
            }
            let pre = cps.subrange(0, i as int);
            let post = cps.subrange(0, i + 1);
            assert(post.drop_last() =~= pre);
            assert(post.last() == cps[i as int]);
            assert forall|k: Seq<char>| #[trigger] map@.contains_key(k) implies gathered(
                map@[k],
                k,
                post,
                Seq::empty(),
                Seq::empty(),
                policies@,
            ) by {
                assert(config_for(post, k) == if k == cps[i as int].node_id@ {
                    Some(cps[i as int])
                } else {
                    config_for(pre, k)
                });
                if k != cps[i as int].node_id@ {
                    assert(before.contains_key(k));
                }
            }
        }
        i = i + 1;
    }
    assert(cps.subrange(0, config_peers.len() as int) == cps);
    let mut j: usize = 0;
    while j < discovered.len()
        invariant
            j <= discovered.len(),
            cps == config_peers@,
            ds == discovered@,
            forall|k: Seq<char>| #[trigger] map@.contains_key(k) <==> (in_config(cps, k) || in_pairs(ds.subrange(0, j as int), k)),
            forall|k: Seq<char>| #[trigger] map@.contains_key(k) ==> gathered(
                map@[k],
                k,
                cps,
                ds.subrange(0, j as int),
                Seq::empty(),
                policies@,
            ),
        decreases discovered.len() - j,
    {
        let id = &discovered[j].0;
        let info = &discovered[j].1;
        let ghost before = map@;
        let ghost key = id@;
        proof {
            if !before.contains_key(key) {
                lemma_config_for(cps, key);
                lemma_discovery_for(ds.subrange(0, j as int), key);
            }
        }
        match map.remove(id.as_str()) {
            Some(old_status) => {
                let mut st = old_status;
                if st.tags.len() == 0 {
                    st.tags = copy_strings(&info.tags);
                }
                st.discovered = true;
                st.last_seen_ms = Some(info.last_seen_ms);
                st.advertised_network_addr = Some(info.network_addr.clone());
                st.advertised_web_url = copy_text(&info.web_url);
                map.insert(id.clone(), st);
            },
            None => {
                let st = fresh_status(
                    id.clone(),
                    PeerPolicy {
                        node_id: id.clone(),
                        role: None,
                        relationship: String::from_str("peer"),
                        preferred_transport_order: default_transport_order(),
                    },
                    copy_strings(&info.tags),
                    false,
                    true,
                    Some(info.last_seen_ms),
                    Some(info.network_addr.clone()),
                    copy_text(&info.web_url),
                    Vec::new(),
                );
                map.insert(id.clone(), st);
            },
        }
        proof {
            let pre = ds.subrange(0, j as int);
            let post = ds.subrange(0, j + 1);
            assert(post[j as int] == ds[j as int]);
            assert(post.drop_last() =~= pre);
            assert(post.last() == ds[j as int]);
            assert forall|k: Seq<char>| in_pairs(post, k) <==> (in_pairs(pre, k) || k == ds[j as int].0@) by {
                if in_pairs(post, k) {
                    let x = choose|x: int| 0 <= x < post.len() && (#[trigger] post[x]).0@ == k;
                    if x < j {
                        assert(pre[x] == post[x]);
                    }
                }
                if in_pairs(pre, k) {
                    let x = choose|x: int| 0 <= x < pre.len() && (#[trigger] pre[x]).0@ == k;
                    assert(post[x] == pre[x]);
                }
            }
            assert forall|k: Seq<char>| #[trigger] map@.contains_key(k) implies gathered(
                map@[k],
                k,
                cps,
                post,
                Seq::empty(),
                policies@,
            ) by {
                assert(discovery_for(post, k) == if k == key {
                    Some(ds[j as int].1)
                } else {
                    discovery_for(pre, k)
                });
                assert(tags_after(configured_tags(cps, k), post, k) == {
                    let t = tags_after(configured_tags(cps, k), pre, k);
                    if k == key && t.len() == 0 {
                        strings_view(ds[j as int].1.tags@)
                    } else {
                        t
                    }
                });
                if k != key {
                    assert(before.contains_key(k));
                }
            }
        }
        j = j + 1;
    }
    assert(ds.subrange(0, discovered.len() as int) == ds);
    assert(ls.len() == links.len());
    let mut rest = links;
    let mut m: usize = 0;
    while rest.len() > 0
        invariant
            m <= ls.len(),
            ls.len() <= usize::MAX,
            rest@ == ls.subrange(m as int, ls.len() as int),
            cps == config_peers@,
            ds == discovered@,
            forall|k: Seq<char>| #[trigger] map@.contains_key(k) <==> (in_config(cps, k) || in_pairs(ds, k)
                || in_pairs(ls.subrange(0, m as int), k)),
            forall|k: Seq<char>| #[trigger] map@.contains_key(k) ==> gathered(
                map@[k],
                k,
                cps,
                ds,
                ls.subrange(0, m as int),
                policies@,
            ),
        decreases rest@.len(),
    {
        assert(m < ls.len());
        let (id, peer_links) = rest.remove(0);
        assert(ls[m as int] == (id, peer_links));
        let ghost before = map@;
        let ghost key = id@;
        proof {
            if !before.contains_key(key) {
                lemma_config_for(cps, key);
                lemma_discovery_for(ds, key);
            }
        }
        match map.remove(id.as_str()) {
            Some(old_status) => {
                let mut st = old_status;
                st.links = peer_links;
                map.insert(id.clone(), st);
            },
            None => {
                let st = fresh_status(
                    id.clone(),
                    PeerPolicy {
                        node_id: id.clone(),
                        role: None,
                        relationship: String::from_str("peer"),
                        preferred_transport_order: default_transport_order(),
                    },
                    Vec::new(),
                    false,
                    false,
                    None,
                    None,
                    None,
                    peer_links,
                );
                map.insert(id.clone(), st);
            },
        }
        proof {
            let pre = ls.subrange(0, m as int);
            let post = ls.subrange(0, m + 1);
            assert(post[m as int] == ls[m as int]);
            assert(post.drop_last() =~= pre);
            assert forall|k: Seq<char>| in_pairs(post, k) <==> (in_pairs(pre, k) || k == ls[m as int].0@) by {
                if in_pairs(post, k) {
                    let x = choose|x: int| 0 <= x < post.len() && (#[trigger] post[x]).0@ == k;
                    if x < m {
                        assert(pre[x] == post[x]);
                    }
                }
                if in_pairs(pre, k) {
                    let x = choose|x: int| 0 <= x < pre.len() && (#[trigger] pre[x]).0@ == k;
                    assert(post[x] == pre[x]);
                }
            }
            assert(ls.subrange(m + 1, ls.len() as int) =~= ls.subrange(m as int, ls.len() as int).drop_first());
            assert forall|k: Seq<char>| #[trigger] map@.contains_key(k) implies gathered(
                map@[k],
                k,
                cps,
                ds,
                post,
                policies@,
            ) by {
                if k != key {
                    assert(before.contains_key(k));
                } else if !before.contains_key(k) {
                    assert(strings_view(map@[k].tags@) =~= Seq::<Seq<char>>::empty());
                }
            }
        }
        m = m + 1;
    }
    assert(m == ls.len());
    assert(ls.subrange(0, m as int) == ls);
    let keys = map.keys();
    let sorted = sorted_distinct(&keys);
    let ghost ks = strings_view(sorted@);
    proof {
        assert forall|q: int| 0 <= q < ks.len() implies #[trigger] map@.contains_key(ks[q]) by {
            assert(ks.contains(ks[q]));
            assert(strings_view(keys@).contains(ks[q]));
            let x = choose|x: int| 0 <= x < strings_view(keys@).len() && strings_view(keys@)[x] == ks[q];
            assert(keys@[x]@ == ks[q]);
            assert(map@.contains_key(keys@[x]@));
        }
        assert forall|x: Seq<char>| strings_view(keys@).contains(x) implies (in_config(cps, x) || in_pairs(ds, x) || in_pairs(ls, x)) by {
            let y = choose|y: int| 0 <= y < strings_view(keys@).len() && strings_view(keys@)[y] == x;
            assert(keys@[y]@ == x);
            assert(map@.contains_key(keys@[y]@));
        }
        assert forall|q: int| 0 <= q < ks.len() implies gathered(map@[#[trigger] ks[q]], ks[q], cps, ds, ls, policies@) by {
            assert(map@.contains_key(ks[q]));
        }
        assert forall|k: Seq<char>| (in_config(cps, k) || in_pairs(ds, k) || in_pairs(ls, k)) implies ks.contains(k) by {
            assert(map@.contains_key(k));
            let y = choose|y: int| 0 <= y < keys@.len() && keys@[y]@ == k;
            assert(strings_view(keys@)[y] == k);
            assert(strings_view(keys@).contains(k));
        }
    }
    let mut out: Vec<PeerStatus> = Vec::new();
    let ghost mut gs: Seq<PeerStatus> = Seq::empty();
    let mut t: usize = 0;
    while t < sorted.len()
        invariant
            t <= sorted.len(),
            out@.len() == t,
            ks == strings_view(sorted@),
            strictly_sorted(ks),
            forall|x: Seq<char>| ks.contains(x) <==> strings_view(keys@).contains(x),
            forall|x: Seq<char>| strings_view(keys@).contains(x) ==> (in_config(cps, x) || in_pairs(ds, x) || in_pairs(ls, x)),
            forall|k: Seq<char>| (in_config(cps, k) || in_pairs(ds, k) || in_pairs(ls, k)) ==> ks.contains(k),
            cps == config_peers@,
            ds == discovered@,
            ls == links@,
            forall|q: int| t <= q < ks.len() ==> #[trigger] map@.contains_key(ks[q]),
            forall|q: int| t <= q < ks.len() ==> gathered(map@[#[trigger] ks[q]], ks[q], cps, ds, ls, policies@),
            gs.len() == t,
            forall|q: int| 0 <= q < t ==> gathered(#[trigger] gs[q], ks[q], cps, ds, ls, policies@),
            forall|q: int|
                0 <= q < t ==> finalized(
                    #[trigger] out@[q],
                    gs[q],
                    entry_of(reports@, ks[q]),
                    entry_of(policies@, ks[q]),
                    now_ms,
                    peer_ttl_ms,
                ),
            forall|q: int| 0 <= q < t ==> {
                let p = #[trigger] out@[q];
                &&& p.node_id@ == ks[q]
                &&& p.configured == in_config(cps, ks[q])
                &&& p.discovered == in_pairs(ds, ks[q])
                &&& p.links@ == links_for(ls, ks[q])
                &&& completed(p, now_ms, peer_ttl_ms)
            },
        decreases sorted.len() - t,
    {
        let ghost k = ks[t as int];
        let ghost old_map = map@;
        assert(sorted@[t as int]@ == k);
        let st = take_status(&mut map, sorted[t].as_str());
        let report = reports.get(sorted[t].as_str());
        let policy = policies.get(sorted[t].as_str());
        let ghost gst = st;
        let done = finalize_peer(st, report, policy, now_ms, peer_ttl_ms);
        let ghost before_out = out@;
        out.push(done);
        proof {
            assert(match report {
                Some(r) => Some(*r),
                None => None,
            } == entry_of(reports@, k));
            assert(match policy {
                Some(q) => Some(*q),
                None => None,
            } == entry_of(policies@, k));
            assert(gathered(gst, k, cps, ds, ls, policies@));
            let before_gs = gs;
            gs = gs.push(gst);
            assert forall|q: int| 0 <= q < t + 1 implies gathered(#[trigger] gs[q], ks[q], cps, ds, ls, policies@) by {
                if q < t {
                    assert(gs[q] == before_gs[q]);
                }
            }
            assert forall|q: int| 0 <= q < t + 1 implies finalized(
                #[trigger] out@[q],
                gs[q],
                entry_of(reports@, ks[q]),
                entry_of(policies@, ks[q]),
                now_ms,
                peer_ttl_ms,
            ) by {
                if q == t {
                    assert(out@[q] == done);
                } else {
                    assert(out@[q] == before_out[q]);
                    assert(gs[q] == before_gs[q]);
                }
            }
            assert forall|q: int| t + 1 <= q < ks.len() implies #[trigger] map@.contains_key(ks[q]) && map@[ks[q]] == old_map[ks[q]] by {
                assert(text_lt(ks[t as int], ks[q]));
                assert(ks[q] != k) by {
                    crate::order::lemma_text_lt_irreflexive(k);
                }
            }
            assert forall|q: int| t + 1 <= q < ks.len() implies gathered(map@[#[trigger] ks[q]], ks[q], cps, ds, ls, policies@) by {
                assert(text_lt(ks[t as int], ks[q]));
                assert(ks[q] != k) by {
                    crate::order::lemma_text_lt_irreflexive(k);
                }
                assert(map@[ks[q]] == old_map[ks[q]]);
            }
        }
        t = t + 1;
    }
    proof {
        assert(out@.map_values(|p: PeerStatus| p.node_id@) =~= ks);
        assert forall|q: int| 0 <= q < out@.len() implies exists|g: PeerStatus|
            gathered(g, (#[trigger] out@[q]).node_id@, cps, ds, ls, policies@) && finalized(
                out@[q],
                g,
                entry_of(reports@, out@[q].node_id@),
                entry_of(policies@, out@[q].node_id@),
                now_ms,
                peer_ttl_ms,
            ) by {
            assert(gathered(gs[q], ks[q], cps, ds, ls, policies@));
            assert(finalized(out@[q], gs[q], entry_of(reports@, ks[q]), entry_of(policies@, ks[q]), now_ms, peer_ttl_ms));
        }
        assert forall|k: Seq<char>| (in_config(config_peers@, k) || in_pairs(discovered@, k) || in_pairs(links@, k)) implies exists|i: int|
            0 <= i < out@.len() && (#[trigger] out@[i]).node_id@ == k by {
            assert(ks.contains(k));
            let q = choose|q: int| 0 <= q < ks.len() && ks[q] == k;
            assert(out@[q].node_id@ == k);
        }
        assert forall|q: int| 0 <= q < out@.len() implies (in_config(cps, out@[q].node_id@) || in_pairs(ds, out@[q].node_id@) || in_pairs(ls, out@[q].node_id@)) by {
            assert(ks.contains(ks[q]));
            assert(strings_view(keys@).contains(ks[q]));
        }
    }
    out
}

fn take_status(map: &mut Table<PeerStatus>, key: &str) -> (p: PeerStatus)
    requires
        old(map)@.contains_key(key@),
    ensures
        p == old(map)@[key@],
        final(map)@ == old(map)@.remove(key@),
{
    match map.remove(key) {
        Some(p) => p,
        None => {
            assert(false);
            fresh_status(String::new(), PeerPolicy { node_id: String::new(), role: None, relationship: String::new(), preferred_transport_order: Vec::new() }, Vec::new(), false, false, None, None, None, Vec::new())
        },
    }
}

} // verus!

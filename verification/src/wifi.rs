//! Wi-Fi state as NetworkManager reports it, and the decisions of the Wi-Fi
//! automation. The commands (`nmcli`, `ip`) run outside the library, which
//! reads their output and chooses what to run.
use crate::config::{WifiConfig, WifiNetworkConfig};
use crate::order::{lemma_text_lt_asymmetric, lemma_text_lt_total, lemma_text_lt_transitive, str_lt, text_lt};
use crate::text::{
    chars_eq, chars_of, chars_view, lines, lines_of, parse_unsigned, parse_unsigned_chars,
    splitn, splitn_chars, string_of, strings_view, words, words_of,
};
use vstd::prelude::*;

verus! {

#[derive(Debug, Clone)]
pub struct WifiStatus {
    pub manager_available: bool,
    pub interface: String,
    pub device_state: String,
    pub active_connection: Option<String>,
    pub active_ssid: Option<String>,
    pub mode: String,
    pub ipv4_addresses: Vec<String>,
    pub scanned_networks: Vec<ScannedWifiNetwork>,
    pub fallback_networks: Vec<FallbackWifiNetwork>,
}

#[derive(Debug, Clone)]
pub struct ScannedWifiNetwork {
    pub active: bool,
    pub ssid: String,
    pub signal: Option<u8>,
    pub security: String,
}

#[derive(Debug, Clone)]
pub struct FallbackWifiNetwork {
    pub ssid: String,
    pub priority: u32,
}

#[derive(Debug, Clone)]
pub struct WifiActionResponse {
    pub ok: bool,
    pub action: String,
    pub details: Vec<String>,
    pub status: WifiStatus,
}

/// A scanned network as text.
pub struct ScanView {
    pub active: bool,
    pub ssid: Seq<char>,
    pub signal: Option<u8>,
    pub security: Seq<char>,
}

pub open spec fn scan_view(n: ScannedWifiNetwork) -> ScanView {
    ScanView { active: n.active, ssid: n.ssid@, signal: n.signal, security: n.security@ }
}

pub open spec fn scans_view(v: Seq<ScannedWifiNetwork>) -> Seq<ScanView> {
    v.map_values(|n: ScannedWifiNetwork| scan_view(n))
}

pub open spec fn opt_text(o: Option<String>) -> Option<Seq<char>> {
    match o {
        Some(s) => Some(s@),
        None => None,
    }
}

/// The `i`-th field, or empty text when there are fewer.
pub open spec fn field(parts: Seq<Seq<char>>, i: int) -> Seq<char> {
    if 0 <= i < parts.len() {
        parts[i]
    } else {
        Seq::empty()
    }
}

pub open spec fn fields4(line: Seq<char>) -> Seq<Seq<char>> {
    splitn(line, 4, ':')
}

/// A line of `nmcli -t -f ACTIVE,SSID,SIGNAL,SECURITY device wifi list`;
/// lines without an SSID are skipped.
pub open spec fn scan_line(line: Seq<char>) -> Option<ScanView> {
    let p = fields4(line);
    let ssid = field(p, 1);
    if line.len() == 0 || ssid.len() == 0 {
        None
    } else {
        Some(
            ScanView {
                active: field(p, 0) == "yes"@,
                ssid,
                signal: if p.len() > 2 {
                    match parse_unsigned(p[2], 255) {
                        Some(v) => Some(v as u8),
                        None => None,
                    }
                } else {
                    None
                },
                security: field(p, 3),
            },
        )
    }
}

pub open spec fn scan_lines(ls: Seq<Seq<char>>) -> Seq<ScanView>
    decreases ls.len(),
{
    if ls.len() == 0 {
        Seq::empty()
    } else {
        let front = scan_lines(ls.drop_last());
        match scan_line(ls.last()) {
            Some(v) => front.push(v),
            None => front,
        }
    }
}

/// The line of `nmcli -t -f DEVICE,TYPE,STATE,CONNECTION device status` for
/// the Wi-Fi interface, the first that names it.
pub open spec fn device_line(ls: Seq<Seq<char>>, interface: Seq<char>) -> Option<Seq<char>>
    decreases ls.len(),
{
    if ls.len() == 0 {
        None
    } else if field(fields4(ls[0]), 0) == interface && field(fields4(ls[0]), 1) == "wifi"@ {
        Some(ls[0])
    } else {
        device_line(ls.drop_first(), interface)
    }
}

pub open spec fn device_state_of(line: Option<Seq<char>>) -> Seq<char> {
    match line {
        Some(l) => field(fields4(l), 2),
        None => "unknown"@,
    }
}

pub open spec fn connection_of(line: Option<Seq<char>>) -> Option<Seq<char>> {
    match line {
        Some(l) => {
            let c = field(fields4(l), 3);
            if c.len() > 0 && c != "--"@ {
                Some(c)
            } else {
                None
            }
        },
        None => None,
    }
}

/// The SSID of the first network marked active.
pub open spec fn active_ssid_of(scans: Seq<ScanView>) -> Option<Seq<char>>
    decreases scans.len(),
{
    if scans.len() == 0 {
        None
    } else if scans[0].active {
        Some(scans[0].ssid)
    } else {
        active_ssid_of(scans.drop_first())
    }
}

/// `ap` when the hotspot connection or SSID is active, `client` when another
/// network is, `idle` otherwise.
pub open spec fn mode_of(connection: Option<Seq<char>>, ssid: Option<Seq<char>>, c: WifiConfig) -> Seq<char> {
    if connection == Some(c.hotspot_connection_name@) || ssid == Some(c.hotspot_ssid@) {
        "ap"@
    } else if ssid is Some {
        "client"@
    } else {
        "idle"@
    }
}

/// The fourth word of each line of `ip -o -4 addr show dev <interface>`.
pub open spec fn addresses_of(ls: Seq<Seq<char>>) -> Seq<Seq<char>>
    decreases ls.len(),
{
    if ls.len() == 0 {
        Seq::empty()
    } else {
        let front = addresses_of(ls.drop_last());
        let w = words(ls.last());
        if w.len() > 3 {
            front.push(w[3])
        } else {
            front
        }
    }
}

pub open spec fn output_lines(o: Option<&str>) -> Seq<Seq<char>> {
    match o {
        Some(t) => lines(t@),
        None => Seq::empty(),
    }
}

/// The configured fallback networks, without their passwords.
pub open spec fn fallbacks_match(out: Seq<FallbackWifiNetwork>, nets: Seq<WifiNetworkConfig>) -> bool {
    &&& out.len() == nets.len()
    &&& forall|i: int|
        0 <= i < nets.len() ==> (#[trigger] out[i]).ssid@ == nets[i].ssid@ && out[i].priority
            == nets[i].priority
}

fn fallback_list(nets: &Vec<WifiNetworkConfig>) -> (out: Vec<FallbackWifiNetwork>)
    ensures
        fallbacks_match(out@, nets@),
{
    let mut out: Vec<FallbackWifiNetwork> = Vec::new();
    let mut i: usize = 0;
    while i < nets.len()
        invariant
            i <= nets.len(),
            out.len() == i,
            forall|k: int|
                0 <= k < i ==> (#[trigger] out@[k]).ssid@ == nets@[k].ssid@ && out@[k].priority
                    == nets@[k].priority,
        decreases nets.len() - i,
    {
        let n = &nets[i];
        out.push(FallbackWifiNetwork { ssid: n.ssid.clone(), priority: n.priority });
        i = i + 1;
    }
    out
}

fn field_of(parts: &Vec<Vec<char>>, i: usize) -> (r: Vec<char>)
    ensures
        r@ == field(chars_view(parts@), i as int),
{
    if i < parts.len() {
        let mut r: Vec<char> = Vec::new();
        let p = &parts[i];
        let mut k: usize = 0;
        while k < p.len()
            invariant
                k <= p.len(),
                r@ == p@.subrange(0, k as int),
            decreases p.len() - k,
        {
            r.push(p[k]);
            assert(p@.subrange(0, k + 1) == p@.subrange(0, k as int).push(p@[k as int]));
            k = k + 1;
        }
        assert(p@.subrange(0, p.len() as int) == p@);
        r
    } else {
        Vec::new()
    }
}

/// Reads one line of the scan list.
pub fn parse_scan_line(line: &Vec<char>) -> (r: Option<ScannedWifiNetwork>)
    ensures
        match scan_line(line@) {
            Some(v) => r matches Some(n) && scan_view(n) == v,
            None => r is None,
        },
{
    let p = splitn_chars(line.as_slice(), 4, ':');
    let ssid = field_of(&p, 1);
    if line.len() == 0 || ssid.len() == 0 {
        return None;
    }
    let first = field_of(&p, 0);
    let active = chars_eq(&first, &chars_of("yes"));
    let signal: Option<u8> = if p.len() > 2 {
        match parse_unsigned_chars(p[2].as_slice(), 255) {
            Some(v) => Some(v as u8),
            None => None,
        }
    } else {
        None
    };
    let security = field_of(&p, 3);
    Some(
        ScannedWifiNetwork {
            active,
            ssid: string_of(&ssid),
            signal,
            security: string_of(&security),
        },
    )
}

proof fn lemma_device_line_skip(ls: Seq<Seq<char>>, interface: Seq<char>, i: int)
    requires
        0 <= i < ls.len(),
    ensures
        device_line(ls.skip(i), interface) == (if field(fields4(ls[i]), 0) == interface && field(
            fields4(ls[i]),
            1,
        ) == "wifi"@ {
            Some(ls[i])
        } else {
            device_line(ls.skip(i + 1), interface)
        }),
{
    assert(ls.skip(i)[0] == ls[i]);
    assert(ls.skip(i).drop_first() =~= ls.skip(i + 1));
}

/// The status of the Wi-Fi interface, read from the outputs of the three
/// commands (`None` for one that failed). Without the device list, the
/// network manager counts as unavailable.
pub fn status_from_outputs(
    config: &WifiConfig,
    device: Option<&str>,
    wifi_list: Option<&str>,
    ip_output: Option<&str>,
) -> (s: WifiStatus)
    ensures
        s.interface@ == config.interface@,
        fallbacks_match(s.fallback_networks@, config.fallback_networks@),
        device is None ==> {
            &&& !s.manager_available
            &&& s.device_state@ == "unavailable"@
            &&& s.active_connection is None
            &&& s.active_ssid is None
            &&& s.mode@ == "unknown"@
            &&& s.ipv4_addresses@.len() == 0
            &&& s.scanned_networks@.len() == 0
        },
        device is Some ==> {
            let dl = device_line(output_lines(device), config.interface@);
            let scans = scan_lines(output_lines(wifi_list));
            &&& s.manager_available
            &&& s.device_state@ == device_state_of(dl)
            &&& opt_text(s.active_connection) == connection_of(dl)
            &&& scans_view(s.scanned_networks@) == scans
            &&& opt_text(s.active_ssid) == active_ssid_of(scans)
            &&& s.mode@ == mode_of(connection_of(dl), active_ssid_of(scans), *config)
            &&& strings_view(s.ipv4_addresses@) == addresses_of(output_lines(ip_output))
        },
{
    let fallback_networks = fallback_list(&config.fallback_networks);
    let device_text = match device {
        Some(d) => d,
        None => {
            return WifiStatus {
                manager_available: false,
                interface: config.interface.clone(),
                device_state: String::from_str("unavailable"),
                active_connection: None,
                active_ssid: None,
                mode: String::from_str("unknown"),
                ipv4_addresses: Vec::new(),
                scanned_networks: Vec::new(),
                fallback_networks,
            };
        },
    };
    let iface = chars_of(config.interface.as_str());
    let wifi_word = chars_of("wifi");
    let dev_lines = lines_of(chars_of(device_text).as_slice());
    let ghost dls = chars_view(dev_lines@);
    let mut found: Option<Vec<Vec<char>>> = None;
    let mut i: usize = 0;
    assert(dls.skip(0) =~= dls);
    while i < dev_lines.len()
        invariant
            i <= dev_lines.len(),
            dls == chars_view(dev_lines@),
            iface@ == config.interface@,
            wifi_word@ == "wifi"@,
            found is None ==> device_line(dls, iface@) == device_line(dls.skip(i as int), iface@),
            found matches Some(p) ==> device_line(dls, iface@) matches Some(l) && chars_view(p@)
                == fields4(l),
        decreases dev_lines.len() - i,
    {
        if found.is_none() {
            let p = splitn_chars(dev_lines[i].as_slice(), 4, ':');
            let name = field_of(&p, 0);
            let kind = field_of(&p, 1);
            proof {
                lemma_device_line_skip(dls, iface@, i as int);
            }
            if chars_eq(&name, &iface) && chars_eq(&kind, &wifi_word) {
                found = Some(p);
            }
        }
        i = i + 1;
    }
    assert(dls.skip(dev_lines.len() as int).len() == 0);
    let ghost dl = device_line(dls, iface@);
    let mut device_state = String::from_str("unknown");
    let mut active_connection: Option<String> = None;
    match &found {
        Some(p) => {
            device_state = string_of(field_of(p, 2).as_slice());
            let c = field_of(p, 3);
            if c.len() > 0 && !chars_eq(&c, &chars_of("--")) {
                active_connection = Some(string_of(&c));
            }
        },
        None => {},
    }
    let list_lines = match wifi_list {
        Some(t) => lines_of(chars_of(t).as_slice()),
        None => Vec::new(),
    };
    let mut scanned_networks: Vec<ScannedWifiNetwork> = Vec::new();
    let mut j: usize = 0;
    while j < list_lines.len()
        invariant
            j <= list_lines.len(),
            scans_view(scanned_networks@) == scan_lines(chars_view(list_lines@).subrange(0, j as int)),
        decreases list_lines.len() - j,
    {
        let ghost pre = chars_view(list_lines@).subrange(0, j as int);
        assert(chars_view(list_lines@).subrange(0, j + 1).drop_last() =~= pre);
        match parse_scan_line(&list_lines[j]) {
            Some(n) => {
                let ghost before = scans_view(scanned_networks@);
                scanned_networks.push(n);
                assert(scans_view(scanned_networks@) =~= before.push(scan_view(n)));
            },
            None => {},
        }
        j = j + 1;
    }
    assert(chars_view(list_lines@).subrange(0, list_lines.len() as int) == chars_view(list_lines@));
    let ghost scans = scans_view(scanned_networks@);
    let mut active_ssid: Option<String> = None;
    let mut k: usize = 0;
    assert(scans.skip(0) =~= scans);
    while k < scanned_networks.len()
        invariant
            k <= scanned_networks.len(),
            scans == scans_view(scanned_networks@),
            active_ssid is None ==> active_ssid_of(scans) == active_ssid_of(scans.skip(k as int)),
            active_ssid matches Some(a) ==> active_ssid_of(scans) == Some(a@),
        decreases scanned_networks.len() - k,
    {
        if active_ssid.is_none() {
            assert(scans.skip(k as int)[0] == scans[k as int]);
            assert(scans.skip(k as int).drop_first() =~= scans.skip(k + 1));
            if scanned_networks[k].active {
                active_ssid = Some(scanned_networks[k].ssid.clone());
            }
        }
        k = k + 1;
    }
    assert(scans.skip(scanned_networks.len() as int).len() == 0);
    let is_ap = match &active_connection {
        Some(c) => crate::json::str_eq(c.as_str(), config.hotspot_connection_name.as_str()),
        None => false,
    } || match &active_ssid {
        Some(a) => crate::json::str_eq(a.as_str(), config.hotspot_ssid.as_str()),
        None => false,
    };
    let mode = if is_ap {
        String::from_str("ap")
    } else if active_ssid.is_some() {
        String::from_str("client")
    } else {
        String::from_str("idle")
    };
    let ip_lines = match ip_output {
        Some(t) => lines_of(chars_of(t).as_slice()),
        None => Vec::new(),
    };
    let mut ipv4_addresses: Vec<String> = Vec::new();
    let mut m: usize = 0;
    while m < ip_lines.len()
        invariant
            m <= ip_lines.len(),
            strings_view(ipv4_addresses@) == addresses_of(chars_view(ip_lines@).subrange(0, m as int)),
        decreases ip_lines.len() - m,
    {
        let ghost pre = chars_view(ip_lines@).subrange(0, m as int);
        assert(chars_view(ip_lines@).subrange(0, m + 1).drop_last() =~= pre);
        let w = words_of(ip_lines[m].as_slice());
        if w.len() > 3 {
            let ghost before = strings_view(ipv4_addresses@);
            let a = string_of(w[3].as_slice());
            ipv4_addresses.push(a);
            assert(strings_view(ipv4_addresses@) =~= before.push(chars_view(w@)[3]));
        }
        m = m + 1;
    }
    assert(chars_view(ip_lines@).subrange(0, ip_lines.len() as int) == chars_view(ip_lines@));
    WifiStatus {
        manager_available: true,
        interface: config.interface.clone(),
        device_state,
        active_connection,
        active_ssid,
        mode,
        ipv4_addresses,
        scanned_networks,
        fallback_networks,
    }
}

/// The index of the first network with this SSID.
pub open spec fn first_with_ssid(nets: Seq<WifiNetworkConfig>, ssid: Seq<char>) -> Option<int>
    decreases nets.len(),
{
    if nets.len() == 0 {
        None
    } else if nets[0].ssid@ == ssid {
        Some(0)
    } else {
        match first_with_ssid(nets.drop_first(), ssid) {
            Some(i) => Some(i + 1),
            None => None,
        }
    }
}

/// The password of the first configured network with this SSID (none when
/// there is no such network or it has no password).
pub fn fallback_password<'a>(networks: &'a [WifiNetworkConfig], ssid: &str) -> (r: Option<&'a str>)
    ensures
        match first_with_ssid(networks@, ssid@) {
            Some(i) => match networks@[i].password {
                Some(p) => r matches Some(x) && x@ == p@,
                None => r is None,
            },
            None => r is None,
        },
{
    let mut i: usize = 0;
    assert(networks@.skip(0) =~= networks@);
    while i < networks.len()
        invariant
            i <= networks.len(),
            first_with_ssid(networks@, ssid@) == match first_with_ssid(networks@.skip(i as int), ssid@) {
                Some(k) => Some(k + i),
                None => None,
            },
        decreases networks.len() - i,
    {
        assert(networks@.skip(i as int)[0] == networks@[i as int]);
        assert(networks@.skip(i as int).drop_first() =~= networks@.skip(i + 1));
        if crate::json::str_eq(networks[i].ssid.as_str(), ssid) {
            return match &networks[i].password {
                Some(p) => Some(p.as_str()),
                None => None,
            };
        }
        i = i + 1;
    }
    None
}

/// What the Wi-Fi automation does for a requested mode.
#[derive(Debug, Clone, Copy, PartialEq, Eq, Structural)]
pub enum WifiAutomation {
    /// Start the hotspot (`parent`, `ap`, `hotspot`).
    Hotspot,
    /// Join the best fallback network (`child`, `client`).
    Client,
    /// Nothing to do for this mode.
    Nothing,
}

pub open spec fn automation_of(mode: Seq<char>) -> WifiAutomation {
    if mode == "parent"@ || mode == "ap"@ || mode == "hotspot"@ {
        WifiAutomation::Hotspot
    } else if mode == "child"@ || mode == "client"@ {
        WifiAutomation::Client
    } else {
        WifiAutomation::Nothing
    }
}

/// The parent modes (`parent`, `ap`, `hotspot`) start the hotspot, the
/// child modes (`child`, `client`) join a network, and every other mode,
/// the empty one among them, does nothing.
pub proof fn law_automation_modes(mode: Seq<char>)
    ensures
        automation_of("parent"@) == WifiAutomation::Hotspot,
        automation_of("ap"@) == WifiAutomation::Hotspot,
        automation_of("hotspot"@) == WifiAutomation::Hotspot,
        automation_of("child"@) == WifiAutomation::Client,
        automation_of("client"@) == WifiAutomation::Client,
        automation_of(Seq::<char>::empty()) == WifiAutomation::Nothing,
        automation_of(mode) == WifiAutomation::Hotspot ==> mode == "parent"@ || mode == "ap"@ || mode == "hotspot"@,
        automation_of(mode) == WifiAutomation::Client ==> mode == "child"@ || mode == "client"@,
{
    reveal_strlit("parent");
    reveal_strlit("ap");
    reveal_strlit("hotspot");
    reveal_strlit("child");
    reveal_strlit("client");
    assert("ap"@[0] != "parent"@[0]);
    assert("hotspot"@[0] != "parent"@[0] && "hotspot"@[0] != "ap"@[0]);
    assert("child"@[0] != "parent"@[0] && "child"@[0] != "ap"@[0] && "child"@[0] != "hotspot"@[0]);
    assert("client"@[0] != "parent"@[0] && "client"@[0] != "ap"@[0] && "client"@[0] != "hotspot"@[0]);
    assert("client"@[1] != "child"@[1]);
    let e = Seq::<char>::empty();
    assert(e.len() != "parent"@.len() && e.len() != "ap"@.len() && e.len() != "hotspot"@.len());
    assert(e.len() != "child"@.len() && e.len() != "client"@.len());
}

/// The automation for a mode; without one, the configured mode.
pub fn automation_for_mode(config: &WifiConfig, requested: Option<&str>) -> (r: WifiAutomation)
    ensures
        r == automation_of(
            match requested {
                Some(m) => m@,
                None => config.desired_mode@,
            },
        ),
{
    let mode = match requested {
        Some(m) => m,
        None => config.desired_mode.as_str(),
    };
    let m = chars_of(mode);
    if chars_eq(&m, &chars_of("parent")) || chars_eq(&m, &chars_of("ap")) || chars_eq(
        &m,
        &chars_of("hotspot"),
    ) {
        WifiAutomation::Hotspot
    } else if chars_eq(&m, &chars_of("child")) || chars_eq(&m, &chars_of("client")) {
        WifiAutomation::Client
    } else {
        WifiAutomation::Nothing
    }
}

/// The priority of the network the interface is on: that of the first
/// configured network with its SSID (none when it is on no network, or on
/// one that is not configured).
pub open spec fn active_priority(nets: Seq<WifiNetworkConfig>, active: Option<Seq<char>>) -> Option<u32> {
    match active {
        Some(a) => match first_with_ssid(nets, a) {
            Some(i) => Some(nets[i].priority),
            None => None,
        },
        None => None,
    }
}

/// A configured network is in the scan and ranks above the current one.
pub open spec fn better_network_visible(
    nets: Seq<WifiNetworkConfig>,
    scans: Seq<ScanView>,
    active: Option<Seq<char>>,
) -> bool {
    exists|i: int, j: int|
        0 <= i < nets.len() && 0 <= j < scans.len() && #[trigger] scans[j].ssid == #[trigger] nets[i].ssid@
            && match active_priority(nets, active) {
            Some(p) => nets[i].priority > p,
            None => true,
        }
}

/// When to join again. A client on no network joins as soon as a
/// configured network is in the scan. With no configured network in the
/// scan it never moves. On a configured network that ranks at least as high
/// as every configured network it stays; and a visible configured network
/// ranking above the current one makes it move.
pub proof fn law_reconnect(
    nets: Seq<WifiNetworkConfig>,
    scans: Seq<ScanView>,
    active: Option<Seq<char>>,
    i: int,
    j: int,
)
    ensures
        active is None && 0 <= i < nets.len() && 0 <= j < scans.len() && scans[j].ssid == nets[i].ssid@
            ==> better_network_visible(nets, scans, active),
        (forall|a: int, b: int| 0 <= a < nets.len() && 0 <= b < scans.len() ==> scans[b].ssid != nets[a].ssid@)
            ==> !better_network_visible(nets, scans, active),
        (active_priority(nets, active) matches Some(p) && forall|a: int| 0 <= a < nets.len() ==> nets[a].priority <= p)
            ==> !better_network_visible(nets, scans, active),
        (active_priority(nets, active) matches Some(p) && 0 <= i < nets.len() && 0 <= j < scans.len() && scans[j].ssid
            == nets[i].ssid@ && nets[i].priority > p) ==> better_network_visible(nets, scans, active),
{
    if active is None && 0 <= i < nets.len() && 0 <= j < scans.len() && scans[j].ssid == nets[i].ssid@ {
        assert(active_priority(nets, active) is None);
    }
}

/// The configured network found by SSID is the first with that SSID.
pub proof fn law_first_with_ssid(nets: Seq<WifiNetworkConfig>, ssid: Seq<char>)
    ensures
        first_with_ssid(nets, ssid) matches Some(k) ==> 0 <= k < nets.len() && nets[k].ssid@ == ssid && forall|a: int|
            0 <= a < k ==> nets[a].ssid@ != ssid,
        first_with_ssid(nets, ssid) is None ==> forall|a: int| 0 <= a < nets.len() ==> nets[a].ssid@ != ssid,
    decreases nets.len(),
{
    if nets.len() > 0 && nets[0].ssid@ != ssid {
        law_first_with_ssid(nets.drop_first(), ssid);
        assert forall|a: int| 1 <= a < nets.len() implies nets[a] == nets.drop_first()[a - 1] by {}
    }
}

/// The priority of the first configured network with this SSID.
fn fallback_priority(networks: &[WifiNetworkConfig], ssid: &str) -> (r: Option<u32>)
    ensures
        r == match first_with_ssid(networks@, ssid@) {
            Some(i) => Some(networks@[i].priority),
            None => None,
        },
{
    let mut i: usize = 0;
    assert(networks@.skip(0) =~= networks@);
    while i < networks.len()
        invariant
            i <= networks.len(),
            first_with_ssid(networks@, ssid@) == match first_with_ssid(networks@.skip(i as int), ssid@) {
                Some(k) => Some(k + i),
                None => None,
            },
        decreases networks.len() - i,
    {
        assert(networks@.skip(i as int)[0] == networks@[i as int]);
        assert(networks@.skip(i as int).drop_first() =~= networks@.skip(i + 1));
        if crate::json::str_eq(networks[i].ssid.as_str(), ssid) {
            return Some(networks[i].priority);
        }
        i = i + 1;
    }
    None
}

/// Whether a client should join again: a configured network that ranks
/// above the one it is on (or any configured network, when it is on none or
/// on one that is not configured) is in the scan. When no configured
/// network is in sight it stays as it is.
pub fn needs_client_reconnect(config: &WifiConfig, status: &WifiStatus) -> (r: bool)
    ensures
        r == better_network_visible(
            config.fallback_networks@,
            scans_view(status.scanned_networks@),
            opt_text(status.active_ssid),
        ),
{
    let nets = config.fallback_networks.as_slice();
    let current: Option<u32> = match &status.active_ssid {
        Some(a) => fallback_priority(nets, a.as_str()),
        None => None,
    };
    let ghost scans = scans_view(status.scanned_networks@);
    let ghost act = opt_text(status.active_ssid);
    assert(current == active_priority(nets@, act));
    let mut i: usize = 0;
    while i < nets.len()
        invariant
            i <= nets@.len(),
            nets@ == config.fallback_networks@,
            scans == scans_view(status.scanned_networks@),
            current == active_priority(nets@, act),
            act == opt_text(status.active_ssid),
            forall|a: int, b: int|
                0 <= a < i && 0 <= b < scans.len() ==> !(#[trigger] scans[b].ssid == #[trigger] nets@[a].ssid@
                    && match current {
                    Some(p) => nets@[a].priority > p,
                    None => true,
                }),
        decreases nets@.len() - i,
    {
        let ranks = match current {
            Some(p) => nets[i].priority > p,
            None => true,
        };
        if ranks {
            let mut j: usize = 0;
            while j < status.scanned_networks.len()
                invariant
                    i < nets@.len(),
                    nets@ == config.fallback_networks@,
                    current == active_priority(nets@, act),
                    act == opt_text(status.active_ssid),
                    match current {
                        Some(p) => nets@[i as int].priority > p,
                        None => true,
                    },
                    j <= status.scanned_networks@.len(),
                    scans == scans_view(status.scanned_networks@),
                    forall|b: int| 0 <= b < j ==> #[trigger] scans[b].ssid != nets@[i as int].ssid@,
                decreases status.scanned_networks@.len() - j,
            {
                assert(scans[j as int].ssid == status.scanned_networks@[j as int].ssid@);
                if crate::json::str_eq(status.scanned_networks[j].ssid.as_str(), nets[i].ssid.as_str()) {
                    assert(scans[j as int].ssid == nets@[i as int].ssid@);
                    return true;
                }
                j = j + 1;
            }
        }
        i = i + 1;
    }
    false
}

/// Whether the automation should be applied again, given the state it
/// finds: a hotspot mode while the interface is not an access point, or a
/// client mode that `needs_client_reconnect`.
pub fn should_reapply(config: &WifiConfig, status: &WifiStatus) -> (r: bool)
    ensures
        r == match automation_of(config.desired_mode@) {
            WifiAutomation::Hotspot => status.mode@ != "ap"@,
            WifiAutomation::Client => better_network_visible(
                config.fallback_networks@,
                scans_view(status.scanned_networks@),
                opt_text(status.active_ssid),
            ),
            WifiAutomation::Nothing => false,
        },
{
    match automation_for_mode(config, None) {
        WifiAutomation::Hotspot => !chars_eq(&chars_of(status.mode.as_str()), &chars_of("ap")),
        WifiAutomation::Client => needs_client_reconnect(config, status),
        WifiAutomation::Nothing => false,
    }
}

/// The arguments of `nmcli` that start the hotspot.
pub fn hotspot_args(config: &WifiConfig) -> (args: Vec<String>)
    ensures
        strings_view(args@) == seq![
            "device"@,
            "wifi"@,
            "hotspot"@,
            "ifname"@,
            config.interface@,
            "con-name"@,
            config.hotspot_connection_name@,
            "ssid"@,
            config.hotspot_ssid@,
            "password"@,
            config.hotspot_password@,
        ],
{
    let mut args: Vec<String> = Vec::new();
    args.push(String::from_str("device"));
    args.push(String::from_str("wifi"));
    args.push(String::from_str("hotspot"));
    args.push(String::from_str("ifname"));
    args.push(config.interface.clone());
    args.push(String::from_str("con-name"));
    args.push(config.hotspot_connection_name.clone());
    args.push(String::from_str("ssid"));
    args.push(config.hotspot_ssid.clone());
    args.push(String::from_str("password"));
    args.push(config.hotspot_password.clone());
    assert(strings_view(args@) =~= seq![
        "device"@,
        "wifi"@,
        "hotspot"@,
        "ifname"@,
        config.interface@,
        "con-name"@,
        config.hotspot_connection_name@,
        "ssid"@,
        config.hotspot_ssid@,
        "password"@,
        config.hotspot_password@,
    ]);
    args
}

/// The arguments of `nmcli` that join a network; the password follows when
/// there is one.
pub fn connect_args(interface: &str, ssid: &str, password: Option<&str>) -> (args: Vec<String>)
    ensures
        strings_view(args@) == seq!["device"@, "wifi"@, "connect"@, ssid@, "ifname"@, interface@] + match password {
            Some(p) => seq!["password"@, p@],
            None => Seq::empty(),
        },
{
    let mut args: Vec<String> = Vec::new();
    args.push(String::from_str("device"));
    args.push(String::from_str("wifi"));
    args.push(String::from_str("connect"));
    args.push(String::from_str(ssid));
    args.push(String::from_str("ifname"));
    args.push(String::from_str(interface));
    match password {
        Some(p) => {
            args.push(String::from_str("password"));
            args.push(String::from_str(p));
        },
        None => {},
    }
    assert(strings_view(args@) =~= seq!["device"@, "wifi"@, "connect"@, ssid@, "ifname"@, interface@] + match password {
        Some(p) => seq!["password"@, p@],
        None => Seq::empty(),
    });
    args
}

// ----- the order in which fallback networks are tried -----
/// `a` is tried before `b`: a higher priority first, then by name.
pub open spec fn tried_before(a: WifiNetworkConfig, b: WifiNetworkConfig) -> bool {
    a.priority > b.priority || (a.priority == b.priority && text_lt(a.ssid@, b.ssid@))
}

proof fn lemma_tried_before_asymmetric(a: WifiNetworkConfig, b: WifiNetworkConfig)
    requires
        tried_before(a, b),
    ensures
        !tried_before(b, a),
{
    if a.priority == b.priority {
        lemma_text_lt_asymmetric(a.ssid@, b.ssid@);
    }
}

proof fn lemma_tried_before_then(a: WifiNetworkConfig, b: WifiNetworkConfig, c: WifiNetworkConfig)
    requires
        tried_before(a, b),
        !tried_before(c, b),
    ensures
        tried_before(a, c),
{
    if a.priority == b.priority && b.priority == c.priority {
        if b.ssid@ == c.ssid@ {
        } else {
            lemma_text_lt_total(b.ssid@, c.ssid@);
            lemma_text_lt_transitive(a.ssid@, b.ssid@, c.ssid@);
        }
    }
}

/// Whether `ssid` is among the names `visible`.
fn listed(visible: &[String], ssid: &str) -> (r: bool)
    ensures
        r == strings_view(visible@).contains(ssid@),
{
    let mut i: usize = 0;
    while i < visible.len()
        invariant
            i <= visible@.len(),
            forall|k: int| 0 <= k < i ==> visible@[k]@ != ssid@,
        decreases visible@.len() - i,
    {
        if crate::json::str_eq(visible[i].as_str(), ssid) {
            assert(strings_view(visible@)[i as int] == ssid@);
            return true;
        }
        i = i + 1;
    }
    proof {
        if strings_view(visible@).contains(ssid@) {
            let k = choose|k: int| 0 <= k < strings_view(visible@).len() && strings_view(visible@)[k] == ssid@;
            assert(visible@[k]@ == ssid@);
        }
    }
    false
}

/// The next step in trying the fallback networks.
#[derive(Debug, PartialEq, Eq, Structural)]
pub enum FallbackStep {
    /// Connect to the network at this position of the configuration.
    Connect(usize),
    /// The last attempt connected: stop.
    Connected,
    /// Every network in the order was tried and none connected (or there
    /// was none to try).
    Exhausted,
}

/// The step after `tried` attempts along `order`, the last of which
/// connected when `last_ok`: the first success ends the run; otherwise the
/// next network in the order is tried, until none is left.
pub fn fallback_next(order: &[usize], tried: usize, last_ok: bool) -> (s: FallbackStep)
    ensures
        tried > 0 && last_ok ==> s == FallbackStep::Connected,
        !(tried > 0 && last_ok) && tried < order@.len() ==> s == FallbackStep::Connect(order@[tried as int]),
        !(tried > 0 && last_ok) && tried >= order@.len() ==> s == FallbackStep::Exhausted,
{
    if tried > 0 && last_ok {
        FallbackStep::Connected
    } else if tried < order.len() {
        FallbackStep::Connect(order[tried])
    } else {
        FallbackStep::Exhausted
    }
}

/// The fallback networks a client tries, in the order it tries them: those
/// whose SSID the scan shows (`visible`), by priority, highest first, then
/// by name; networks alike in both keep their order. Given as positions in
/// `networks`.
pub fn fallback_order(networks: &[WifiNetworkConfig], visible: &[String]) -> (order: Vec<usize>)
    ensures
        order@.no_duplicates(),
        forall|i: int| 0 <= i < order@.len() ==> order@[i] < networks@.len() && strings_view(visible@).contains(
            networks@[order@[i] as int].ssid@,
        ),
        forall|j: usize| j < networks@.len() && strings_view(visible@).contains(networks@[j as int].ssid@) ==> #[trigger] order@.contains(j),
        forall|a: int, b: int| 0 <= a < b < order@.len() ==> !tried_before(networks@[order@[b] as int], networks@[order@[a] as int]),
        forall|a: int, b: int| 0 <= a < b < order@.len() && !tried_before(networks@[order@[a] as int], networks@[order@[b] as int]) ==> order@[a] < order@[b],
{
    let n = networks.len();
    let mut order: Vec<usize> = Vec::new();
    let mut i: usize = 0;
    while i < n
        invariant
            n == networks@.len(),
            i <= n,
            order@.no_duplicates(),
            forall|k: int| 0 <= k < order@.len() ==> order@[k] < i && strings_view(visible@).contains(
                networks@[order@[k] as int].ssid@,
            ),
            forall|j: usize| j < i && strings_view(visible@).contains(networks@[j as int].ssid@) ==> #[trigger] order@.contains(j),
            forall|a: int, b: int| 0 <= a < b < order@.len() ==> !tried_before(networks@[order@[b] as int], networks@[order@[a] as int]),
            forall|a: int, b: int| 0 <= a < b < order@.len() && !tried_before(networks@[order@[a] as int], networks@[order@[b] as int]) ==> order@[a] < order@[b],
        decreases n - i,
    {
        if !listed(visible, networks[i].ssid.as_str()) {
            i = i + 1;
            continue;
        }
        let ghost x = networks@[i as int];
        let mut p: usize = 0;
        while p < order.len() && !(networks[i].priority > networks[order[p]].priority || (networks[i].priority
            == networks[order[p]].priority && str_lt(networks[i].ssid.as_str(), networks[order[p]].ssid.as_str())))
            invariant
                n == networks@.len(),
                i < n,
                x == networks@[i as int],
                p <= order@.len(),
                forall|k: int| 0 <= k < order@.len() ==> order@[k] < i,
                forall|q: int| 0 <= q < p ==> !tried_before(x, networks@[order@[q] as int]),
            decreases order@.len() - p,
        {
            p = p + 1;
        }
        let ghost before = order@;
        order.insert(p, i);
        proof {
            assert(order@ =~= before.insert(p as int, i));
            assert forall|k: int| 0 <= k < order@.len() implies order@[k] < i + 1 && strings_view(visible@).contains(
                networks@[order@[k] as int].ssid@,
            ) by {
                if k < p {
                    assert(order@[k] == before[k]);
                } else if k > p {
                    assert(order@[k] == before[k - 1]);
                }
            }
            assert forall|j: usize| j < i + 1 && strings_view(visible@).contains(networks@[j as int].ssid@) implies #[trigger] order@.contains(j) by {
                if j == i {
                    assert(order@[p as int] == i);
                } else {
                    assert(before.contains(j));
                    let q = choose|q: int| 0 <= q < before.len() && before[q] == j;
                    if q < p {
                        assert(order@[q] == j);
                    } else {
                        assert(order@[q + 1] == j);
                    }
                }
            }
            assert forall|a: int, b: int| 0 <= a < b < order@.len() implies order@[a] != order@[b] by {
                if a == p {
                    assert(order@[b] == before[b - 1]);
                } else if b == p {
                    assert(order@[a] == before[a]);
                } else {
                    let aa = if a < p { a } else { a - 1 };
                    let bb = if b < p { b } else { b - 1 };
                    assert(order@[a] == before[aa] && order@[b] == before[bb]);
                }
            }
            assert forall|a: int, b: int| 0 <= a < b < order@.len() implies !tried_before(networks@[order@[b] as int], networks@[order@[a] as int])
                && (!tried_before(networks@[order@[a] as int], networks@[order@[b] as int]) ==> order@[a] < order@[b]) by {
                if a == p {
                    assert(order@[b] == before[b - 1]);
                    assert(p < before.len());
                    let y = networks@[before[p as int] as int];
                    assert(tried_before(x, y));
                    if b - 1 > p {
                        lemma_tried_before_then(x, y, networks@[before[b - 1] as int]);
                    }
                    lemma_tried_before_asymmetric(x, networks@[before[b - 1] as int]);
                } else if b == p {
                    assert(order@[a] == before[a]);
                } else {
                    let aa = if a < p { a } else { a - 1 };
                    let bb = if b < p { b } else { b - 1 };
                    assert(order@[a] == before[aa] && order@[b] == before[bb]);
                }
            }
        }
        i = i + 1;
    }
    order
}

} // verus!

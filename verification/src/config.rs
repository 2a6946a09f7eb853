//! The node's configuration and the defaults of its optional settings.
//!
//! Reading and writing the TOML file happens outside the library; paths are
//! held as text.
use vstd::prelude::*;

verus! {

#[derive(Debug, Clone)]
pub struct AppConfig {
    pub node: NodeConfig,
    pub storage: StorageConfig,
    pub web: WebConfig,
    pub transport: TransportConfig,
    pub discovery: DiscoveryConfig,
    pub wifi: WifiConfig,
    pub peers: Vec<PeerConfig>,
    pub loaded_from: Option<String>,
}

#[derive(Debug, Clone)]
pub struct NodeConfig {
    pub node_id: String,
    pub role: String,
    pub tags: Vec<String>,
}

#[derive(Debug, Clone)]
pub struct StorageConfig {
    pub root: String,
    pub retention_seconds: u64,
}

#[derive(Debug, Clone)]
pub struct WebConfig {
    pub bind: String,
}

#[derive(Debug, Clone)]
pub struct TransportConfig {
    pub usb_listen: Option<String>,
    pub network_listen: Option<String>,
    pub connect_interval_ms: u64,
    pub heartbeat_interval_ms: u64,
    pub ack_timeout_ms: u64,
    pub max_hops: u8,
}

/// Discovery settings. A configuration without a `discovery` section gets
/// `DiscoveryConfig::default()`: discovery off, empty addresses, zero
/// intervals; a section with missing keys gets the `default_discovery_*`
/// values for them.
#[derive(Debug, Clone)]
pub struct DiscoveryConfig {
    pub enabled: bool,
    pub bind: String,
    pub announce_addr: String,
    pub announce_interval_ms: u64,
    pub peer_ttl_ms: u64,
}

#[derive(Debug, Clone)]
pub struct WifiConfig {
    pub interface: String,
    pub auto_manage: bool,
    pub hotspot_ssid: String,
    pub hotspot_password: String,
    pub hotspot_connection_name: String,
    pub desired_mode: String,
    pub status_interval_ms: u64,
    pub fallback_networks: Vec<WifiNetworkConfig>,
}

#[derive(Debug, Clone)]
pub struct WifiNetworkConfig {
    pub ssid: String,
    pub password: Option<String>,
    pub priority: u32,
}

#[derive(Debug, Clone)]
pub struct PeerConfig {
    pub node_id: String,
    pub usb_addr: Option<String>,
    pub network_addr: Option<String>,
    pub role: Option<String>,
    pub relationship: String,
    pub preferred_transport_order: Vec<String>,
    pub tags: Vec<String>,
}

impl Default for DiscoveryConfig {
    fn default() -> (d: DiscoveryConfig)
        ensures
            !d.enabled,
            d.bind@ == Seq::<char>::empty(),
            d.announce_addr@ == Seq::<char>::empty(),
            d.announce_interval_ms == 0,
            d.peer_ttl_ms == 0,
    {
        DiscoveryConfig {
            enabled: false,
            bind: String::new(),
            announce_addr: String::new(),
            announce_interval_ms: 0,
            peer_ttl_ms: 0,
        }
    }
}

impl Default for WifiConfig {
    fn default() -> (w: WifiConfig)
        ensures
            w.interface@ == "wlan0"@,
            w.auto_manage,
            w.hotspot_ssid@ == "CANweeb-Parent"@,
            w.hotspot_password@ == "canweeb1234"@,
            w.hotspot_connection_name@ == "CANweeb Hotspot"@,
            w.desired_mode@ == "generic"@,
            w.status_interval_ms == 2_000,
            w.fallback_networks@.len() == 0,
    {
        WifiConfig {
            interface: default_wifi_interface(),
            auto_manage: default_wifi_auto_manage(),
            hotspot_ssid: default_wifi_ap_ssid(),
            hotspot_password: default_wifi_ap_password(),
            hotspot_connection_name: default_wifi_hotspot_name(),
            desired_mode: default_node_role(),
            status_interval_ms: default_node_status_interval_ms(),
            fallback_networks: Vec::new(),
        }
    }
}

/// Whether a path is relative: on Unix, where the node runs, one that does
/// not start at the root `/`.
pub open spec fn relative_path(p: Seq<char>) -> bool {
    p.len() == 0 || p[0] != '/'
}

/// The directory of a path, `None` when it has none (`Path::parent`).
pub uninterp spec fn parent_dir(p: Seq<char>) -> Option<Seq<char>>;

/// A path joined onto a base, as on Unix: an absolute path replaces the
/// base; otherwise it follows the base, after a `/` when the base is not
/// empty and does not already end in one.
pub open spec fn joined_path(base: Seq<char>, rel: Seq<char>) -> Seq<char> {
    if !relative_path(rel) {
        rel
    } else if base.len() == 0 || base.last() == '/' {
        base + rel
    } else {
        base + seq!['/'] + rel
    }
}

/// `Path::is_relative` of the text as a path. On Unix, std documents a path
/// as absolute exactly when it has a root, that is when it starts with `/`.
#[verifier::external_body]
fn is_relative_path(p: &str) -> (r: bool)
    ensures
        r == relative_path(p@),
{
    std::path::Path::new(p).is_relative()
}

/// `Path::parent` of the text as a path.
#[verifier::external_body]
fn parent_of(p: &str) -> (r: Option<String>)
    ensures
        match r {
            Some(d) => parent_dir(p@) == Some(d@),
            None => parent_dir(p@) is None,
        },
{
    std::path::Path::new(p).parent().map(|d| d.to_string_lossy().to_string())
}

/// The directory a relative storage root is taken from: that of the
/// configuration file, `.` when its path has none.
pub open spec fn config_dir(path: Seq<char>) -> Seq<char> {
    match parent_dir(path) {
        Some(d) => d,
        None => "."@,
    }
}

/// `Path::join` of two paths as text (`PathBuf::push` on a copy of the
/// base). On Unix an absolute path replaces the base, and a relative one is
/// appended after a `/` unless the base is empty or already ends in one;
/// text that is already UTF-8 comes back unchanged from `to_string_lossy`.
#[verifier::external_body]
fn join_path(base: &str, rel: &str) -> (r: String)
    ensures
        r@ == joined_path(base@, rel@),
{
    std::path::Path::new(base).join(rel).to_string_lossy().to_string()
}

impl AppConfig {
    /// A relative storage root is taken relative to the directory of the
    /// configuration file; everything else is kept.
    pub fn normalize_paths(&mut self, path: &str)
        ensures
            relative_path(old(self).storage.root@) ==> final(self).storage.root@ == joined_path(
                config_dir(path@),
                old(self).storage.root@,
            ),
            !relative_path(old(self).storage.root@) ==> final(self).storage.root@ == old(self).storage.root@,
            final(self).storage.retention_seconds == old(self).storage.retention_seconds,
            final(self).node.node_id@ == old(self).node.node_id@,
            final(self).loaded_from == old(self).loaded_from,
    {
        if is_relative_path(self.storage.root.as_str()) {
            let base = match parent_of(path) {
                Some(d) => d,
                None => String::from_str("."),
            };
            let root = join_path(base.as_str(), self.storage.root.as_str());
            self.storage.root = root;
        }
    }
}

pub fn default_retention_seconds() -> (r: u64)
    ensures
        r == 24 * 60 * 60,
{
    24 * 60 * 60
}

pub fn default_node_role() -> (r: String)
    ensures
        r@ == "generic"@,
{
    String::from_str("generic")
}

pub fn default_connect_interval_ms() -> (r: u64)
    ensures
        r == 1_500,
{
    1_500
}

pub fn default_heartbeat_interval_ms() -> (r: u64)
    ensures
        r == 1_000,
{
    1_000
}

pub fn default_ack_timeout_ms() -> (r: u64)
    ensures
        r == 2_500,
{
    2_500
}

pub fn default_max_hops() -> (r: u8)
    ensures
        r == 8,
{
    8
}

pub fn default_discovery_enabled() -> (r: bool)
    ensures
        r,
{
    true
}

pub fn default_discovery_bind() -> (r: String)
    ensures
        r@ == "0.0.0.0:7060"@,
{
    String::from_str("0.0.0.0:7060")
}

pub fn default_discovery_announce_addr() -> (r: String)
    ensures
        r@ == "255.255.255.255:7060"@,
{
    String::from_str("255.255.255.255:7060")
}

pub fn default_discovery_announce_interval_ms() -> (r: u64)
    ensures
        r == 1_500,
{
    1_500
}

pub fn default_discovery_peer_ttl_ms() -> (r: u64)
    ensures
        r == 8_000,
{
    8_000
}

pub fn default_wifi_interface() -> (r: String)
    ensures
        r@ == "wlan0"@,
{
    String::from_str("wlan0")
}

pub fn default_wifi_auto_manage() -> (r: bool)
    ensures
        r,
{
    true
}

pub fn default_wifi_ap_ssid() -> (r: String)
    ensures
        r@ == "CANweeb-Parent"@,
{
    String::from_str("CANweeb-Parent")
}

pub fn default_wifi_ap_password() -> (r: String)
    ensures
        r@ == "canweeb1234"@,
{
    String::from_str("canweeb1234")
}

pub fn default_wifi_hotspot_name() -> (r: String)
    ensures
        r@ == "CANweeb Hotspot"@,
{
    String::from_str("CANweeb Hotspot")
}

pub fn default_node_status_interval_ms() -> (r: u64)
    ensures
        r == 2_000,
{
    2_000
}

pub fn default_peer_relationship() -> (r: String)
    ensures
        r@ == "peer"@,
{
    String::from_str("peer")
}

} // verus!

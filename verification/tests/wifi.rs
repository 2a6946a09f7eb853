use canweeb::config::{WifiConfig, WifiNetworkConfig};
use canweeb::wifi::{
    automation_for_mode, fallback_next, fallback_order, FallbackStep, connect_args, fallback_password, hotspot_args, needs_client_reconnect,
    should_reapply, status_from_outputs, WifiAutomation,
};

fn net(ssid: &str, password: Option<&str>, priority: u32) -> WifiNetworkConfig {
    WifiNetworkConfig { ssid: ssid.to_string(), password: password.map(|p| p.to_string()), priority }
}

#[test]
fn status_without_network_manager() {
    let mut c = WifiConfig::default();
    c.fallback_networks = vec![net("home", Some("pw"), 3)];
    let s = status_from_outputs(&c, None, Some("yes:x:50:WPA2"), None);
    assert!(!s.manager_available);
    assert_eq!(s.device_state, "unavailable");
    assert_eq!(s.mode, "unknown");
    assert!(s.scanned_networks.is_empty());
    assert_eq!(s.fallback_networks.len(), 1);
    assert_eq!(s.fallback_networks[0].ssid, "home");
    assert_eq!(s.fallback_networks[0].priority, 3);
}

#[test]
fn status_of_a_connected_client() {
    let c = WifiConfig::default();
    let device = "eth0:ethernet:connected:Wired\nwlan0:wifi:connected:HomeNet\nwlan0:wifi:disconnected:--\n";
    let list = "no:Cafe:40:WPA2\nyes:HomeNet:82:WPA2\n\nno::90:\nno:Open:abc:\n";
    let ip = "3: wlan0    inet 192.168.1.20/24 brd 192.168.1.255 scope global wlan0\r\nshort line\n";
    let s = status_from_outputs(&c, Some(device), Some(list), Some(ip));
    assert!(s.manager_available);
    assert_eq!(s.interface, "wlan0");
    assert_eq!(s.device_state, "connected");
    assert_eq!(s.active_connection.as_deref(), Some("HomeNet"));
    assert_eq!(s.active_ssid.as_deref(), Some("HomeNet"));
    assert_eq!(s.mode, "client");
    assert_eq!(s.scanned_networks.len(), 3);
    assert_eq!(s.scanned_networks[0].ssid, "Cafe");
    assert_eq!(s.scanned_networks[0].signal, Some(40));
    assert!(!s.scanned_networks[0].active);
    assert!(s.scanned_networks[1].active);
    assert_eq!(s.scanned_networks[2].ssid, "Open");
    assert_eq!(s.scanned_networks[2].signal, None);
    assert_eq!(s.scanned_networks[2].security, "");
    assert_eq!(s.ipv4_addresses, vec!["192.168.1.20/24".to_string()]);
}

#[test]
fn status_in_hotspot_mode_and_idle() {
    let c = WifiConfig::default();
    let device = "wlan0:wifi:connected:CANweeb Hotspot";
    let s = status_from_outputs(&c, Some(device), None, None);
    assert_eq!(s.mode, "ap");
    assert_eq!(s.active_connection.as_deref(), Some("CANweeb Hotspot"));
    let idle = status_from_outputs(&c, Some("wlan0:wifi:disconnected:--"), Some(""), Some(""));
    assert_eq!(idle.mode, "idle");
    assert_eq!(idle.active_connection, None);
    assert_eq!(idle.device_state, "disconnected");
    let missing = status_from_outputs(&c, Some("eth0:ethernet:connected:x"), None, None);
    assert_eq!(missing.device_state, "unknown");
}

#[test]
fn fallback_password_uses_first_match() {
    let nets = vec![net("a", None, 1), net("b", Some("pb"), 2), net("a", Some("late"), 3)];
    assert_eq!(fallback_password(&nets, "b"), Some("pb"));
    assert_eq!(fallback_password(&nets, "a"), None);
    assert_eq!(fallback_password(&nets, "zzz"), None);
}

#[test]
fn automation_follows_the_mode() {
    let c = WifiConfig::default();
    assert_eq!(automation_for_mode(&c, Some("parent")), WifiAutomation::Hotspot);
    assert_eq!(automation_for_mode(&c, Some("ap")), WifiAutomation::Hotspot);
    assert_eq!(automation_for_mode(&c, Some("hotspot")), WifiAutomation::Hotspot);
    assert_eq!(automation_for_mode(&c, Some("child")), WifiAutomation::Client);
    assert_eq!(automation_for_mode(&c, Some("client")), WifiAutomation::Client);
    assert_eq!(automation_for_mode(&c, Some("Client")), WifiAutomation::Nothing);
    assert_eq!(automation_for_mode(&c, None), WifiAutomation::Nothing);
}

#[test]
fn nmcli_arguments() {
    let c = WifiConfig::default();
    assert_eq!(
        hotspot_args(&c),
        vec!["device", "wifi", "hotspot", "ifname", "wlan0", "con-name", "CANweeb Hotspot", "ssid", "CANweeb-Parent", "password", "canweeb1234"]
    );
    assert_eq!(connect_args("wlan0", "home", None), vec!["device", "wifi", "connect", "home", "ifname", "wlan0"]);
    assert_eq!(
        connect_args("wlan1", "home", Some("pw")),
        vec!["device", "wifi", "connect", "home", "ifname", "wlan1", "password", "pw"]
    );
}

#[test]
fn fallback_networks_tried_by_priority_then_name() {
    let nets = vec![net("beta", None, 1), net("alpha", None, 1), net("zeta", None, 5), net("alpha", Some("x"), 1)];
    let all: Vec<String> = vec!["alpha".into(), "beta".into(), "zeta".into()];
    let order = fallback_order(&nets, &all);
    assert_eq!(order, vec![2, 1, 3, 0]);
    assert!(fallback_order(&[], &all).is_empty());
    // Only networks the scan shows are tried.
    let seen: Vec<String> = vec!["beta".into(), "cafe".into()];
    assert_eq!(fallback_order(&nets, &seen), vec![0]);
    assert!(fallback_order(&nets, &[]).is_empty());
}

#[test]
fn client_switches_only_to_a_better_visible_network() {
    let mut c = WifiConfig::default();
    c.desired_mode = "child".to_string();
    c.fallback_networks = vec![net("Parent", Some("pw"), 100), net("Home", None, 10)];
    let device = "wlan0:wifi:connected:Home";
    // On the lower-priority network while the higher one is in sight: switch.
    let both = status_from_outputs(&c, Some(device), Some("yes:Home:80:WPA2\nno:Parent:60:WPA2"), None);
    assert!(needs_client_reconnect(&c, &both));
    assert!(should_reapply(&c, &both));
    // Only the current network in sight: stay.
    let home_only = status_from_outputs(&c, Some(device), Some("yes:Home:80:WPA2\nno:Cafe:70:WPA2"), None);
    assert!(!needs_client_reconnect(&c, &home_only));
    // Nothing configured in sight: do not keep trying.
    let none_seen = status_from_outputs(&c, Some("wlan0:wifi:disconnected:--"), Some("no:Cafe:70:WPA2"), None);
    assert!(!needs_client_reconnect(&c, &none_seen));
    // On an unconfigured network with a configured one in sight: switch.
    let other = status_from_outputs(&c, Some("wlan0:wifi:connected:Cafe"), Some("yes:Cafe:70:WPA2\nno:Home:50:WPA2"), None);
    assert!(needs_client_reconnect(&c, &other));
    // On the best network: stay.
    let best = status_from_outputs(&c, Some("wlan0:wifi:connected:Parent"), Some("yes:Parent:90:WPA2\nno:Home:50:"), None);
    assert!(!needs_client_reconnect(&c, &best));
}

#[test]
fn hotspot_reapplied_until_access_point() {
    let mut c = WifiConfig::default();
    c.desired_mode = "parent".to_string();
    let ap = status_from_outputs(&c, Some("wlan0:wifi:connected:CANweeb Hotspot"), None, None);
    assert_eq!(ap.mode, "ap");
    assert!(!should_reapply(&c, &ap));
    let idle = status_from_outputs(&c, Some("wlan0:wifi:disconnected:--"), None, None);
    assert!(should_reapply(&c, &idle));
    c.desired_mode = "manual".to_string();
    assert!(!should_reapply(&c, &idle));
}

#[test]
fn splitn_chars_matches_str_splitn() {
    let line: Vec<char> = "a:b:c:d:e".chars().collect();
    for n in 0..7 {
        let got: Vec<String> = canweeb::text::splitn_chars(&line, n, ':').iter().map(|p| p.iter().collect()).collect();
        let want: Vec<String> = "a:b:c:d:e".splitn(n, ':').map(|p| p.to_string()).collect();
        assert_eq!(got, want);
    }
}

#[test]
fn fallback_run_stops_at_first_success() {
    let order = vec![2usize, 0, 1];
    assert_eq!(fallback_next(&order, 0, false), FallbackStep::Connect(2));
    assert_eq!(fallback_next(&order, 1, false), FallbackStep::Connect(0));
    assert_eq!(fallback_next(&order, 2, true), FallbackStep::Connected);
    assert_eq!(fallback_next(&order, 3, false), FallbackStep::Exhausted);
    assert_eq!(fallback_next(&[], 0, false), FallbackStep::Exhausted);
}

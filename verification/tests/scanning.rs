//! Scanning behaviour: sweeps, reconciliation, port verdicts and service
//! classification.

use portly::advanced::{build_arp_request, parse_arp_reply, register_arp_reply,
    smart_scan_outcome};
use portly::discovery::{reconcile_devices, sort_devices_by_octet, sweep_hosts, NetworkDevice,
    last_octet};
use portly::interfaces::{get_local_interfaces, subnet_for};
use portly::portscan::{get_common_ports, get_service_name, port_range, scan_outcome,
    sort_remote_ports, RemotePort};
use portly::services::{detect_service_type, infer_service_type, is_http_port};

fn dev(ip: &str, mac: Option<&str>, host: Option<&str>) -> NetworkDevice {
    NetworkDevice {
        ip: ip.to_string(),
        mac: mac.map(|s| s.to_string()),
        hostname: host.map(|s| s.to_string()),
        is_online: true,
    }
}

#[test]
fn sweep_probes_exactly_the_hosts() {
    let hosts = sweep_hosts("192.168.1");
    assert_eq!(hosts.len(), 254);
    assert_eq!(hosts[0], "192.168.1.1");
    assert_eq!(hosts[253], "192.168.1.254");
    assert!(!hosts.contains(&"192.168.1.0".to_string()));
    assert!(!hosts.contains(&"192.168.1.255".to_string()));
    for h in &hosts {
        assert!(h.starts_with("192.168.1."));
    }
}

#[test]
fn reconcile_merges_and_sorts() {
    let arp = vec![
        dev("192.168.1.20", Some("aa:aa:aa:aa:aa:20"), Some("printer")),
        dev("192.168.1.3", Some("aa:aa:aa:aa:aa:03"), None),
        dev("192.168.1.9", Some("(incomplete)"), None),
        dev("192.168.1.50", Some("aa:aa:aa:aa:aa:50"), None),
    ];
    let ping: Vec<String> = vec![
        "192.168.1.20".to_string(),
        "192.168.1.3".to_string(),
        "192.168.1.7".to_string(),
    ];
    let devices = reconcile_devices("192.168.1", &arp, &ping);
    // .50 did not answer the sweep, .9 has no resolved MAC, .7 is new
    let ips: Vec<&str> = devices.iter().map(|d| d.ip.as_str()).collect();
    assert_eq!(ips, vec!["192.168.1.3", "192.168.1.7", "192.168.1.20"]);
    assert!(devices.iter().all(|d| d.is_online));
    assert_eq!(devices[0].mac.as_deref(), Some("aa:aa:aa:aa:aa:03"));
    assert_eq!(devices[1].mac, None);
    assert_eq!(devices[2].hostname.as_deref(), Some("printer"));
}

#[test]
fn reconcile_is_stable_under_sweep_order() {
    let arp = vec![dev("10.0.0.5", Some("aa:bb:cc:dd:ee:05"), None)];
    let ping1: Vec<String> = vec!["10.0.0.5".into(), "10.0.0.2".into(), "10.0.0.8".into()];
    let ping2: Vec<String> = vec!["10.0.0.8".into(), "10.0.0.5".into(), "10.0.0.2".into()];
    let r1 = reconcile_devices("10.0.0", &arp, &ping1);
    let r2 = reconcile_devices("10.0.0", &arp, &ping2);
    let mut v1: Vec<(String, Option<String>)> =
        r1.iter().map(|d| (d.ip.clone(), d.mac.clone())).collect();
    let mut v2: Vec<(String, Option<String>)> =
        r2.iter().map(|d| (d.ip.clone(), d.mac.clone())).collect();
    v1.sort();
    v2.sort();
    assert_eq!(v1, v2);
}

#[test]
fn device_sort_by_last_octet() {
    let v = vec![dev("10.0.0.30", None, None), dev("10.0.0.4", None, None)];
    let s = sort_devices_by_octet(v);
    assert_eq!(s[0].ip, "10.0.0.4");
    assert_eq!(s[1].ip, "10.0.0.30");
    assert_eq!(last_octet("10.0.0.30"), 30);
    assert_eq!(last_octet("oddball"), 0);
}

#[test]
fn range_scan_shape() {
    let ports = port_range(1, 1024);
    assert_eq!(ports.len(), 1024);
    let open = vec![false; 1024];
    let results = scan_outcome(&ports, &open);
    assert_eq!(results.len(), 1024);
    for (i, r) in results.iter().enumerate() {
        assert_eq!(r.port as usize, i + 1);
        assert!(1 <= r.port && r.port <= 1024);
    }
    for w in results.windows(2) {
        assert!(w[0].port < w[1].port);
    }
    assert!(port_range(10, 9).is_empty());
}

#[test]
fn closed_port_has_no_service() {
    let ports = vec![22u16, 80u16];
    let open = vec![false, true];
    let results = scan_outcome(&ports, &open);
    assert!(!results[0].is_open);
    assert_eq!(results[0].service, None);
    assert!(results[1].is_open);
    assert_eq!(results[1].service.as_deref(), Some("HTTP"));
}

#[test]
fn service_table_lookups() {
    assert_eq!(get_service_name(22).as_deref(), Some("SSH"));
    assert_eq!(get_service_name(6379).as_deref(), Some("Redis"));
    assert_eq!(get_service_name(4), None);
    let table = get_common_ports();
    assert_eq!(table.len(), 66);
    assert_eq!(table[0], 21);
    assert!(table.contains(&8080));
}

#[test]
fn remote_port_sorting() {
    let v = vec![
        RemotePort { port: 443, is_open: true, service: None },
        RemotePort { port: 22, is_open: false, service: None },
    ];
    let s = sort_remote_ports(v);
    assert_eq!(s[0].port, 22);
    assert_eq!(s[1].port, 443);
}

#[test]
fn classify_html_is_web() {
    let resp = "HTTP/1.1 200 OK\r\n\
Server: nginx/1.24\r\n\
Content-Type: text/html; charset=utf-8\r\n\
\r\n\
<!doctype html><html><head></head><body>hi</body></html>";
    let info = detect_service_type(80, Some(resp));
    assert_eq!(info.service_type, "web");
    assert_eq!(info.server.as_deref(), Some("nginx/1.24"));
    assert_eq!(info.content_type.as_deref(), Some("text/html; charset=utf-8"));
    assert_eq!(info.service, "Web (80)");
}

#[test]
fn classify_json_is_api() {
    let resp = "HTTP/1.1 200 OK\r\n\
Content-Type: application/json\r\n\
\r\n\
{\"data\": []}";
    let info = detect_service_type(3000, Some(resp));
    assert_eq!(info.service_type, "api");
    assert_eq!(info.service, "API (3000)");
}

#[test]
fn classify_falls_back_to_table() {
    let info = detect_service_type(6379, None);
    assert_eq!(info.service, "Redis");
    assert_eq!(info.service_type, "database");
    assert_eq!(info.server, None);
    let unknown = detect_service_type(49152, None);
    assert_eq!(unknown.service, "Unknown");
    assert_eq!(unknown.service_type, "other");
}

#[test]
fn http_port_table() {
    assert!(is_http_port(80));
    assert!(is_http_port(8443));
    assert!(!is_http_port(22));
    assert_eq!(infer_service_type(9092), "queue");
    assert_eq!(infer_service_type(11211), "cache");
}

#[test]
fn arp_frame_bytes() {
    let mac = vec![0x02, 0x42, 0xac, 0x11, 0x00, 0x02];
    let sip = vec![192, 168, 1, 5];
    let tip = vec![192, 168, 1, 77];
    let f = build_arp_request(&mac, &sip, &tip);
    assert_eq!(f.len(), 42);
    assert_eq!(&f[0..6], &[0xff; 6]);
    assert_eq!(&f[6..12], &mac[..]);
    assert_eq!(&f[12..14], &[0x08, 0x06]);
    assert_eq!(&f[14..22], &[0x00, 0x01, 0x08, 0x00, 0x06, 0x04, 0x00, 0x01]);
    assert_eq!(&f[22..28], &mac[..]);
    assert_eq!(&f[28..32], &sip[..]);
    assert_eq!(&f[32..38], &[0x00; 6]);
    assert_eq!(&f[38..42], &tip[..]);
}

#[test]
fn arp_reply_roundtrip() {
    let mac = vec![0xaa, 0xbb, 0xcc, 0xdd, 0xee, 0xff];
    let sip = vec![10, 0, 0, 9];
    let tip = vec![10, 0, 0, 1];
    let mut f = build_arp_request(&mac, &sip, &tip);
    // flip the opcode to a reply and parse it back
    f[21] = 0x02;
    let (ip, m) = parse_arp_reply(&f).unwrap();
    assert_eq!(ip, sip);
    assert_eq!(m, mac);
    let req = build_arp_request(&mac, &sip, &tip);
    assert!(parse_arp_reply(&req).is_none());
    assert!(parse_arp_reply(&vec![0u8; 10]).is_none());
}

#[test]
fn arp_reply_registration() {
    let mut devices: Vec<NetworkDevice> = Vec::new();
    register_arp_reply(&mut devices, "10.0.0.5".into(), "aa:aa:aa:aa:aa:05".into());
    register_arp_reply(&mut devices, "10.0.0.5".into(), "bb:bb:bb:bb:bb:05".into());
    register_arp_reply(&mut devices, "10.0.0.6".into(), "aa:aa:aa:aa:aa:06".into());
    assert_eq!(devices.len(), 2);
    assert_eq!(devices[0].mac.as_deref(), Some("aa:aa:aa:aa:aa:05"));
}

#[test]
fn smart_scan_labels() {
    let r = smart_scan_outcome(Vec::new(), true, 123);
    assert!(r.has_permission);
    assert_eq!(r.scan_method, "ARP (\u{9AD8}\u{7EA7})");
    assert_eq!(r.scan_time_ms, 123);
    let r2 = smart_scan_outcome(Vec::new(), false, 4);
    assert!(!r2.has_permission);
    assert_eq!(r2.scan_method, "Ping/ARP (\u{57FA}\u{7840})");
}

#[test]
fn subnet_derivation() {
    assert_eq!(subnet_for("192.168.1.57"), "192.168.1.0/24");
    assert_eq!(subnet_for("10.0.0.1"), "10.0.0.0/24");
}

#[test]
fn subnet_prefix_extraction() {
    assert_eq!(
        portly::discovery::subnet_prefix("192.168.1.0/24").as_deref(),
        Some("192.168.1")
    );
    assert_eq!(portly::discovery::subnet_prefix("10.0.0.0").as_deref(), Some("10.0.0"));
    assert_eq!(portly::discovery::subnet_prefix("bogus"), None);
    assert_eq!(portly::discovery::subnet_prefix("1.2.3/24"), None);
}

#[test]
fn resolver_keeps_usable_addresses() {
    let addrs = vec![
        ("lo".to_string(), "127.0.0.1".to_string(), true, true),
        ("eth0".to_string(), "192.168.7.5".to_string(), true, false),
        ("eth0".to_string(), "fe80::1".to_string(), false, false),
        ("eth1".to_string(), "192.168.7.9".to_string(), true, false),
        ("wlan0".to_string(), "172.16.0.2".to_string(), true, false),
    ];
    let guess = Some(("10.9.8.7".to_string(), true));
    let ifaces = portly::interfaces::resolve_interfaces(&addrs, &guess);
    // the loopback is excluded, the second 192.168.7 address collapses
    // into the first-seen subnet, and the guess is unused
    let concrete: Vec<(&str, &str, &str)> = ifaces
        .iter()
        .filter(|i| !i.ip.is_empty())
        .map(|i| (i.name.as_str(), i.ip.as_str(), i.subnet.as_str()))
        .collect();
    assert_eq!(
        concrete,
        vec![
            ("eth0", "192.168.7.5", "192.168.7.0/24"),
            ("wlan0", "172.16.0.2", "172.16.0.0/24"),
        ]
    );
    let subnets: Vec<&str> = ifaces.iter().map(|i| i.subnet.as_str()).collect();
    assert!(subnets.contains(&"192.168.1.0/24"));
    assert!(!subnets.contains(&"127.0.0.0/24"));
    assert!(!subnets.contains(&"10.9.8.0/24"));
}

#[test]
fn resolver_uses_guess_when_nothing_enumerates() {
    let addrs: Vec<(String, String, bool, bool)> = vec![
        ("lo".to_string(), "127.0.0.1".to_string(), true, true),
    ];
    let guess = Some(("10.9.8.7".to_string(), true));
    let ifaces = portly::interfaces::resolve_interfaces(&addrs, &guess);
    assert_eq!(ifaces[0].name, "default");
    assert_eq!(ifaces[0].ip, "10.9.8.7");
    assert_eq!(ifaces[0].subnet, "10.9.8.0/24");
    // without any guess, only the three static ranges remain
    let bare = portly::interfaces::resolve_interfaces(&addrs, &None);
    assert_eq!(bare.len(), 3);
    assert!(bare.iter().all(|i| i.ip.is_empty()));
}

#[test]
fn subnet_from_lookup_outcome() {
    assert_eq!(
        portly::interfaces::subnet_from_local(&Some(("192.168.4.20".to_string(), true)))
            .as_deref(),
        Some("192.168.4.0/24")
    );
    assert_eq!(
        portly::interfaces::subnet_from_local(&Some(("fe80::1".to_string(), false))),
        None
    );
    assert_eq!(portly::interfaces::subnet_from_local(&None), None);
}

#[test]
fn interface_fallbacks_present() {
    let ifaces = get_local_interfaces();
    let subnets: Vec<&str> = ifaces.iter().map(|i| i.subnet.as_str()).collect();
    assert!(subnets.contains(&"192.168.1.0/24"));
    assert!(subnets.contains(&"192.168.0.0/24"));
    assert!(subnets.contains(&"10.0.0.0/24"));
    // subnets are unique, and concrete entries come before guesses
    for (a, i1) in subnets.iter().enumerate() {
        for s2 in subnets.iter().skip(a + 1) {
            assert_ne!(i1, s2);
        }
    }
    let first_guess = ifaces.iter().position(|i| i.ip.is_empty());
    if let Some(g) = first_guess {
        assert!(ifaces[g..].iter().all(|i| i.ip.is_empty()));
    }
}

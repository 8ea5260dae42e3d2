//! Inventory filtering, grouping, exporting and process rules.

use portly::export::{export_filename_at, export_to_csv, generate_export_filename,
    get_history_summary, trim_history, ExportFormat, ScanHistoryEntry, Timestamp};
use portly::ports::{apply_filter_groups, apply_filter_ports, filter_ports, scan_ports_grouped,
    AppGroup, PortInfo};
use portly::process::{all_killed, is_protected_process, join_messages, kill_allowed,
    make_process_info, KillResult};
use portly::docker::{get_docker_port_info, get_port_to_container_map, parse_docker_container_line};

fn pi(port: u16, process: &str, pid: &str) -> PortInfo {
    PortInfo {
        port,
        protocol: "IPv4".to_string(),
        address: "*".to_string(),
        pid: pid.to_string(),
        process: process.to_string(),
        user: "alice".to_string(),
        command: None,
    }
}

#[test]
fn filter_by_port_and_app() {
    let ports = vec![pi(3000, "node", "1"), pi(5432, "postgres", "2"), pi(8080, "node", "1")];
    let sys: Vec<String> = vec![];
    let only_port = filter_ports(ports.clone(), Some(5432), None, false, &sys);
    assert_eq!(only_port.len(), 1);
    assert_eq!(only_port[0].process, "postgres");
    let by_app = filter_ports(ports.clone(), None, Some("NODE".to_string()), false, &sys);
    assert_eq!(by_app.len(), 2);
    let both = filter_ports(ports, Some(3000), Some("node".to_string()), false, &sys);
    assert_eq!(both.len(), 1);
}

#[test]
fn filter_excludes_system_processes() {
    let ports = vec![pi(22, "sshd", "7"), pi(3000, "node", "1")];
    let sys: Vec<String> = vec!["sshd".to_string(), "systemd".to_string()];
    let kept = apply_filter_ports(ports, None, None, true, &sys);
    assert_eq!(kept.len(), 1);
    assert_eq!(kept[0].process, "node");
}

#[test]
fn grouping_by_process() {
    let ports = vec![
        pi(8080, "node", "42"),
        pi(3000, "node", "42"),
        pi(3000, "node", "42"),
        pi(5432, "postgres", "9"),
    ];
    let groups = scan_ports_grouped(&ports);
    assert_eq!(groups.len(), 2);
    // ordered by first (lowest) port; ports sorted and deduplicated
    assert_eq!(groups[0].process, "node");
    assert_eq!(groups[0].pid, "42");
    assert_eq!(groups[0].ports, vec![3000, 8080]);
    assert_eq!(groups[1].process, "postgres");
    assert_eq!(groups[1].ports, vec![5432]);
    assert!(groups.iter().all(|g| g.command.is_none()));
}

#[test]
fn group_filtering() {
    let groups = vec![
        AppGroup {
            process: "systemd".to_string(),
            pid: "1".to_string(),
            ports: vec![111],
            command: None,
        },
        AppGroup {
            process: "node".to_string(),
            pid: "42".to_string(),
            ports: vec![3000],
            command: None,
        },
    ];
    let sys: Vec<String> = vec!["systemd".to_string()];
    let kept = apply_filter_groups(groups, None, true, &sys);
    assert_eq!(kept.len(), 1);
    assert_eq!(kept[0].process, "node");
}

#[test]
fn csv_document() {
    let mut p = pi(8080, "node", "42");
    p.command = Some("node server.js --flag \"x\", twice".to_string());
    let doc = export_to_csv(&vec![p]);
    let expected = "Port,Protocol,Address,PID,Process,User,Command\n\
8080,IPv4,*,42,node,alice,\"node server.js --flag \"\"x\"\", twice\"\n";
    assert_eq!(doc, expected);
}

#[test]
fn export_filename_format() {
    let t = Timestamp { year: 2026, month: 3, day: 7, hour: 9, minute: 5, second: 30 };
    assert_eq!(export_filename_at(t, ExportFormat::Csv), "portly_export_20260307_090530.csv");
    assert_eq!(export_filename_at(t, ExportFormat::Json), "portly_export_20260307_090530.json");
    assert_eq!(export_filename_at(t, ExportFormat::Txt), "portly_export_20260307_090530.txt");
}

#[test]
fn export_filename_monotonic() {
    let t1 = Timestamp { year: 2026, month: 3, day: 7, hour: 9, minute: 5, second: 30 };
    let t2 = Timestamp { year: 2026, month: 3, day: 7, hour: 9, minute: 5, second: 31 };
    let t3 = Timestamp { year: 2026, month: 3, day: 8, hour: 0, minute: 0, second: 0 };
    let f1 = export_filename_at(t1, ExportFormat::Csv);
    let f2 = export_filename_at(t2, ExportFormat::Csv);
    let f3 = export_filename_at(t3, ExportFormat::Csv);
    assert!(f1 < f2);
    assert!(f2 < f3);
    let auto = generate_export_filename(ExportFormat::Json);
    assert!(auto.starts_with("portly_export_"));
    assert!(auto.ends_with(".json"));
}

#[test]
fn history_summary_and_trim() {
    let entry = |n: usize| ScanHistoryEntry {
        timestamp: format!("t{}", n),
        port_count: n,
        scan_duration_ms: n as u64,
        ports: Vec::new(),
    };
    let history: Vec<ScanHistoryEntry> = (0..105).map(entry).collect();
    let trimmed = trim_history(history);
    assert_eq!(trimmed.len(), 100);
    assert_eq!(trimmed[0].port_count, 5);
    assert_eq!(trimmed[99].port_count, 104);
    let summary = get_history_summary(&trimmed);
    assert_eq!(summary.len(), 100);
    assert_eq!(summary[0].timestamp, "t5");
    assert_eq!(summary[0].port_count, 5);
    assert_eq!(summary[0].scan_duration_ms, 5);
}

#[test]
fn protected_process_rule() {
    assert!(is_protected_process("launchd"));
    assert!(is_protected_process("WindowServer"));
    assert!(is_protected_process("svchost.exe"));
    assert!(is_protected_process("some-systemd-helper"));
    assert!(!is_protected_process("node"));
    let info = make_process_info(1, "systemd".to_string());
    assert!(info.is_system);
    assert!(!kill_allowed(&Some(info.clone()), false));
    assert!(kill_allowed(&Some(info), true));
    assert!(kill_allowed(&None, false));
}

#[test]
fn kill_batch_summary() {
    let results = vec![
        KillResult { success: true, pid: 1, message: "one down".to_string() },
        KillResult { success: false, pid: 2, message: "two refused".to_string() },
    ];
    assert!(!all_killed(&results));
    let msgs: Vec<String> = results.iter().map(|r| r.message.clone()).collect();
    assert_eq!(join_messages(&msgs), "one down; two refused");
    assert_eq!(join_messages(&Vec::new()), "");
}

#[test]
fn docker_port_map() {
    let c1 = parse_docker_container_line("a1\tdb\tpostgres:16\tUp\t0.0.0.0:5432->5432/tcp")
        .unwrap();
    let c2 = parse_docker_container_line("b2\tweb\tnginx\tUp\t0.0.0.0:8080->80/tcp").unwrap();
    let containers = vec![c1, c2];
    let map = get_port_to_container_map(&containers);
    assert_eq!(map.get(&5432), Some(&"\u{1F433} db".to_string()));
    assert_eq!(map.get(&8080), Some(&"\u{1F433} web".to_string()));
    assert_eq!(map.get(&9999), None);
    let info = get_docker_port_info(&containers, 8080).unwrap();
    assert_eq!(info.0, "web");
    assert_eq!(info.1, "nginx");
    assert!(get_docker_port_info(&containers, 1).is_none());
}

#[test]
fn scan_summary_counts() {
    let ports = vec![
        pi(3000, "node", "42"),
        pi(8080, "node", "42"),
        pi(5432, "postgres", "9"),
        pi(6379, "node", "77"),
    ];
    let scan = portly::ports::summarize_scan(ports, "2026-03-07 09:05:30".to_string());
    assert_eq!(scan.scan_time, "2026-03-07 09:05:30");
    assert_eq!(scan.total_ports, 4);
    // node:42, postgres:9 and node:77 are three distinct owners
    assert_eq!(scan.unique_apps, 3);
    assert_eq!(scan.ports.len(), 4);
}

#[test]
fn scan_records_carry_fields() {
    let net = portly::discovery::NetworkScanResult {
        subnet: "192.168.1.0/24".to_string(),
        devices: Vec::new(),
        scan_time: "t".to_string(),
    };
    assert_eq!(net.subnet, "192.168.1.0/24");
    let ps = portly::portscan::PortScanResult {
        ip: "10.0.0.1".to_string(),
        ports: Vec::new(),
        scan_time: "t".to_string(),
    };
    assert_eq!(ps.ip, "10.0.0.1");
    let rr = portly::interfaces::ResolveResult {
        original: "example.test".to_string(),
        ip: "93.184.216.34".to_string(),
        is_domain: true,
        hostname: Some("example.test".to_string()),
    };
    assert!(rr.is_domain);
}

#[test]
fn text_helpers() {
    assert_eq!(portly::text::parse_u32("123"), Some(123));
    assert_eq!(portly::text::parse_u32(""), None);
    assert_eq!(portly::text::parse_u32("12a"), None);
    assert_eq!(portly::text::parse_u32("4294967295"), Some(u32::MAX));
    assert_eq!(portly::text::parse_u32("4294967296"), None);
    assert_eq!(portly::text::parse_u16("65535"), Some(65535));
    assert_eq!(portly::text::parse_u16("65536"), None);
    assert_eq!(portly::text::parse_milli("1.234"), Some(1234));
    assert_eq!(portly::text::parse_milli("1.2345"), Some(1234));
    assert_eq!(portly::text::parse_milli("7"), Some(7000));
    assert_eq!(portly::text::parse_milli(".5"), Some(500));
    assert_eq!(portly::text::parse_milli("."), None);
    assert_eq!(portly::text::parse_milli("1.2.3"), None);
    assert_eq!(portly::text::trim("  x y \t"), "x y");
    let toks = portly::text::split_ws("  a  bb\tccc ");
    assert_eq!(toks, vec!["a", "bb", "ccc"]);
    let fields = portly::text::split_char("a,,b", ',');
    assert_eq!(fields, vec!["a", "", "b"]);
    assert!(portly::text::contains_sub("hello world", "lo wo"));
    assert!(!portly::text::contains_sub("hello", "xyz"));
    assert_eq!(portly::text::to_lower("MiXeD-9"), "mixed-9");
    assert_eq!(portly::text::u32_to_string(0), "0");
    assert_eq!(portly::text::u32_to_string(10250), "10250");
}

//! Parser behaviour on captured tool output.

use portly::diag::{extract_latency_stats, extract_packet_loss, parse_traceroute_line,
    ping_one_outcome, ping_test_outcome};
use portly::discovery::{parse_arp_line, parse_arp_line_windows, parse_hostname_lookup};
use portly::docker::{parse_docker_container_line, parse_docker_ports, parse_single_port_mapping};
use portly::ports::{parse_lsof_output, parse_netstat_windows, parse_ss_output,
    parse_ss_process_info};
use portly::process::{parse_netstat_pids, parse_pid_lines};

#[test]
fn arp_line_unix() {
    let d = parse_arp_line("router.lan (192.168.1.1) at aa:bb:cc:dd:ee:ff on en0 ifscope [ethernet]")
        .unwrap();
    assert_eq!(d.ip, "192.168.1.1");
    assert_eq!(d.mac.as_deref(), Some("aa:bb:cc:dd:ee:ff"));
    assert_eq!(d.hostname.as_deref(), Some("router.lan"));
    assert!(d.is_online);
}

#[test]
fn arp_line_unknown_host() {
    let d = parse_arp_line("? (10.0.0.7) at 11:22:33:44:55:66 on eth0").unwrap();
    assert_eq!(d.ip, "10.0.0.7");
    assert_eq!(d.hostname, None);
}

#[test]
fn arp_line_no_address() {
    assert!(parse_arp_line("no address here").is_none());
}

#[test]
fn arp_line_windows() {
    let d = parse_arp_line_windows("  192.168.1.10    aa-bb-cc-dd-ee-ff     dynamic").unwrap();
    assert_eq!(d.ip, "192.168.1.10");
    assert_eq!(d.mac.as_deref(), Some("aa:bb:cc:dd:ee:ff"));
    assert!(parse_arp_line_windows("Interface: 192.168.1.5 --- 0x4").is_none());
}

#[test]
fn hostname_lookup() {
    let out = "7.1.168.192.in-addr.arpa domain name pointer printer.lan.\n";
    assert_eq!(parse_hostname_lookup(out).as_deref(), Some("printer.lan"));
    let out2 = "Server: 192.168.1.1\nName: host.example\nname = box.local.\n";
    assert_eq!(parse_hostname_lookup(out2).as_deref(), Some("box.local"));
    assert_eq!(parse_hostname_lookup("Host not found"), None);
}

#[test]
fn lsof_listener_lines() {
    let out = "COMMAND   PID USER   FD   TYPE DEVICE SIZE/OFF NODE NAME\n\
node      312 alice   23u  IPv4 0x12     0t0  TCP *:3000 (LISTEN)\n\
postgres  200 bob     5u   IPv6 0x34     0t0  TCP 127.0.0.1:5432 (LISTEN)\n\
node      312 alice   23u  IPv4 0x12     0t0  TCP *:3000 (LISTEN)\n\
chrome    999 alice   40u  IPv4 0x56     0t0  TCP 10.0.0.5:54321->1.2.3.4:443 (ESTABLISHED)\n";
    let ports = parse_lsof_output(out);
    assert_eq!(ports.len(), 2);
    assert_eq!(ports[0].port, 3000);
    assert_eq!(ports[0].process, "node");
    assert_eq!(ports[0].pid, "312");
    assert_eq!(ports[0].user, "alice");
    assert_eq!(ports[0].address, "*");
    assert_eq!(ports[0].protocol, "IPv4");
    assert_eq!(ports[1].port, 5432);
    assert_eq!(ports[1].address, "127.0.0.1");
    assert_eq!(ports[1].protocol, "IPv6");
}

#[test]
fn ss_listener_lines() {
    let out = "State   Recv-Q  Send-Q  Local Address:Port  Peer Address:Port\n\
LISTEN  0       128     0.0.0.0:22          0.0.0.0:*      users:((\"sshd\",pid=800,fd=3))\n\
LISTEN  0       511     127.0.0.1:6379      0.0.0.0:*      users:((\"redis-server\",pid=950,fd=6))\n";
    let ports = parse_ss_output(out);
    assert_eq!(ports.len(), 2);
    assert_eq!(ports[0].port, 22);
    assert_eq!(ports[0].address, "*");
    assert_eq!(ports[0].process, "sshd");
    assert_eq!(ports[0].pid, "800");
    assert_eq!(ports[1].port, 6379);
    assert_eq!(ports[1].address, "127.0.0.1");
    assert_eq!(ports[1].process, "redis-server");
}

#[test]
fn ss_process_info() {
    let (p, pid) = parse_ss_process_info("users:((\"nginx\",pid=1234,fd=6))");
    assert_eq!(p, "nginx");
    assert_eq!(pid, "1234");
    let (p2, pid2) = parse_ss_process_info("-");
    assert_eq!(p2, "-");
    assert_eq!(pid2, "-");
}

#[test]
fn netstat_listener_lines() {
    let out = "  Proto  Local Address          Foreign Address        State           PID\n\
  TCP    0.0.0.0:135            0.0.0.0:0              LISTENING       4\n\
  TCP    [::]:445               [::]:0                 LISTENING       4\n\
  TCP    10.0.0.2:50000         1.2.3.4:443            ESTABLISHED     777\n";
    let ports = parse_netstat_windows(out);
    assert_eq!(ports.len(), 2);
    assert_eq!(ports[0].port, 135);
    assert_eq!(ports[0].address, "*");
    assert_eq!(ports[0].protocol, "IPv4");
    assert_eq!(ports[1].port, 445);
    // the proto column still reads TCP on such rows, so IPv4 is reported
    assert_eq!(ports[1].protocol, "IPv4");
}

#[test]
fn docker_single_mapping() {
    let p = parse_single_port_mapping("0.0.0.0:5432->5432/tcp").unwrap();
    assert_eq!(p.host_port, 5432);
    assert_eq!(p.container_port, 5432);
    assert_eq!(p.protocol, "tcp");
    assert_eq!(p.host_ip, "0.0.0.0");
    assert!(parse_single_port_mapping("[::]:5432->5432/tcp").is_none());
    assert!(parse_single_port_mapping("5432/tcp").is_none());
    let r = parse_single_port_mapping("127.0.0.1:8000-8005->8000-8005/udp").unwrap();
    assert_eq!(r.host_port, 8000);
    assert_eq!(r.container_port, 8000);
    assert_eq!(r.protocol, "udp");
    assert_eq!(r.host_ip, "127.0.0.1");
}

#[test]
fn docker_ports_dedupe() {
    let ps = parse_docker_ports("0.0.0.0:5432->5432/tcp, [::]:5432->5432/tcp");
    assert_eq!(ps.len(), 1);
    assert_eq!(ps[0].host_port, 5432);
}

#[test]
fn docker_container_line() {
    let c = parse_docker_container_line(
        "abc123\tdb\tpostgres:16\tUp 2 hours\t0.0.0.0:5432->5432/tcp",
    )
    .unwrap();
    assert_eq!(c.id, "abc123");
    assert_eq!(c.name, "db");
    assert_eq!(c.image, "postgres:16");
    assert_eq!(c.status, "Up 2 hours");
    assert_eq!(c.ports.len(), 1);
    assert!(parse_docker_container_line("   ").is_none());
}

#[test]
fn packet_loss_extraction() {
    assert_eq!(
        extract_packet_loss("4 packets transmitted, 4 received, 0% packet loss, time 3004ms"),
        Some(0)
    );
    assert_eq!(
        extract_packet_loss("4 packets transmitted, 3 received, 25% packet loss"),
        Some(25_000)
    );
    assert_eq!(extract_packet_loss("    Packets: Sent = 4, Received = 4, Lost = 0 (0% loss),"), Some(0));
    assert_eq!(extract_packet_loss("no loss marker here"), None);
}

#[test]
fn latency_extraction() {
    let t = extract_latency_stats("round-trip min/avg/max/stddev = 1.234/2.345/3.456/0.5 ms")
        .unwrap();
    assert_eq!(t, (1234, 2345, 3456));
    assert!(extract_latency_stats("nothing here").is_none());
}

#[test]
fn ping_aggregate_reachable() {
    let raw = "PING 8.8.8.8 (8.8.8.8): 56 data bytes\n\
64 bytes from 8.8.8.8: icmp_seq=0 ttl=117 time=12.3 ms\n\
--- 8.8.8.8 ping statistics ---\n\
4 packets transmitted, 4 packets received, 0.0% packet loss\n\
round-trip min/avg/max/stddev = 11.1/12.2/13.3/0.5 ms\n";
    let r = ping_test_outcome("8.8.8.8", 4, Some(raw), true);
    assert_eq!(r.packets_sent, 4);
    assert!(r.is_reachable);
    assert_eq!(r.packet_loss.thousandths, 0);
    assert_eq!(r.packets_received, 4);
    let (min, avg, max) = (
        r.min_ms.unwrap().thousandths,
        r.avg_ms.unwrap().thousandths,
        r.max_ms.unwrap().thousandths,
    );
    assert!(r.packet_loss.thousandths <= 100_000);
    assert!(min <= avg && avg <= max);
    assert_eq!((min, avg, max), (11_100, 12_200, 13_300));
}

#[test]
fn ping_aggregate_spawn_failure() {
    let r = ping_test_outcome("10.0.0.9", 3, None, false);
    assert!(!r.is_reachable);
    assert_eq!(r.packets_sent, 3);
    assert_eq!(r.packets_received, 0);
    assert_eq!(r.packet_loss.thousandths, 100_000);
    assert!(r.min_ms.is_none());
}

#[test]
fn ping_one_reply() {
    let raw = "PING 192.168.1.1 (192.168.1.1): 56 data bytes\n\
64 bytes from 192.168.1.1: icmp_seq=0 ttl=64 time=3.456 ms\n";
    let r = ping_one_outcome("192.168.1.1", 0, Some(raw));
    assert!(r.success);
    assert_eq!(r.time_ms.unwrap().thousandths, 3456);
    assert_eq!(r.ttl, Some(64));
    assert!(r.line.contains("bytes from"));
}

#[test]
fn ping_one_timeout() {
    let raw = "PING 10.0.0.9 (10.0.0.9): 56 data bytes\n";
    let r = ping_one_outcome("10.0.0.9", 1, Some(raw));
    assert!(!r.success);
    assert_eq!(r.line, "Request timeout");
    assert!(r.time_ms.is_none());
    assert!(r.ttl.is_none());
}

#[test]
fn traceroute_timeout_hop() {
    let h = parse_traceroute_line("3  * * *").unwrap();
    assert_eq!(h.hop, 3);
    assert_eq!(h.ip, None);
    assert_eq!(h.time_ms, None);
    assert_eq!(h.hostname, None);
}

#[test]
fn traceroute_answered_hop() {
    let h = parse_traceroute_line(" 2  10.0.0.1  4.321 ms").unwrap();
    assert_eq!(h.hop, 2);
    assert_eq!(h.ip.as_deref(), Some("10.0.0.1"));
    assert_eq!(h.time_ms.unwrap().thousandths, 4321);
    assert!(parse_traceroute_line("traceroute to 8.8.8.8").is_none());
    assert!(parse_traceroute_line("").is_none());
}

#[test]
fn pid_line_parsing() {
    assert_eq!(parse_pid_lines("123\n456\n\nnot-a-pid\n789\n"), vec![123, 456, 789]);
}

#[test]
fn netstat_pid_parsing() {
    let out = "  TCP    0.0.0.0:8080     0.0.0.0:0     LISTENING   4242\n\
  TCP    0.0.0.0:9090     0.0.0.0:0     LISTENING   17\n\
  TCP    0.0.0.0:8080     1.2.3.4:5     ESTABLISHED 99\n";
    assert_eq!(parse_netstat_pids(out, ":8080"), vec![4242]);
}

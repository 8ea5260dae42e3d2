//! Remote port scanning: the well-known service table, port ranges, and
//! the assembly of scan verdicts from connection outcomes. The TCP
//! connecting itself happens outside the library; it hands in one boolean
//! per probed port.

use vstd::prelude::*;
use crate::discovery::opt_view;
use crate::sorting::{SortKey, sort_by_key};

verus! {

/// One port's verdict on a remote host.
#[derive(Debug, Clone)]
pub struct RemotePort {
    pub port: u16,
    pub is_open: bool,
    pub service: Option<String>,
}

/// The well-known service label for a port, if the table has one.
pub open spec fn service_name_spec(port: u16) -> Option<Seq<char>> {
    if port == 21 { Some("FTP"@) }
    else if port == 22 { Some("SSH"@) }
    else if port == 23 { Some("Telnet"@) }
    else if port == 25 { Some("SMTP"@) }
    else if port == 53 { Some("DNS"@) }
    else if port == 80 { Some("HTTP"@) }
    else if port == 110 { Some("POP3"@) }
    else if port == 139 { Some("NetBIOS"@) }
    else if port == 143 { Some("IMAP"@) }
    else if port == 443 { Some("HTTPS"@) }
    else if port == 445 { Some("SMB"@) }
    else if port == 465 { Some("SMTPS"@) }
    else if port == 587 { Some("SMTP-Submit"@) }
    else if port == 993 { Some("IMAPS"@) }
    else if port == 995 { Some("POP3S"@) }
    else if port == 1433 { Some("MSSQL"@) }
    else if port == 1521 { Some("Oracle"@) }
    else if port == 3306 { Some("MySQL"@) }
    else if port == 5432 { Some("PostgreSQL"@) }
    else if port == 5984 { Some("CouchDB"@) }
    else if port == 6379 { Some("Redis"@) }
    else if port == 9042 { Some("Cassandra"@) }
    else if port == 9200 { Some("Elasticsearch"@) }
    else if port == 27017 { Some("MongoDB"@) }
    else if port == 28015 { Some("RethinkDB"@) }
    else if port == 1883 { Some("MQTT"@) }
    else if port == 4369 { Some("Erlang-EPMD"@) }
    else if port == 5672 { Some("RabbitMQ"@) }
    else if port == 6650 { Some("Pulsar"@) }
    else if port == 9092 { Some("Kafka"@) }
    else if port == 61616 { Some("ActiveMQ"@) }
    else if port == 11211 { Some("Memcached"@) }
    else if port == 3389 { Some("RDP"@) }
    else if port == 5900 { Some("VNC"@) }
    else if port == 5901 { Some("VNC-1"@) }
    else if port == 3000 { Some("Node/Dev"@) }
    else if port == 4200 { Some("Angular"@) }
    else if port == 5000 { Some("Flask/ASP"@) }
    else if port == 5173 { Some("Vite"@) }
    else if port == 8000 { Some("Django/Py"@) }
    else if port == 8080 { Some("HTTP-Alt"@) }
    else if port == 8443 { Some("HTTPS-Alt"@) }
    else if port == 8888 { Some("Jupyter"@) }
    else if port == 9000 { Some("PHP-FPM"@) }
    else if port == 9090 { Some("Prometheus"@) }
    else if port == 2375 { Some("Docker"@) }
    else if port == 2376 { Some("Docker-TLS"@) }
    else if port == 2379 { Some("etcd"@) }
    else if port == 6443 { Some("K8s-API"@) }
    else if port == 10250 { Some("Kubelet"@) }
    else if port == 1420 { Some("Tauri-Dev"@) }
    else if port == 3001 { Some("Dev-Server"@) }
    else if port == 4000 { Some("GraphQL"@) }
    else if port == 5555 { Some("Android-ADB"@) }
    else if port == 8081 { Some("React-Native"@) }
    else if port == 9229 { Some("Node-Debug"@) }
    else if port == 19000 { Some("Expo"@) }
    else if port == 111 { Some("RPC"@) }
    else if port == 161 { Some("SNMP"@) }
    else if port == 389 { Some("LDAP"@) }
    else if port == 636 { Some("LDAPS"@) }
    else if port == 873 { Some("rsync"@) }
    else if port == 1194 { Some("OpenVPN"@) }
    else if port == 1723 { Some("PPTP"@) }
    else if port == 5353 { Some("mDNS"@) }
    else if port == 8883 { Some("MQTT-TLS"@) }
    else { None }
}

/// Looks up the well-known service label for a port.
pub fn get_service_name(port: u16) -> (r: Option<String>)
    ensures
        opt_view(r) == service_name_spec(port),
{
    if port == 21 { Some(String::from_str("FTP")) }
    else if port == 22 { Some(String::from_str("SSH")) }
    else if port == 23 { Some(String::from_str("Telnet")) }
    else if port == 25 { Some(String::from_str("SMTP")) }
    else if port == 53 { Some(String::from_str("DNS")) }
    else if port == 80 { Some(String::from_str("HTTP")) }
    else if port == 110 { Some(String::from_str("POP3")) }
    else if port == 139 { Some(String::from_str("NetBIOS")) }
    else if port == 143 { Some(String::from_str("IMAP")) }
    else if port == 443 { Some(String::from_str("HTTPS")) }
    else if port == 445 { Some(String::from_str("SMB")) }
    else if port == 465 { Some(String::from_str("SMTPS")) }
    else if port == 587 { Some(String::from_str("SMTP-Submit")) }
    else if port == 993 { Some(String::from_str("IMAPS")) }
    else if port == 995 { Some(String::from_str("POP3S")) }
    else if port == 1433 { Some(String::from_str("MSSQL")) }
    else if port == 1521 { Some(String::from_str("Oracle")) }
    else if port == 3306 { Some(String::from_str("MySQL")) }
    else if port == 5432 { Some(String::from_str("PostgreSQL")) }
    else if port == 5984 { Some(String::from_str("CouchDB")) }
    else if port == 6379 { Some(String::from_str("Redis")) }
    else if port == 9042 { Some(String::from_str("Cassandra")) }
    else if port == 9200 { Some(String::from_str("Elasticsearch")) }
    else if port == 27017 { Some(String::from_str("MongoDB")) }
    else if port == 28015 { Some(String::from_str("RethinkDB")) }
    else if port == 1883 { Some(String::from_str("MQTT")) }
    else if port == 4369 { Some(String::from_str("Erlang-EPMD")) }
    else if port == 5672 { Some(String::from_str("RabbitMQ")) }
    else if port == 6650 { Some(String::from_str("Pulsar")) }
    else if port == 9092 { Some(String::from_str("Kafka")) }
    else if port == 61616 { Some(String::from_str("ActiveMQ")) }
    else if port == 11211 { Some(String::from_str("Memcached")) }
    else if port == 3389 { Some(String::from_str("RDP")) }
    else if port == 5900 { Some(String::from_str("VNC")) }
    else if port == 5901 { Some(String::from_str("VNC-1")) }
    else if port == 3000 { Some(String::from_str("Node/Dev")) }
    else if port == 4200 { Some(String::from_str("Angular")) }
    else if port == 5000 { Some(String::from_str("Flask/ASP")) }
    else if port == 5173 { Some(String::from_str("Vite")) }
    else if port == 8000 { Some(String::from_str("Django/Py")) }
    else if port == 8080 { Some(String::from_str("HTTP-Alt")) }
    else if port == 8443 { Some(String::from_str("HTTPS-Alt")) }
    else if port == 8888 { Some(String::from_str("Jupyter")) }
    else if port == 9000 { Some(String::from_str("PHP-FPM")) }
    else if port == 9090 { Some(String::from_str("Prometheus")) }
    else if port == 2375 { Some(String::from_str("Docker")) }
    else if port == 2376 { Some(String::from_str("Docker-TLS")) }
    else if port == 2379 { Some(String::from_str("etcd")) }
    else if port == 6443 { Some(String::from_str("K8s-API")) }
    else if port == 10250 { Some(String::from_str("Kubelet")) }
    else if port == 1420 { Some(String::from_str("Tauri-Dev")) }
    else if port == 3001 { Some(String::from_str("Dev-Server")) }
    else if port == 4000 { Some(String::from_str("GraphQL")) }
    else if port == 5555 { Some(String::from_str("Android-ADB")) }
    else if port == 8081 { Some(String::from_str("React-Native")) }
    else if port == 9229 { Some(String::from_str("Node-Debug")) }
    else if port == 19000 { Some(String::from_str("Expo")) }
    else if port == 111 { Some(String::from_str("RPC")) }
    else if port == 161 { Some(String::from_str("SNMP")) }
    else if port == 389 { Some(String::from_str("LDAP")) }
    else if port == 636 { Some(String::from_str("LDAPS")) }
    else if port == 873 { Some(String::from_str("rsync")) }
    else if port == 1194 { Some(String::from_str("OpenVPN")) }
    else if port == 1723 { Some(String::from_str("PPTP")) }
    else if port == 5353 { Some(String::from_str("mDNS")) }
    else if port == 8883 { Some(String::from_str("MQTT-TLS")) }
    else { None }
}

/// The ports of the well-known table, in table order.
pub open spec fn common_ports_spec() -> Seq<u16> {
    seq![21u16, 22u16, 23u16, 25u16, 53u16, 80u16, 110u16, 139u16, 143u16, 443u16, 445u16, 465u16, 587u16, 993u16, 995u16, 1433u16, 1521u16, 3306u16, 5432u16, 5984u16, 6379u16, 9042u16, 9200u16, 27017u16, 28015u16, 1883u16, 4369u16, 5672u16, 6650u16, 9092u16, 61616u16, 11211u16, 3389u16, 5900u16, 5901u16, 3000u16, 4200u16, 5000u16, 5173u16, 8000u16, 8080u16, 8443u16, 8888u16, 9000u16, 9090u16, 2375u16, 2376u16, 2379u16, 6443u16, 10250u16, 1420u16, 3001u16, 4000u16, 5555u16, 8081u16, 9229u16, 19000u16, 111u16, 161u16, 389u16, 636u16, 873u16, 1194u16, 1723u16, 5353u16, 8883u16]
}

/// The well-known ports, in table order.
pub fn get_common_ports() -> (r: Vec<u16>)
    ensures
        r@ == common_ports_spec(),
{
    let mut v: Vec<u16> = Vec::new();
    v.push(21);
    v.push(22);
    v.push(23);
    v.push(25);
    v.push(53);
    v.push(80);
    v.push(110);
    v.push(139);
    v.push(143);
    v.push(443);
    v.push(445);
    v.push(465);
    v.push(587);
    v.push(993);
    v.push(995);
    v.push(1433);
    v.push(1521);
    v.push(3306);
    v.push(5432);
    v.push(5984);
    v.push(6379);
    v.push(9042);
    v.push(9200);
    v.push(27017);
    v.push(28015);
    v.push(1883);
    v.push(4369);
    v.push(5672);
    v.push(6650);
    v.push(9092);
    v.push(61616);
    v.push(11211);
    v.push(3389);
    v.push(5900);
    v.push(5901);
    v.push(3000);
    v.push(4200);
    v.push(5000);
    v.push(5173);
    v.push(8000);
    v.push(8080);
    v.push(8443);
    v.push(8888);
    v.push(9000);
    v.push(9090);
    v.push(2375);
    v.push(2376);
    v.push(2379);
    v.push(6443);
    v.push(10250);
    v.push(1420);
    v.push(3001);
    v.push(4000);
    v.push(5555);
    v.push(8081);
    v.push(9229);
    v.push(19000);
    v.push(111);
    v.push(161);
    v.push(389);
    v.push(636);
    v.push(873);
    v.push(1194);
    v.push(1723);
    v.push(5353);
    v.push(8883);
    proof {
        assert(v@ =~= common_ports_spec());
    }
    v
}

impl SortKey for RemotePort {
    open spec fn skey(&self) -> int {
        self.port as int
    }

    fn key(&self) -> (k: u64) {
        self.port as u64
    }
}

/// The ports from `start` through `end`, ascending; empty when
/// `start > end`.
pub fn port_range(start: u16, end: u16) -> (r: Vec<u16>)
    ensures
        start > end ==> r.len() == 0,
        start <= end ==> r.len() == end - start + 1,
        forall|i: int| 0 <= i < r.len() ==> r@[i] == start + i,
{
    let mut v: Vec<u16> = Vec::new();
    if start > end {
        return v;
    }
    let mut p: u32 = start as u32;
    while p <= end as u32
        invariant
            start <= end,
            start as u32 <= p <= end as u32 + 1,
            v.len() == p - start,
            forall|i: int| 0 <= i < v.len() ==> v@[i] == start + i,
        decreases end as u32 + 1 - p,
    {
        v.push(p as u16);
        p = p + 1;
    }
    v
}

/// Assembles scan verdicts: one entry per probed port, in probe order,
/// open exactly when its connection attempt succeeded, labelled from the
/// service table only when open. A port with no listener is reported
/// closed with no service.
pub fn scan_outcome(ports: &Vec<u16>, open: &Vec<bool>) -> (r: Vec<RemotePort>)
    requires
        open.len() == ports.len(),
    ensures
        r.len() == ports.len(),
        forall|i: int|
            0 <= i < r.len() ==> (#[trigger] r@[i]).port == ports@[i] && r@[i].is_open
                == open@[i] && opt_view(r@[i].service) == (if open@[i] {
                service_name_spec(ports@[i])
            } else {
                None
            }),
{
    let n = ports.len();
    let mut r: Vec<RemotePort> = Vec::new();
    let mut i: usize = 0;
    while i < n
        invariant
            0 <= i <= n == ports.len() == open.len(),
            r.len() == i,
            forall|k: int|
                0 <= k < i ==> (#[trigger] r@[k]).port == ports@[k] && r@[k].is_open == open@[k]
                    && opt_view(r@[k].service) == (if open@[k] {
                    service_name_spec(ports@[k])
                } else {
                    None
                }),
        decreases n - i,
    {
        let port = ports[i];
        let is_open = open[i];
        let service = if is_open {
            get_service_name(port)
        } else {
            None
        };
        r.push(RemotePort { port, is_open, service });
        i = i + 1;
    }
    r
}

/// One port scan of a host, with its stamp.
#[derive(Debug, Clone)]
pub struct PortScanResult {
    pub ip: String,
    pub ports: Vec<RemotePort>,
    pub scan_time: String,
}

/// Sorts scan results ascending by port, keeping exactly the same
/// entries.
pub fn sort_remote_ports(results: Vec<RemotePort>) -> (r: Vec<RemotePort>)
    ensures
        r@.to_multiset() == results@.to_multiset(),
        forall|k: int| 0 <= k < r.len() - 1 ==> (#[trigger] r@[k]).port <= r@[k + 1].port,
{
    let r = sort_by_key(results);
    proof {
        assert forall|k: int| 0 <= k < r.len() - 1 implies (#[trigger] r@[k]).port <= r@[
            k + 1
        ].port by {
            assert(r@[k].skey() <= r@[k + 1].skey());
        }
    }
    r
}

} // verus!

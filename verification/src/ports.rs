//! The local listening-port inventory: parsers for the platform tools'
//! output (`lsof`, `ss`, `netstat`), filtering, and grouping by owning
//! process. The tools are spawned outside the library; their captured
//! text is parsed here.

use vstd::prelude::*;
use crate::text::{
    all_digits, contains_sub, contains_sub_spec, contains_char, dec_val, last_char_idx,
    lines_spec, lower_spec, parse_u16, rfind_char, split_lines, split_ws, split_ws_spec,
    starts_with, starts_with_spec, str_len, substring_copy, to_lower, find_sub, first_sub_idx,
    find_char, first_char_idx,
};
use crate::discovery::opt_view;
use crate::sorting::{SortKey, sort_by_key, views_of, lemma_views_multiset};

verus! {

/// One listening port and its owning process.
#[derive(Debug, Clone)]
pub struct PortInfo {
    pub port: u16,
    pub protocol: String,
    pub address: String,
    pub pid: String,
    pub process: String,
    pub user: String,
    pub command: Option<String>,
}

/// The mathematical value of a `PortInfo`.
pub ghost struct PortV {
    pub port: u16,
    pub protocol: Seq<char>,
    pub address: Seq<char>,
    pub pid: Seq<char>,
    pub process: Seq<char>,
    pub user: Seq<char>,
    pub command: Option<Seq<char>>,
}

impl View for PortInfo {
    type V = PortV;

    open spec fn view(&self) -> PortV {
        PortV {
            port: self.port,
            protocol: self.protocol@,
            address: self.address@,
            pid: self.pid@,
            process: self.process@,
            user: self.user@,
            command: opt_view(self.command),
        }
    }
}

impl SortKey for PortInfo {
    open spec fn skey(&self) -> int {
        self.port as int
    }

    fn key(&self) -> (k: u64) {
        self.port as u64
    }
}

/// The port sequence as mathematical values.
pub open spec fn ports_view(s: Seq<PortInfo>) -> Seq<PortV> {
    views_of(s)
}

// ---------------------------------------------------------------------------
// lsof
// ---------------------------------------------------------------------------

/// What one `lsof -i -P -n` line means: a listener with at least nine
/// columns; the ninth carries `address:port`.
pub open spec fn lsof_line_spec(line: Seq<char>) -> Option<PortV> {
    let toks = split_ws_spec(line);
    if !contains_sub_spec(line, "LISTEN"@) || toks.len() < 9 {
        None
    } else {
        let ap = toks[8];
        let cpos = last_char_idx(ap, ':');
        let pstr = ap.skip(cpos + 1);
        if !(pstr.len() > 0 && all_digits(pstr) && dec_val(pstr) <= u16::MAX) {
            None
        } else {
            Some(
                PortV {
                    port: dec_val(pstr) as u16,
                    protocol: if contains_sub_spec(toks[4], "IPv6"@) || toks[4].contains('6') {
                        "IPv6"@
                    } else {
                        "IPv4"@
                    },
                    address: if starts_with_spec(ap, "*:"@) {
                        "*"@
                    } else if cpos >= 0 {
                        ap.take(cpos)
                    } else {
                        "*"@
                    },
                    pid: toks[1],
                    process: toks[0],
                    user: toks[2],
                    command: None,
                },
            )
        }
    }
}

/// Two inventory entries that `lsof` collection treats as the same.
pub open spec fn lsof_key_eq(a: PortV, b: PortV) -> bool {
    a.process == b.process && a.pid == b.pid && a.port == b.port && a.address == b.address
        && a.protocol == b.protocol
}

#[verifier::opaque]
pub open spec fn has_lsof_key(acc: Seq<PortV>, e: PortV) -> bool {
    exists|k: int| 0 <= k < acc.len() && lsof_key_eq(#[trigger] acc[k], e)
}

/// The entries collected from the lines at and after `i`, first
/// occurrence of a key winning.
pub open spec fn lsof_collect(ls: Seq<Seq<char>>, i: int, acc: Seq<PortV>) -> Seq<PortV>
    decreases ls.len() - i
        when 0 <= i
{
    if i >= ls.len() {
        acc
    } else {
        match lsof_line_spec(ls[i]) {
            Some(e) => if has_lsof_key(acc, e) {
                lsof_collect(ls, i + 1, acc)
            } else {
                lsof_collect(ls, i + 1, acc.push(e))
            },
            None => lsof_collect(ls, i + 1, acc),
        }
    }
}

/// Parses one `lsof` line.
fn parse_lsof_line(line: &str) -> (r: Option<PortInfo>)
    ensures
        match r {
            Some(p) => lsof_line_spec(line@) == Some(p@),
            None => lsof_line_spec(line@) is None,
        },
{
    if !contains_sub(line, "LISTEN") {
        return None;
    }
    let toks = split_ws(line);
    if toks.len() < 9 {
        return None;
    }
    proof {
        assert(split_ws_spec(line@)[8] == toks@[8]@);
        assert(split_ws_spec(line@)[4] == toks@[4]@);
        assert(split_ws_spec(line@)[0] == toks@[0]@);
        assert(split_ws_spec(line@)[1] == toks@[1]@);
        assert(split_ws_spec(line@)[2] == toks@[2]@);
    }
    let ap = toks[8].as_str();
    let apn = str_len(ap);
    let cpos = rfind_char(ap, ':');
    let start: usize = match cpos {
        Some(i) => i + 1,
        None => 0,
    };
    proof {
        if cpos is None {
            assert(ap@.skip(last_char_idx(ap@, ':') + 1) =~= ap@.skip(0));
        }
    }
    let pstr = substring_copy(ap, start, apn);
    let port = match parse_u16(pstr.as_str()) {
        Some(p) => p,
        None => {
            return None;
        },
    };
    let address: String = if starts_with(ap, "*:") {
        String::from_str("*")
    } else {
        match cpos {
            Some(i) => substring_copy(ap, 0, i),
            None => String::from_str("*"),
        }
    };
    let fd = toks[4].as_str();
    let protocol: String = if contains_sub(fd, "IPv6") || contains_char(fd, '6') {
        String::from_str("IPv6")
    } else {
        String::from_str("IPv4")
    };
    let p = PortInfo {
        port,
        protocol,
        address,
        pid: toks[1].clone(),
        process: toks[0].clone(),
        user: toks[2].clone(),
        command: None,
    };
    Some(p)
}

fn has_lsof_key_exec(acc: &Vec<PortInfo>, e: &PortInfo) -> (r: bool)
    ensures
        r == has_lsof_key(ports_view(acc@), e@),
{
    let n = acc.len();
    let mut i: usize = 0;
    while i < n
        invariant
            0 <= i <= n == acc.len(),
            forall|k: int| 0 <= k < i ==> !lsof_key_eq((#[trigger] acc@[k])@, e@),
        decreases n - i,
    {
        let a = &acc[i];
        if a.process == e.process && a.pid == e.pid && a.port == e.port && a.address == e.address
            && a.protocol == e.protocol {
            proof {
                reveal(has_lsof_key);
                assert(ports_view(acc@)[i as int] == acc@[i as int]@);
            }
            return true;
        }
        i = i + 1;
    }
    proof {
        reveal(has_lsof_key);
        assert forall|k: int|
            0 <= k < ports_view(acc@).len() implies !lsof_key_eq(
            #[trigger] ports_view(acc@)[k],
            e@,
        ) by {
            assert(ports_view(acc@)[k] == acc@[k]@);
        }
    }
    false
}

/// Parses `lsof -i -P -n` output into the listener inventory: the header
/// line skipped, one entry per distinct (process, pid, port, address,
/// protocol), sorted ascending by port.
pub fn parse_lsof_output(stdout: &str) -> (r: Vec<PortInfo>)
    ensures
        ports_view(r@).to_multiset() == lsof_collect(
            lines_spec(stdout@),
            1,
            Seq::empty(),
        ).to_multiset(),
        forall|k: int| 0 <= k < r.len() - 1 ==> (#[trigger] r@[k]).port <= r@[k + 1].port,
{
    let ls = split_lines(stdout);
    let ghost lv = lines_spec(stdout@);
    let n = ls.len();
    let mut acc: Vec<PortInfo> = Vec::new();
    proof {
        assert(ports_view(acc@) =~= Seq::<PortV>::empty());
    }
    let mut i: usize = 1;
    while i < n
        invariant
            1 <= i <= n == ls.len() || (n == 0 && i == 1),
            lv == lines_spec(stdout@),
            ls.deep_view() == lv,
            lsof_collect(lv, 1, Seq::empty()) == lsof_collect(lv, i as int, ports_view(acc@)),
        decreases n - i,
    {
        proof {
            assert(lv[i as int] == ls@[i as int]@);
        }
        let ghost a0 = ports_view(acc@);
        match parse_lsof_line(ls[i].as_str()) {
            Some(e) => {
                if !has_lsof_key_exec(&acc, &e) {
                    acc.push(e);
                    proof {
                        assert(ports_view(acc@) =~= a0.push(e@));
                    }
                }
            },
            None => {},
        }
        i = i + 1;
    }
    let ghost final_acc = ports_view(acc@);
    proof {
        if n != 0 {
            assert(lsof_collect(lv, n as int, final_acc) == final_acc);
        } else {
            assert(lsof_collect(lv, 1, final_acc) == final_acc);
        }
    }
    let ghost av = acc@;
    let r = sort_by_key(acc);
    proof {
        lemma_views_multiset::<PortInfo>(r@, av);
    }
    r
}

// ---------------------------------------------------------------------------
// ss
// ---------------------------------------------------------------------------

/// What the sixth `ss -tlnp` column means: the process name between
/// `(("` and the next quote, and the pid after `pid=` up to the comma.
pub open spec fn ss_proc_spec(info: Seq<char>) -> (Seq<char>, Seq<char>) {
    let s0 = first_sub_idx(info, "((\""@, 0);
    if s0 >= 0 {
        let after = info.skip(s0 + 3);
        let e = first_char_idx(after, '"');
        if e >= 0 {
            let process = after.take(e);
            let ps = first_sub_idx(info, "pid="@, 0);
            if ps >= 0 {
                let after2 = info.skip(ps + 4);
                let pe = first_char_idx(after2, ',');
                if pe >= 0 {
                    (process, after2.take(pe))
                } else {
                    (process, "-"@)
                }
            } else {
                (process, "-"@)
            }
        } else {
            ("-"@, "-"@)
        }
    } else {
        ("-"@, "-"@)
    }
}

/// Extracts process name and pid from an `ss` process column.
pub fn parse_ss_process_info(info: &str) -> (r: (String, String))
    ensures
        (r.0@, r.1@) == ss_proc_spec(info@),
{
    proof {
        reveal_strlit("((\"");
        reveal_strlit("pid=");
    }
    let n = str_len(info);
    match find_sub(info, "((\"") {
        Some(s0) => {
            let rest = substring_copy(info, s0 + 3, n);
            proof {
                assert(rest@ =~= info@.skip(s0 + 3));
            }
            match find_char(rest.as_str(), '"') {
                Some(e) => {
                    let process = substring_copy(rest.as_str(), 0, e);
                    proof {
                        assert(process@ =~= info@.skip(s0 + 3).take(e as int));
                    }
                    match find_sub(info, "pid=") {
                        Some(ps) => {
                            let rest2 = substring_copy(info, ps + 4, n);
                            proof {
                                assert(rest2@ =~= info@.skip(ps + 4));
                            }
                            match find_char(rest2.as_str(), ',') {
                                Some(pe) => {
                                    let pid = substring_copy(rest2.as_str(), 0, pe);
                                    proof {
                                        assert(pid@ =~= info@.skip(ps + 4).take(pe as int));
                                    }
                                    (process, pid)
                                },
                                None => (process, String::from_str("-")),
                            }
                        },
                        None => (process, String::from_str("-")),
                    }
                },
                None => (String::from_str("-"), String::from_str("-")),
            }
        },
        None => (String::from_str("-"), String::from_str("-")),
    }
}

/// What one `ss -tlnp` line means: the fourth column is `address:port`,
/// the sixth names the owning process.
pub open spec fn ss_line_spec(line: Seq<char>) -> Option<PortV> {
    let toks = split_ws_spec(line);
    if toks.len() < 5 {
        None
    } else {
        let local = toks[3];
        let pos = last_char_idx(local, ':');
        if pos < 0 {
            None
        } else {
            let address0 = local.take(pos);
            let pstr = local.skip(pos + 1);
            if !(pstr.len() > 0 && all_digits(pstr) && dec_val(pstr) <= u16::MAX) {
                None
            } else {
                let pp = if toks.len() > 5 {
                    ss_proc_spec(toks[5])
                } else {
                    ("-"@, "-"@)
                };
                Some(
                    PortV {
                        port: dec_val(pstr) as u16,
                        protocol: if address0.contains(':') {
                            "IPv6"@
                        } else {
                            "IPv4"@
                        },
                        address: if address0 == "*"@ || address0 == "0.0.0.0"@ || address0
                            == "[::]"@ {
                            "*"@
                        } else {
                            address0
                        },
                        pid: pp.1,
                        process: pp.0,
                        user: "-"@,
                        command: None,
                    },
                )
            }
        }
    }
}

/// Parses one `ss` line.
fn parse_ss_line(line: &str) -> (r: Option<PortInfo>)
    ensures
        match r {
            Some(p) => ss_line_spec(line@) == Some(p@),
            None => ss_line_spec(line@) is None,
        },
{
    let toks = split_ws(line);
    if toks.len() < 5 {
        return None;
    }
    proof {
        assert(split_ws_spec(line@)[3] == toks@[3]@);
    }
    let local = toks[3].as_str();
    let ln = str_len(local);
    let pos = match rfind_char(local, ':') {
        Some(i) => i,
        None => {
            return None;
        },
    };
    let address0 = substring_copy(local, 0, pos);
    let pstr = substring_copy(local, pos + 1, ln);
    let port = match parse_u16(pstr.as_str()) {
        Some(p) => p,
        None => {
            return None;
        },
    };
    let (process, pid): (String, String) = if toks.len() > 5 {
        proof {
            assert(split_ws_spec(line@)[5] == toks@[5]@);
        }
        parse_ss_process_info(toks[5].as_str())
    } else {
        (String::from_str("-"), String::from_str("-"))
    };
    let protocol: String = if contains_char(address0.as_str(), ':') {
        String::from_str("IPv6")
    } else {
        String::from_str("IPv4")
    };
    let address: String = if crate::text::str_eq(address0.as_str(), "*") || crate::text::str_eq(
        address0.as_str(),
        "0.0.0.0",
    ) || crate::text::str_eq(address0.as_str(), "[::]") {
        String::from_str("*")
    } else {
        address0
    };
    Some(PortInfo { port, protocol, address, pid, process, user: String::from_str("-"), command: None })
}

pub open spec fn ss_key_eq(a: PortV, b: PortV) -> bool {
    a.port == b.port && a.address == b.address && a.protocol == b.protocol
}

#[verifier::opaque]
pub open spec fn has_ss_key(acc: Seq<PortV>, e: PortV) -> bool {
    exists|k: int| 0 <= k < acc.len() && ss_key_eq(#[trigger] acc[k], e)
}

pub open spec fn ss_collect(ls: Seq<Seq<char>>, i: int, acc: Seq<PortV>) -> Seq<PortV>
    decreases ls.len() - i
        when 0 <= i
{
    if i >= ls.len() {
        acc
    } else {
        match ss_line_spec(ls[i]) {
            Some(e) => if has_ss_key(acc, e) {
                ss_collect(ls, i + 1, acc)
            } else {
                ss_collect(ls, i + 1, acc.push(e))
            },
            None => ss_collect(ls, i + 1, acc),
        }
    }
}

fn has_ss_key_exec(acc: &Vec<PortInfo>, e: &PortInfo) -> (r: bool)
    ensures
        r == has_ss_key(ports_view(acc@), e@),
{
    let n = acc.len();
    let mut i: usize = 0;
    while i < n
        invariant
            0 <= i <= n == acc.len(),
            forall|k: int| 0 <= k < i ==> !ss_key_eq((#[trigger] acc@[k])@, e@),
        decreases n - i,
    {
        let a = &acc[i];
        if a.port == e.port && a.address == e.address && a.protocol == e.protocol {
            proof {
                reveal(has_ss_key);
                assert(ports_view(acc@)[i as int] == acc@[i as int]@);
            }
            return true;
        }
        i = i + 1;
    }
    proof {
        reveal(has_ss_key);
        assert forall|k: int|
            0 <= k < ports_view(acc@).len() implies !ss_key_eq(
            #[trigger] ports_view(acc@)[k],
            e@,
        ) by {
            assert(ports_view(acc@)[k] == acc@[k]@);
        }
    }
    false
}

/// Parses `ss -tlnp` output into the listener inventory: the header line
/// skipped, one entry per distinct (port, address, protocol), sorted
/// ascending by port.
pub fn parse_ss_output(stdout: &str) -> (r: Vec<PortInfo>)
    ensures
        ports_view(r@).to_multiset() == ss_collect(
            lines_spec(stdout@),
            1,
            Seq::empty(),
        ).to_multiset(),
        forall|k: int| 0 <= k < r.len() - 1 ==> (#[trigger] r@[k]).port <= r@[k + 1].port,
{
    let ls = split_lines(stdout);
    let ghost lv = lines_spec(stdout@);
    let n = ls.len();
    let mut acc: Vec<PortInfo> = Vec::new();
    proof {
        assert(ports_view(acc@) =~= Seq::<PortV>::empty());
    }
    let mut i: usize = 1;
    while i < n
        invariant
            1 <= i <= n == ls.len() || (n == 0 && i == 1),
            lv == lines_spec(stdout@),
            ls.deep_view() == lv,
            ss_collect(lv, 1, Seq::empty()) == ss_collect(lv, i as int, ports_view(acc@)),
        decreases n - i,
    {
        proof {
            assert(lv[i as int] == ls@[i as int]@);
        }
        let ghost a0 = ports_view(acc@);
        match parse_ss_line(ls[i].as_str()) {
            Some(e) => {
                if !has_ss_key_exec(&acc, &e) {
                    acc.push(e);
                    proof {
                        assert(ports_view(acc@) =~= a0.push(e@));
                    }
                }
            },
            None => {},
        }
        i = i + 1;
    }
    let ghost av = acc@;
    let r = sort_by_key(acc);
    proof {
        lemma_views_multiset::<PortInfo>(r@, av);
    }
    r
}

// ---------------------------------------------------------------------------
// netstat
// ---------------------------------------------------------------------------

/// What one `netstat -ano` listener line means. The owning process name
/// is resolved outside the library; the pid stands in for it here.
pub open spec fn netstat_line_spec(line: Seq<char>) -> Option<PortV> {
    let toks = split_ws_spec(line);
    if !contains_sub_spec(line, "LISTENING"@) || toks.len() < 5 {
        None
    } else {
        let local = toks[1];
        let pos = last_char_idx(local, ':');
        if pos < 0 {
            None
        } else {
            let address0 = local.take(pos);
            let pstr = local.skip(pos + 1);
            if !(pstr.len() > 0 && all_digits(pstr) && dec_val(pstr) <= u16::MAX) {
                None
            } else {
                Some(
                    PortV {
                        port: dec_val(pstr) as u16,
                        protocol: if toks[0].contains('6') {
                            "IPv6"@
                        } else {
                            "IPv4"@
                        },
                        address: if address0 == "0.0.0.0"@ || address0 == "[::]"@ || address0
                            == "*"@ {
                            "*"@
                        } else {
                            address0
                        },
                        pid: toks[4],
                        process: toks[4],
                        user: "-"@,
                        command: None,
                    },
                )
            }
        }
    }
}

fn parse_netstat_line(line: &str) -> (r: Option<PortInfo>)
    ensures
        match r {
            Some(p) => netstat_line_spec(line@) == Some(p@),
            None => netstat_line_spec(line@) is None,
        },
{
    if !contains_sub(line, "LISTENING") {
        return None;
    }
    let toks = split_ws(line);
    if toks.len() < 5 {
        return None;
    }
    proof {
        assert(split_ws_spec(line@)[0] == toks@[0]@);
        assert(split_ws_spec(line@)[1] == toks@[1]@);
        assert(split_ws_spec(line@)[4] == toks@[4]@);
    }
    let local = toks[1].as_str();
    let ln = str_len(local);
    let pos = match rfind_char(local, ':') {
        Some(i) => i,
        None => {
            return None;
        },
    };
    let address0 = substring_copy(local, 0, pos);
    let pstr = substring_copy(local, pos + 1, ln);
    let port = match parse_u16(pstr.as_str()) {
        Some(p) => p,
        None => {
            return None;
        },
    };
    let protocol: String = if contains_char(toks[0].as_str(), '6') {
        String::from_str("IPv6")
    } else {
        String::from_str("IPv4")
    };
    let address: String = if crate::text::str_eq(address0.as_str(), "0.0.0.0")
        || crate::text::str_eq(address0.as_str(), "[::]") || crate::text::str_eq(
        address0.as_str(),
        "*",
    ) {
        String::from_str("*")
    } else {
        address0
    };
    Some(
        PortInfo {
            port,
            protocol,
            address,
            pid: toks[4].clone(),
            process: toks[4].clone(),
            user: String::from_str("-"),
            command: None,
        },
    )
}

pub open spec fn netstat_collect(ls: Seq<Seq<char>>, i: int, acc: Seq<PortV>) -> Seq<PortV>
    decreases ls.len() - i
        when 0 <= i
{
    if i >= ls.len() {
        acc
    } else {
        match netstat_line_spec(ls[i]) {
            Some(e) => if has_ss_key(acc, e) {
                netstat_collect(ls, i + 1, acc)
            } else {
                netstat_collect(ls, i + 1, acc.push(e))
            },
            None => netstat_collect(ls, i + 1, acc),
        }
    }
}

/// Parses `netstat -ano` output into the listener inventory: one entry
/// per distinct (port, address, protocol), sorted ascending by port.
pub fn parse_netstat_windows(stdout: &str) -> (r: Vec<PortInfo>)
    ensures
        ports_view(r@).to_multiset() == netstat_collect(
            lines_spec(stdout@),
            0,
            Seq::empty(),
        ).to_multiset(),
        forall|k: int| 0 <= k < r.len() - 1 ==> (#[trigger] r@[k]).port <= r@[k + 1].port,
{
    let ls = split_lines(stdout);
    let ghost lv = lines_spec(stdout@);
    let n = ls.len();
    let mut acc: Vec<PortInfo> = Vec::new();
    proof {
        assert(ports_view(acc@) =~= Seq::<PortV>::empty());
    }
    let mut i: usize = 0;
    while i < n
        invariant
            0 <= i <= n == ls.len(),
            lv == lines_spec(stdout@),
            ls.deep_view() == lv,
            netstat_collect(lv, 0, Seq::empty()) == netstat_collect(
                lv,
                i as int,
                ports_view(acc@),
            ),
        decreases n - i,
    {
        proof {
            assert(lv[i as int] == ls@[i as int]@);
        }
        let ghost a0 = ports_view(acc@);
        match parse_netstat_line(ls[i].as_str()) {
            Some(e) => {
                if !has_ss_key_exec(&acc, &e) {
                    acc.push(e);
                    proof {
                        assert(ports_view(acc@) =~= a0.push(e@));
                    }
                }
            },
            None => {},
        }
        i = i + 1;
    }
    let ghost av = acc@;
    let r = sort_by_key(acc);
    proof {
        lemma_views_multiset::<PortInfo>(r@, av);
    }
    r
}

// ---------------------------------------------------------------------------
// Filtering
// ---------------------------------------------------------------------------

/// Whether an entry passes the port, application and system-process
/// filters, with the platform's system-process names handed in as
/// configuration.
pub open spec fn keep_port_entry(
    p: PortV,
    pf: Option<u16>,
    af: Option<Seq<char>>,
    exclude_system: bool,
    sys: Seq<Seq<char>>,
) -> bool {
    &&& match pf {
        Some(x) => p.port == x,
        None => true,
    }
    &&& match af {
        Some(a) => contains_sub_spec(lower_spec(p.process), lower_spec(a)),
        None => true,
    }
    &&& (exclude_system ==> !sys.contains(lower_spec(p.process)))
}

/// The entries passing the filters, in order.
pub open spec fn filter_ports_spec(
    s: Seq<PortV>,
    pf: Option<u16>,
    af: Option<Seq<char>>,
    exclude_system: bool,
    sys: Seq<Seq<char>>,
) -> Seq<PortV>
    decreases s.len(),
{
    if s.len() == 0 {
        Seq::empty()
    } else {
        let r = filter_ports_spec(s.drop_last(), pf, af, exclude_system, sys);
        if keep_port_entry(s.last(), pf, af, exclude_system, sys) {
            r.push(s.last())
        } else {
            r
        }
    }
}

fn keep_port_entry_exec(
    p: &PortInfo,
    pf: &Option<u16>,
    af_lower: &Option<String>,
    exclude_system: bool,
    sys: &Vec<String>,
    Ghost(af): Ghost<Option<Seq<char>>>,
) -> (r: bool)
    requires
        match af {
            Some(a) => af_lower matches Some(l) && l@ == lower_spec(a),
            None => af_lower is None,
        },
    ensures
        r == keep_port_entry(p@, *pf, af, exclude_system, sys.deep_view()),
{
    let port_ok = match pf {
        Some(x) => p.port == *x,
        None => true,
    };
    if !port_ok {
        return false;
    }
    let proc_lower = to_lower(p.process.as_str());
    let app_ok = match af_lower {
        Some(l) => contains_sub(proc_lower.as_str(), l.as_str()),
        None => true,
    };
    if !app_ok {
        return false;
    }
    if exclude_system {
        if crate::discovery::list_contains_str(sys, &proc_lower) {
            return false;
        }
    }
    true
}

/// Keeps the entries that pass the given filters: by exact port, by
/// case-insensitive process-name fragment, and by exclusion of the
/// platform's system-process names (handed in as configuration).
pub fn filter_ports(
    ports: Vec<PortInfo>,
    port_filter: Option<u16>,
    app_filter: Option<String>,
    exclude_system: bool,
    system_procs: &Vec<String>,
) -> (r: Vec<PortInfo>)
    ensures
        ports_view(r@) == filter_ports_spec(
            ports_view(ports@),
            port_filter,
            opt_view(app_filter),
            exclude_system,
            system_procs.deep_view(),
        ),
{
    let ghost afv = opt_view(app_filter);
    let ghost sysv = system_procs.deep_view();
    let ghost pv = ports_view(ports@);
    let af_lower: Option<String> = match &app_filter {
        Some(a) => Some(to_lower(a.as_str())),
        None => None,
    };
    let n = ports.len();
    let mut src = ports;
    let mut out: Vec<PortInfo> = Vec::new();
    proof {
        assert(ports_view(out@) =~= filter_ports_spec(
            pv.take(0),
            port_filter,
            afv,
            exclude_system,
            sysv,
        ));
    }
    let mut i: usize = 0;
    while i < n
        invariant
            0 <= i <= n == src.len(),
            pv == ports_view(src@),
            match afv {
                Some(a) => af_lower matches Some(l) && l@ == lower_spec(a),
                None => af_lower is None,
            },
            sysv == system_procs.deep_view(),
            ports_view(out@) == filter_ports_spec(
                pv.take(i as int),
                port_filter,
                afv,
                exclude_system,
                sysv,
            ),
        decreases n - i,
    {
        let e = &src[i];
        proof {
            assert(pv[i as int] == src@[i as int]@);
            assert(pv.take(i as int + 1).drop_last() =~= pv.take(i as int));
            assert(pv.take(i as int + 1).last() == pv[i as int]);
        }
        let ghost o0 = ports_view(out@);
        if keep_port_entry_exec(e, &port_filter, &af_lower, exclude_system, system_procs, Ghost(afv)) {
            let c = PortInfo {
                port: e.port,
                protocol: e.protocol.clone(),
                address: e.address.clone(),
                pid: e.pid.clone(),
                process: e.process.clone(),
                user: e.user.clone(),
                command: clone_opt(&e.command),
            };
            proof {
                assert(c@ == src@[i as int]@);
            }
            out.push(c);
            proof {
                assert(ports_view(out@) =~= o0.push(pv[i as int]));
            }
        }
        i = i + 1;
    }
    proof {
        assert(pv.take(n as int) =~= pv);
    }
    out
}

fn clone_opt(o: &Option<String>) -> (r: Option<String>)
    ensures
        opt_view(r) == opt_view(*o),
{
    match o {
        Some(s) => Some(s.clone()),
        None => None,
    }
}

// ---------------------------------------------------------------------------
// Grouping by owning process
// ---------------------------------------------------------------------------

/// Ports grouped under one owning process.
#[derive(Debug, Clone)]
pub struct AppGroup {
    pub process: String,
    pub pid: String,
    pub ports: Vec<u16>,
    pub command: Option<String>,
}

/// The mathematical value of an `AppGroup`.
pub ghost struct GroupV {
    pub process: Seq<char>,
    pub pid: Seq<char>,
    pub ports: Seq<u16>,
    pub command: Option<Seq<char>>,
}

impl View for AppGroup {
    type V = GroupV;

    open spec fn view(&self) -> GroupV {
        GroupV {
            process: self.process@,
            pid: self.pid@,
            ports: self.ports@,
            command: opt_view(self.command),
        }
    }
}

impl SortKey for AppGroup {
    open spec fn skey(&self) -> int {
        if self.ports@.len() > 0 {
            self.ports@[0] as int
        } else {
            0
        }
    }

    fn key(&self) -> (k: u64) {
        if self.ports.len() > 0 {
            self.ports[0] as u64
        } else {
            0
        }
    }
}

impl SortKey for u16 {
    open spec fn skey(&self) -> int {
        *self as int
    }

    fn key(&self) -> (k: u64) {
        *self as u64
    }
}

/// Some inventory entry has this process key and port.
#[verifier::opaque]
pub open spec fn entry_with(ps: Seq<PortV>, proc_name: Seq<char>, pid: Seq<char>, q: u16) -> bool {
    exists|j: int|
        0 <= j < ps.len() && (#[trigger] ps[j]).process == proc_name && ps[j].pid == pid
            && ps[j].port == q
}

/// Some group in the working list carries this entry's key and port.
#[verifier::opaque]
pub open spec fn covered_g(gs: Seq<AppGroup>, p: PortV) -> bool {
    exists|k: int, qi: int|
        0 <= k < gs.len() && gs[k]@.process == p.process && gs[k]@.pid == p.pid && 0 <= qi
            < gs[k]@.ports.len() && #[trigger] gs[k]@.ports[qi] == p.port
}

/// Some group carries this entry's key and port.
#[verifier::opaque]
pub open spec fn covered(gs: Seq<GroupV>, p: PortV) -> bool {
    exists|k: int, qi: int|
        0 <= k < gs.len() && (#[trigger] gs[k]).process == p.process && gs[k].pid == p.pid && 0
            <= qi < gs[k].ports.len() && #[trigger] gs[k].ports[qi] == p.port
}

/// What a grouping of the inventory is: one group per owning process,
/// carrying exactly that process's ports.
pub open spec fn grouping_post(pv: Seq<PortV>, gv: Seq<GroupV>) -> bool {
    &&& forall|k: int, qi: int|
        0 <= k < gv.len() && 0 <= qi < gv[k].ports.len() ==> entry_with(
            pv,
            gv[k].process,
            gv[k].pid,
            #[trigger] gv[k].ports[qi],
        )
    &&& forall|j: int| 0 <= j < pv.len() ==> covered(gv, #[trigger] pv[j])
    &&& forall|k1: int, k2: int|
        0 <= k1 < k2 < gv.len() ==> !(gv[k1].process == gv[k2].process && gv[k1].pid
            == gv[k2].pid)
    &&& forall|k: int| 0 <= k < gv.len() ==> (#[trigger] gv[k]).ports.len() > 0
    &&& forall|k: int| 0 <= k < gv.len() ==> (#[trigger] gv[k]).command is None
}

/// The groups as mathematical values.
pub open spec fn groups_view(s: Seq<AppGroup>) -> Seq<GroupV> {
    views_of(s)
}

fn find_group_idx(gs: &Vec<AppGroup>, process: &String, pid: &String) -> (r: Option<usize>)
    ensures
        match r {
            Some(k) => k < gs.len() && gs@[k as int]@.process == process@ && gs@[k as int]@.pid
                == pid@,
            None => forall|k: int|
                0 <= k < gs.len() ==> !((#[trigger] gs@[k])@.process == process@ && gs@[k]@.pid
                    == pid@),
        },
{
    let n = gs.len();
    let mut i: usize = 0;
    while i < n
        invariant
            0 <= i <= n == gs.len(),
            forall|k: int|
                0 <= k < i ==> !((#[trigger] gs@[k])@.process == process@ && gs@[k]@.pid
                    == pid@),
        decreases n - i,
    {
        if gs[i].process == *process && gs[i].pid == *pid {
            return Some(i);
        }
        i = i + 1;
    }
    None
}

/// Sorted ascending with duplicates dropped: same members, each once.
fn dedup_sorted(v: Vec<u16>) -> (r: Vec<u16>)
    requires
        forall|k: int| 0 <= k < v.len() - 1 ==> #[trigger] v@[k] <= v@[k + 1],
    ensures
        forall|q: u16| r@.contains(q) == v@.contains(q),
        forall|k: int| 0 <= k < r.len() - 1 ==> #[trigger] r@[k] < r@[k + 1],
{
    let n = v.len();
    let mut r: Vec<u16> = Vec::new();
    let mut i: usize = 0;
    while i < n
        invariant
            0 <= i <= n == v.len(),
            forall|k: int| 0 <= k < v.len() - 1 ==> #[trigger] v@[k] <= v@[k + 1],
            forall|q: u16| r@.contains(q) == v@.take(i as int).contains(q),
            forall|k: int| 0 <= k < r.len() - 1 ==> #[trigger] r@[k] < r@[k + 1],
            i > 0 && r.len() > 0 ==> r@.last() == v@[i - 1],
            r.len() == 0 ==> i == 0,
            forall|k: int| 0 <= k < r.len() ==> v@.take(i as int).contains(#[trigger] r@[k]),
        decreases n - i,
    {
        let x = v[i];
        let push_it: bool = if r.len() == 0 {
            true
        } else {
            *r.last().unwrap() != x
        };
        let ghost r0 = r@;
        if push_it {
            proof {
                if r0.len() > 0 {
                    // the new element is strictly larger than the last kept one
                    assert(r0.last() == v@[i - 1]);
                    assert(v@[i - 1] <= v@[i as int]);
                }
            }
            r.push(x);
        }
        proof {
            assert forall|q: u16| r@.contains(q) == v@.take(i as int + 1).contains(q) by {
                assert(v@.take(i as int + 1).drop_last() =~= v@.take(i as int));
                if r@.contains(q) {
                    let k = choose|k: int| 0 <= k < r@.len() && r@[k] == q;
                    if push_it && k == r@.len() - 1 {
                        assert(v@.take(i as int + 1).last() == v@[i as int]);
                        assert(v@.take(i as int + 1).contains(q));
                    } else {
                        assert(r0.contains(q));
                        let m = choose|m: int|
                            0 <= m < v@.take(i as int).len() && #[trigger] v@.take(
                                i as int,
                            )[m] == q;
                        assert(v@.take(i as int + 1)[m] == q);
                        assert(v@.take(i as int + 1).contains(q));
                    }
                }
                if v@.take(i as int + 1).contains(q) {
                    let m = choose|m: int|
                        0 <= m < v@.take(i as int + 1).len() && #[trigger] v@.take(
                            i as int + 1,
                        )[m] == q;
                    if m < i {
                        assert(v@.take(i as int)[m] == q);
                        assert(r0.contains(q));
                        if push_it {
                            let k = choose|k: int| 0 <= k < r0.len() && r0[k] == q;
                            assert(r@[k] == q);
                        }
                        assert(r@.contains(q));
                    } else {
                        assert(q == v@[i as int]);
                        if push_it {
                            assert(r@.last() == q);
                        } else {
                            assert(r0.last() == v@[i - 1]);
                            assert(v@[i - 1] <= v@[i as int]);
                            assert(r0.last() == q);
                        }
                        assert(r@.contains(q));
                    }
                }
            }
            if !push_it {
                assert(r@.last() == v@[i as int]);
            }
            assert forall|k: int| 0 <= k < r.len() implies v@.take(i as int + 1).contains(
                #[trigger] r@[k],
            ) by {
                assert(r@.contains(r@[k]));
            }
        }
        i = i + 1;
    }
    proof {
        assert(v@.take(n as int) =~= v@);
    }
    r
}

fn copy_ports_vec(v: &Vec<u16>) -> (r: Vec<u16>)
    ensures
        r@ == v@,
{
    let n = v.len();
    let mut r: Vec<u16> = Vec::new();
    let mut i: usize = 0;
    while i < n
        invariant
            0 <= i <= n == v.len(),
            r@ == v@.take(i as int),
        decreases n - i,
    {
        r.push(v[i]);
        proof {
            assert(r@ =~= v@.take(i as int + 1));
        }
        i = i + 1;
    }
    proof {
        assert(v@.take(n as int) =~= v@);
    }
    r
}

/// A permutation of groups keeps a grouping correct.
proof fn lemma_grouping_permutation(pv: Seq<PortV>, av: Seq<GroupV>, bv: Seq<GroupV>)
    requires
        grouping_post(pv, av),
        av.to_multiset() == bv.to_multiset(),
    ensures
        grouping_post(pv, bv),
{
    broadcast use vstd::seq_lib::group_to_multiset_ensures;
    broadcast use vstd::multiset::group_multiset_axioms;

    assert forall|k: int, qi: int|
        0 <= k < bv.len() && 0 <= qi < bv[k].ports.len() implies entry_with(
        pv,
        bv[k].process,
        bv[k].pid,
        #[trigger] bv[k].ports[qi],
    ) by {
        assert(bv.contains(bv[k]));
        assert(av.to_multiset().count(bv[k]) > 0);
        assert(av.contains(bv[k]));
        let m = choose|m: int| 0 <= m < av.len() && av[m] == bv[k];
        assert(entry_with(pv, av[m].process, av[m].pid, av[m].ports[qi]));
    }
    assert forall|j: int| 0 <= j < pv.len() implies covered(bv, #[trigger] pv[j]) by {
        reveal(covered);
        let (k, qi) = choose|k: int, qi: int|
            0 <= k < av.len() && av[k].process == pv[j].process && av[k].pid == pv[j].pid && 0
                <= qi < av[k].ports.len() && #[trigger] av[k].ports[qi] == pv[j].port;
        assert(av.contains(av[k]));
        assert(bv.to_multiset().count(av[k]) > 0);
        assert(bv.contains(av[k]));
        let k2 = choose|k2: int| 0 <= k2 < bv.len() && bv[k2] == av[k];
    }
    assert(av.no_duplicates()) by {
        assert forall|k1: int, k2: int|
            0 <= k1 < av.len() && 0 <= k2 < av.len() && k1 != k2 implies av[k1] != av[k2] by {
            if k1 < k2 {
                assert(!(av[k1].process == av[k2].process && av[k1].pid == av[k2].pid));
            } else {
                assert(!(av[k2].process == av[k1].process && av[k2].pid == av[k1].pid));
            }
        }
    }
    assert forall|k: int|
        0 <= k < bv.len() implies (#[trigger] bv[k]).ports.len() > 0 && bv[k].command
            is None by {
        assert(bv.contains(bv[k]));
        assert(av.to_multiset().count(bv[k]) > 0);
        assert(av.contains(bv[k]));
        let m = choose|m: int| 0 <= m < av.len() && av[m] == bv[k];
    }
    av.lemma_multiset_has_no_duplicates();
    bv.lemma_multiset_has_no_duplicates_conv();
    assert forall|k1: int, k2: int|
        0 <= k1 < k2 < bv.len() implies !(bv[k1].process == bv[k2].process && bv[k1].pid
        == bv[k2].pid) by {
        if bv[k1].process == bv[k2].process && bv[k1].pid == bv[k2].pid {
            assert(bv.contains(bv[k1]));
            assert(av.to_multiset().count(bv[k1]) > 0);
            assert(av.contains(bv[k1]));
            assert(bv.contains(bv[k2]));
            assert(av.to_multiset().count(bv[k2]) > 0);
            assert(av.contains(bv[k2]));
            let m1 = choose|m: int| 0 <= m < av.len() && av[m] == bv[k1];
            let m2 = choose|m: int| 0 <= m < av.len() && av[m] == bv[k2];
            if m1 == m2 {
                assert(bv[k1] == bv[k2]);
                assert(false);
            } else if m1 < m2 {
                assert(!(av[m1].process == av[m2].process && av[m1].pid == av[m2].pid));
                assert(false);
            } else {
                assert(!(av[m2].process == av[m1].process && av[m2].pid == av[m1].pid));
                assert(false);
            }
        }
    }
}

/// Groups the inventory by owning process: one group per (process, pid),
/// its ports sorted ascending without duplicates, groups ordered by their
/// first port. Command lines are attached outside the library.
#[verifier::rlimit(60)]
pub fn scan_ports_grouped(ports: &Vec<PortInfo>) -> (r: Vec<AppGroup>)
    ensures
        grouping_post(ports_view(ports@), groups_view(r@)),
        forall|k: int, qi: int|
            0 <= k < r.len() && 0 <= qi < groups_view(r@)[k].ports.len() - 1
                ==> #[trigger] groups_view(r@)[k].ports[qi] < groups_view(r@)[k].ports[qi + 1],
        forall|k: int| 0 <= k < r.len() - 1 ==> (#[trigger] r@[k]).skey() <= r@[k + 1].skey(),
{
    let ghost pv = ports_view(ports@);
    let n = ports.len();
    // collect raw groups, appending each entry's port to its group
    let mut gs: Vec<AppGroup> = Vec::new();
    let mut i: usize = 0;
    while i < n
        invariant
            0 <= i <= n == ports.len(),
            pv == ports_view(ports@),
            forall|k: int, qi: int|
                0 <= k < gs.len() && 0 <= qi < gs@[k]@.ports.len() ==> entry_with(
                    pv.take(i as int),
                    gs@[k]@.process,
                    gs@[k]@.pid,
                    #[trigger] gs@[k]@.ports[qi],
                ),
            forall|j: int| 0 <= j < i ==> covered_g(gs@, #[trigger] pv[j]),
            forall|k1: int, k2: int|
                0 <= k1 < k2 < gs.len() ==> !(gs@[k1]@.process == gs@[k2]@.process && gs@[k1]@.pid
                    == gs@[k2]@.pid),
            forall|k: int| 0 <= k < gs.len() ==> (#[trigger] gs@[k])@.ports.len() > 0,
            forall|k: int| 0 <= k < gs.len() ==> (#[trigger] gs@[k])@.command is None,
        decreases n - i,
    {
        let e = &ports[i];
        proof {
            assert(pv[i as int] == ports@[i as int]@);
            assert(pv.take(i as int + 1)[i as int] == pv[i as int]);
            assert(forall|j: int| 0 <= j < i ==> pv.take(i as int + 1)[j] == pv[j]);
        }
        let ghost g0 = gs@;
        match find_group_idx(&gs, &e.process, &e.pid) {
            Some(m) => {
                let g = &mut gs[m];
                g.ports.push(e.port);
                proof {
                    assert(gs@[m as int]@.ports =~= g0[m as int]@.ports.push(
                        pv[i as int].port,
                    ));
                    assert(forall|k: int| 0 <= k < gs.len() && k != m ==> gs@[k] == g0[k]);
                    reveal(covered_g);
                    assert(gs@[m as int]@.ports[g0[m as int]@.ports.len() as int] == pv[
                        i as int
                    ].port);
                    assert(covered_g(gs@, pv[i as int]));
                }
            },
            None => {
                let mut one: Vec<u16> = Vec::new();
                one.push(e.port);
                let g = AppGroup {
                    process: e.process.clone(),
                    pid: e.pid.clone(),
                    ports: one,
                    command: None,
                };
                gs.push(g);
                proof {
                    assert(forall|k: int| 0 <= k < g0.len() ==> gs@[k] == g0[k]);
                    assert(gs@[g0.len() as int]@.ports =~= seq![pv[i as int].port]);
                    reveal(covered_g);
                    assert(gs@[g0.len() as int]@.ports[0] == pv[i as int].port);
                    assert(covered_g(gs@, pv[i as int]));
                }
            },
        }
        proof {
            reveal(entry_with);
            reveal(covered_g);
            assert forall|k: int, qi: int|
                0 <= k < gs.len() && 0 <= qi < gs@[k]@.ports.len() implies entry_with(
                pv.take(i as int + 1),
                gs@[k]@.process,
                gs@[k]@.pid,
                #[trigger] gs@[k]@.ports[qi],
            ) by {
                let old_slot = k < g0.len() && qi < g0[k]@.ports.len();
                if old_slot && gs@[k]@.process == g0[k]@.process && gs@[k]@.pid == g0[k]@.pid
                    && gs@[k]@.ports[qi] == g0[k]@.ports[qi] {
                    assert(entry_with(
                        pv.take(i as int),
                        g0[k]@.process,
                        g0[k]@.pid,
                        g0[k]@.ports[qi],
                    ));
                    let j = choose|j: int|
                        0 <= j < pv.take(i as int).len() && (#[trigger] pv.take(
                            i as int,
                        )[j]).process == g0[k]@.process && pv.take(i as int)[j].pid
                            == g0[k]@.pid && pv.take(i as int)[j].port == g0[k]@.ports[qi];
                    assert(pv.take(i as int + 1)[j] == pv.take(i as int)[j]);
                } else {
                    // the slot added this iteration carries entry `i`
                    assert(gs@[k]@.process == pv[i as int].process);
                    assert(gs@[k]@.pid == pv[i as int].pid);
                    assert(gs@[k]@.ports[qi] == pv[i as int].port);
                }
            }
            assert forall|j: int| 0 <= j < i + 1 implies covered_g(gs@, #[trigger] pv[j]) by {
                if j < i {
                    let (k, qi) = choose|k: int, qi: int|
                        0 <= k < g0.len() && g0[k]@.process == pv[j].process && g0[k]@.pid
                            == pv[j].pid && 0 <= qi < g0[k]@.ports.len() && #[trigger] g0[k]@.ports[qi]
                            == pv[j].port;
                    assert(gs@[k]@.process == pv[j].process && gs@[k]@.pid == pv[j].pid);
                    assert(gs@[k]@.ports[qi] == pv[j].port);
                }
            }
        }
        i = i + 1;
    }
    proof {
        assert(pv.take(n as int) =~= pv);
    }

    // normalise: sort each group's ports and drop duplicates
    let gn = gs.len();
    let mut out: Vec<AppGroup> = Vec::new();
    let mut t: usize = 0;
    while t < gn
        invariant
            0 <= t <= gn == gs.len(),
            pv == ports_view(ports@),
            out.len() == t,
            forall|k: int, qi: int|
                0 <= k < gs.len() && 0 <= qi < gs@[k]@.ports.len() ==> entry_with(
                    pv,
                    gs@[k]@.process,
                    gs@[k]@.pid,
                    #[trigger] gs@[k]@.ports[qi],
                ),
            forall|j: int| 0 <= j < pv.len() ==> covered_g(gs@, #[trigger] pv[j]),
            forall|k1: int, k2: int|
                0 <= k1 < k2 < gs.len() ==> !(gs@[k1]@.process == gs@[k2]@.process && gs@[k1]@.pid
                    == gs@[k2]@.pid),
            forall|k: int| 0 <= k < gs.len() ==> (#[trigger] gs@[k])@.ports.len() > 0,
            forall|k: int| 0 <= k < gs.len() ==> (#[trigger] gs@[k])@.command is None,
            forall|k: int|
                0 <= k < t ==> (#[trigger] out@[k])@.process == gs@[k]@.process && out@[k]@.pid
                    == gs@[k]@.pid && out@[k]@.command is None && out@[k]@.ports.len() > 0,
            forall|k: int|
                0 <= k < t ==> forall|q: u16|
                    (#[trigger] out@[k])@.ports.contains(q) == gs@[k]@.ports.contains(q),
            forall|k: int, qi: int|
                0 <= k < t && 0 <= qi < out@[k]@.ports.len() - 1 ==> #[trigger] out@[k]@.ports[
                    qi
                ] < out@[k]@.ports[qi + 1],
        decreases gn - t,
    {
        let g = &gs[t];
        let raw = copy_ports_vec(&g.ports);
        let ghost rawv = raw@;
        let sorted = sort_by_key(raw);
        proof {
            broadcast use vstd::seq_lib::group_to_multiset_ensures;

            assert forall|q: u16| sorted@.contains(q) == rawv.contains(q) by {
                if sorted@.contains(q) {
                    assert(sorted@.to_multiset().count(q) > 0);
                }
                if rawv.contains(q) {
                    assert(rawv.to_multiset().count(q) > 0);
                }
            }
            assert forall|k: int|
                0 <= k < sorted@.len() - 1 implies #[trigger] sorted@[k] <= sorted@[k + 1] by {
                assert(sorted@[k].skey() <= sorted@[k + 1].skey());
            }
            assert(rawv.contains(rawv[0]));
        }
        let cleaned = dedup_sorted(sorted);
        let ng = AppGroup {
            process: g.process.clone(),
            pid: g.pid.clone(),
            ports: cleaned,
            command: None,
        };
        proof {
            assert forall|q: u16| ng@.ports.contains(q) == gs@[t as int]@.ports.contains(
                q,
            ) by {
                assert(rawv == gs@[t as int]@.ports);
            }
            assert(gs@[t as int]@.ports.contains(gs@[t as int]@.ports[0]));
            assert(ng@.ports.contains(gs@[t as int]@.ports[0]));
            assert(ng@.ports.len() > 0);
        }
        out.push(ng);
        t = t + 1;
    }
    proof {
        reveal(entry_with);
        reveal(covered);
        let ov = groups_view(out@);
        assert forall|k: int, qi: int|
            0 <= k < ov.len() && 0 <= qi < ov[k].ports.len() implies entry_with(
            pv,
            ov[k].process,
            ov[k].pid,
            #[trigger] ov[k].ports[qi],
        ) by {
            assert(ov[k] == out@[k]@);
            assert(out@[k]@.ports.contains(out@[k]@.ports[qi]));
            assert(gs@[k]@.ports.contains(out@[k]@.ports[qi]));
            let qj = choose|qj: int|
                0 <= qj < gs@[k]@.ports.len() && gs@[k]@.ports[qj] == out@[k]@.ports[qi];
            assert(entry_with(pv, gs@[k]@.process, gs@[k]@.pid, gs@[k]@.ports[qj]));
        }
        assert forall|j: int| 0 <= j < pv.len() implies covered(
            groups_view(out@),
            #[trigger] pv[j],
        ) by {
            reveal(covered_g);
            let (k, qi) = choose|k: int, qi: int|
                0 <= k < gs.len() && gs@[k]@.process == pv[j].process && gs@[k]@.pid
                    == pv[j].pid && 0 <= qi < gs@[k]@.ports.len() && #[trigger] gs@[k]@.ports[qi]
                    == pv[j].port;
            assert(gs@[k]@.ports.contains(pv[j].port));
            assert(out@[k]@.ports.contains(pv[j].port));
            let qj = choose|qj: int|
                0 <= qj < out@[k]@.ports.len() && out@[k]@.ports[qj] == pv[j].port;
            assert(groups_view(out@)[k] == out@[k]@);
        }
        assert(grouping_post(pv, groups_view(out@)));
    }

    // order groups by their first (lowest) port
    let ghost before_sort = out@;
    let r = sort_by_key(out);
    proof {
        lemma_views_multiset::<AppGroup>(r@, before_sort);
        lemma_grouping_permutation(pv, groups_view(before_sort), groups_view(r@));
        broadcast use vstd::seq_lib::group_to_multiset_ensures;

        assert forall|k: int, qi: int|
            0 <= k < r.len() && 0 <= qi < groups_view(r@)[k].ports.len() - 1 implies #[trigger] groups_view(
            r@,
        )[k].ports[qi] < groups_view(r@)[k].ports[qi + 1] by {
            assert(groups_view(r@)[k] == r@[k]@);
            assert(r@.contains(r@[k]));
            assert(before_sort.to_multiset().count(r@[k]) > 0);
            assert(before_sort.contains(r@[k]));
            let m = choose|m: int| 0 <= m < before_sort.len() && before_sort[m] == r@[k];
        }
    }
    r
}

/// Whether a group passes the application and system-process filters.
pub open spec fn keep_group(
    g: GroupV,
    af: Option<Seq<char>>,
    exclude_system: bool,
    sys: Seq<Seq<char>>,
) -> bool {
    &&& match af {
        Some(a) => contains_sub_spec(lower_spec(g.process), lower_spec(a)),
        None => true,
    }
    &&& (exclude_system ==> !sys.contains(lower_spec(g.process)))
}

/// The groups passing the filters, in order.
pub open spec fn filter_groups_spec(
    s: Seq<GroupV>,
    af: Option<Seq<char>>,
    exclude_system: bool,
    sys: Seq<Seq<char>>,
) -> Seq<GroupV>
    decreases s.len(),
{
    if s.len() == 0 {
        Seq::empty()
    } else {
        let r = filter_groups_spec(s.drop_last(), af, exclude_system, sys);
        if keep_group(s.last(), af, exclude_system, sys) {
            r.push(s.last())
        } else {
            r
        }
    }
}

/// Keeps the groups whose process passes the case-insensitive name
/// filter and, when asked, is not one of the platform's system
/// processes.
pub fn apply_filter_groups(
    groups: Vec<AppGroup>,
    app_filter: Option<String>,
    exclude_system: bool,
    system_procs: &Vec<String>,
) -> (r: Vec<AppGroup>)
    ensures
        groups_view(r@) == filter_groups_spec(
            groups_view(groups@),
            opt_view(app_filter),
            exclude_system,
            system_procs.deep_view(),
        ),
{
    let ghost afv = opt_view(app_filter);
    let ghost sysv = system_procs.deep_view();
    let ghost gv = groups_view(groups@);
    let af_lower: Option<String> = match &app_filter {
        Some(a) => Some(to_lower(a.as_str())),
        None => None,
    };
    let n = groups.len();
    let src = groups;
    let mut out: Vec<AppGroup> = Vec::new();
    proof {
        assert(groups_view(out@) =~= filter_groups_spec(
            gv.take(0),
            afv,
            exclude_system,
            sysv,
        ));
    }
    let mut i: usize = 0;
    while i < n
        invariant
            0 <= i <= n == src.len(),
            gv == groups_view(src@),
            match afv {
                Some(a) => af_lower matches Some(l) && l@ == lower_spec(a),
                None => af_lower is None,
            },
            sysv == system_procs.deep_view(),
            groups_view(out@) == filter_groups_spec(
                gv.take(i as int),
                afv,
                exclude_system,
                sysv,
            ),
        decreases n - i,
    {
        let g = &src[i];
        proof {
            assert(gv[i as int] == src@[i as int]@);
            assert(gv.take(i as int + 1).drop_last() =~= gv.take(i as int));
            assert(gv.take(i as int + 1).last() == gv[i as int]);
        }
        let proc_lower = to_lower(g.process.as_str());
        let app_ok = match &af_lower {
            Some(l) => contains_sub(proc_lower.as_str(), l.as_str()),
            None => true,
        };
        let sys_ok = if exclude_system {
            !crate::discovery::list_contains_str(system_procs, &proc_lower)
        } else {
            true
        };
        let ghost o0 = groups_view(out@);
        if app_ok && sys_ok {
            let c = AppGroup {
                process: g.process.clone(),
                pid: g.pid.clone(),
                ports: copy_ports_vec(&g.ports),
                command: clone_opt(&g.command),
            };
            proof {
                assert(c@ == src@[i as int]@);
            }
            out.push(c);
            proof {
                assert(groups_view(out@) =~= o0.push(gv[i as int]));
            }
        }
        i = i + 1;
    }
    proof {
        assert(gv.take(n as int) =~= gv);
    }
    out
}

/// A whole inventory scan, with its stamp and tallies.
#[derive(Debug, Clone)]
pub struct ScanResult {
    pub scan_time: String,
    pub total_ports: usize,
    pub unique_apps: usize,
    pub ports: Vec<PortInfo>,
}

/// Two entries owned by the same process.
pub open spec fn same_app(a: PortV, b: PortV) -> bool {
    a.process == b.process && a.pid == b.pid
}

/// Whether an earlier entry shares this one's owning process.
#[verifier::opaque]
pub open spec fn app_seen_before(ps: Seq<PortV>, i: int) -> bool {
    exists|j: int| 0 <= j < i && same_app(#[trigger] ps[j], ps[i])
}

/// How many distinct owning processes the first `i` entries name.
pub open spec fn distinct_apps(ps: Seq<PortV>, i: int) -> nat
    decreases i when i >= 0
{
    if i <= 0 {
        0
    } else {
        distinct_apps(ps, i - 1) + if app_seen_before(ps, i - 1) {
            0nat
        } else {
            1nat
        }
    }
}

/// Bundles a finished scan: its stamp, the inventory, and the tallies of
/// ports and of distinct owning processes.
pub fn summarize_scan(ports: Vec<PortInfo>, scan_time: String) -> (r: ScanResult)
    ensures
        r.scan_time@ == scan_time@,
        r.ports@ == ports@,
        r.total_ports == ports.len(),
        r.unique_apps == distinct_apps(ports_view(ports@), ports.len() as int),
{
    let ghost pv = ports_view(ports@);
    let n = ports.len();
    let mut unique_apps: usize = 0;
    let mut i: usize = 0;
    while i < n
        invariant
            0 <= i <= n == ports.len(),
            pv == ports_view(ports@),
            unique_apps == distinct_apps(pv, i as int),
            unique_apps <= i,
        decreases n - i,
    {
        let mut seen = false;
        let mut j: usize = 0;
        while j < i
            invariant
                0 <= j <= i < n == ports.len(),
                pv == ports_view(ports@),
                !seen ==> forall|k: int| 0 <= k < j ==> !same_app(#[trigger] pv[k], pv[i as int]),
                seen ==> exists|k: int| 0 <= k < i && same_app(#[trigger] pv[k], pv[i as int]),
            decreases i - j,
        {
            proof {
                assert(pv[j as int] == ports@[j as int]@);
                assert(pv[i as int] == ports@[i as int]@);
            }
            if ports[j].process == ports[i].process && ports[j].pid == ports[i].pid {
                seen = true;
                proof {
                    assert(same_app(pv[j as int], pv[i as int]));
                }
            }
            j = j + 1;
        }
        proof {
            reveal(app_seen_before);
            assert(seen == app_seen_before(pv, i as int));
        }
        if !seen {
            unique_apps = unique_apps + 1;
        }
        i = i + 1;
    }
    let total_ports = ports.len();
    ScanResult { scan_time, total_ports, unique_apps, ports }
}

/// As `filter_ports`, for an inventory already in hand.
pub fn apply_filter_ports(
    ports: Vec<PortInfo>,
    port_filter: Option<u16>,
    app_filter: Option<String>,
    exclude_system: bool,
    system_procs: &Vec<String>,
) -> (r: Vec<PortInfo>)
    ensures
        ports_view(r@) == filter_ports_spec(
            ports_view(ports@),
            port_filter,
            opt_view(app_filter),
            exclude_system,
            system_procs.deep_view(),
        ),
{
    filter_ports(ports, port_filter, app_filter, exclude_system, system_procs)
}

} // verus!

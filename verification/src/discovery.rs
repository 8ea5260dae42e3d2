//! Device discovery: parsing the OS ARP cache and reverse-DNS lookups, and
//! reconciling ARP-cache entries with a ping sweep into one device list.
//!
//! The process spawning (`arp -a`, `ping`, `host`) happens outside the
//! library; everything here works on the captured text and plain values.

use vstd::prelude::*;
use crate::text::{
    all_digits, contains_char, contains_sub, contains_sub_spec, dec_val,
    lines_spec, parse_u32, rfind_char, split_lines, split_ws, split_ws_spec, starts_with,
    starts_with_spec, str_len, substring_copy, trim_trailing, trim_trailing_spec,
    char_at,
};

verus! {

/// A host observed on the local subnet.
#[derive(Debug, Clone)]
pub struct NetworkDevice {
    pub ip: String,
    pub mac: Option<String>,
    pub hostname: Option<String>,
    pub is_online: bool,
}

/// The mathematical value of a `NetworkDevice`.
pub ghost struct DeviceV {
    pub ip: Seq<char>,
    pub mac: Option<Seq<char>>,
    pub hostname: Option<Seq<char>>,
    pub is_online: bool,
}

pub open spec fn opt_view(o: Option<String>) -> Option<Seq<char>> {
    match o {
        Some(s) => Some(s@),
        None => None,
    }
}

impl View for NetworkDevice {
    type V = DeviceV;

    open spec fn view(&self) -> DeviceV {
        DeviceV {
            ip: self.ip@,
            mac: opt_view(self.mac),
            hostname: opt_view(self.hostname),
            is_online: self.is_online,
        }
    }
}

/// The device sequence as mathematical values.
pub open spec fn devs_view(s: Seq<NetworkDevice>) -> Seq<DeviceV> {
    s.map_values(|d: NetworkDevice| d@)
}

// ---------------------------------------------------------------------------
// The last octet of a dotted address, for ordering
// ---------------------------------------------------------------------------

/// The segment of `s` after its last `.` (all of `s` if it has none).
pub open spec fn last_segment(s: Seq<char>) -> Seq<char> {
    s.skip(s.len() - crate::text::non_char_prefix_len(s.reverse(), '.') as int)
}

/// The numeric value of the segment after the last dot; `0` when that
/// segment is not a plain decimal that fits `u32`.
pub open spec fn last_octet_spec(s: Seq<char>) -> nat {
    let t = last_segment(s);
    if t.len() > 0 && all_digits(t) && dec_val(t) <= u32::MAX {
        dec_val(t)
    } else {
        0
    }
}

/// The numeric last octet of an address string.
pub fn last_octet(s: &str) -> (r: u32)
    ensures
        r == last_octet_spec(s@),
{
    let n = str_len(s);
    let start: usize = match rfind_char(s, '.') {
        Some(i) => i + 1,
        None => 0,
    };
    proof {
        let rev = s@.reverse();
        assert forall|j: int| 0 <= j < n - start implies rev[j] != '.' by {
            assert(rev[j] == s@[n - 1 - j]);
        }
        if start > 0 {
            assert(rev[n - start] == s@[start - 1]);
        }
        crate::text::lemma_non_char_prefix(rev, '.', n - start);
        assert(last_segment(s@) =~= s@.subrange(start as int, n as int));
    }
    let tail = substring_copy(s, start, n);
    match parse_u32(tail.as_str()) {
        Some(v) => v,
        None => 0,
    }
}

// ---------------------------------------------------------------------------
// ARP cache lines
// ---------------------------------------------------------------------------

pub open spec fn is_paren(c: char) -> bool {
    c == '(' || c == ')'
}

/// The length of the leading run of parenthesis characters.
pub open spec fn paren_prefix_len(s: Seq<char>) -> nat
    decreases s.len(),
{
    if s.len() == 0 || !is_paren(s[0]) {
        0
    } else {
        1 + paren_prefix_len(s.drop_first())
    }
}

fn paren_char(c: char) -> (r: bool)
    ensures
        r == is_paren(c),
{
    c == '(' || c == ')'
}

proof fn lemma_paren_prefix(s: Seq<char>, k: int)
    requires
        0 <= k <= s.len(),
        forall|j: int| 0 <= j < k ==> is_paren(s[j]),
        k < s.len() ==> !is_paren(s[k]),
    ensures
        paren_prefix_len(s) == k,
    decreases k,
{
    if k > 0 {
        lemma_paren_prefix(s.drop_first(), k - 1);
    }
}

/// `s` with any leading or trailing run of parentheses removed.
pub open spec fn trim_parens_spec(s: Seq<char>) -> Seq<char> {
    let a = paren_prefix_len(s) as int;
    let r = s.skip(a);
    r.take(r.len() - paren_prefix_len(r.reverse()))
}

/// A copy of `s` with leading and trailing parentheses removed.
pub fn trim_parens(s: &str) -> (r: String)
    ensures
        r@ == trim_parens_spec(s@),
{
    let n = str_len(s);
    let mut a: usize = 0;
    while a < n && paren_char(char_at(s, a))
        invariant
            0 <= a <= n == s@.len(),
            forall|j: int| 0 <= j < a ==> is_paren(s@[j]),
        decreases n - a,
    {
        a = a + 1;
    }
    let mut b: usize = n;
    while b > a && paren_char(char_at(s, b - 1))
        invariant
            a <= b <= n == s@.len(),
            forall|j: int| 0 <= j < a ==> is_paren(s@[j]),
            a < n ==> !is_paren(s@[a as int]),
            forall|j: int| b <= j < s@.len() ==> is_paren(s@[j]),
        decreases b,
    {
        b = b - 1;
    }
    let r = substring_copy(s, a, b);
    proof {
        let rest = s@.skip(a as int);
        lemma_paren_prefix(s@, a as int);
        assert forall|j: int| 0 <= j < s@.len() - b implies is_paren(rest.reverse()[j]) by {
            assert(rest.reverse()[j] == s@[s@.len() - 1 - j]);
        }
        if b > a {
            assert(rest.reverse()[s@.len() - b] == s@[b - 1]);
        }
        lemma_paren_prefix(rest.reverse(), s@.len() - b);
        assert(r@ =~= trim_parens_spec(s@));
    }
    r
}

/// A token of the form `(a.b.c.d)`: parenthesised and holding a dot.
pub open spec fn arp_candidate(t: Seq<char>) -> bool {
    t.len() >= 1 && t[0] == '(' && t.last() == ')' && trim_parens_spec(t).contains('.')
}

fn is_arp_candidate(t: &str) -> (r: bool)
    ensures
        r == arp_candidate(t@),
{
    let n = str_len(t);
    if n == 0 {
        return false;
    }
    if char_at(t, 0) != '(' {
        return false;
    }
    if char_at(t, n - 1) != ')' {
        return false;
    }
    let trimmed = trim_parens(t);
    contains_char(trimmed.as_str(), '.')
}

/// The index of the first parenthesised-address token, or `toks.len()`.
pub open spec fn arp_first_cand(toks: Seq<Seq<char>>, i: int) -> int
    decreases toks.len() - i
        when 0 <= i <= toks.len()
{
    if i >= toks.len() {
        toks.len() as int
    } else if arp_candidate(toks[i]) {
        i
    } else {
        arp_first_cand(toks, i + 1)
    }
}

/// What one line of Unix `arp -a` output means: the first parenthesised
/// address token gives the IP; the token two places later, if any, is the
/// MAC; the first token is the hostname unless it starts with `?`.
pub open spec fn parse_arp_line_spec(line: Seq<char>) -> Option<DeviceV> {
    let toks = split_ws_spec(line);
    let i = arp_first_cand(toks, 0);
    if i == toks.len() {
        None
    } else {
        Some(
            DeviceV {
                ip: trim_parens_spec(toks[i]),
                mac: if i + 2 < toks.len() {
                    Some(toks[i + 2])
                } else {
                    None
                },
                hostname: if i > 0 && !(toks[0].len() > 0 && toks[0][0] == '?') {
                    Some(toks[0])
                } else {
                    None
                },
                is_online: true,
            },
        )
    }
}

/// Parses one line of Unix `arp -a` output
/// (`hostname (192.168.1.1) at aa:bb:cc:dd:ee:ff ...`).
pub fn parse_arp_line(line: &str) -> (r: Option<NetworkDevice>)
    ensures
        match r {
            Some(d) => parse_arp_line_spec(line@) == Some(d@),
            None => parse_arp_line_spec(line@) is None,
        },
{
    let toks = split_ws(line);
    let ghost tv = split_ws_spec(line@);
    let n = toks.len();
    let mut i: usize = 0;
    while i < n
        invariant
            0 <= i <= n == toks.len(),
            tv == split_ws_spec(line@),
            toks.deep_view() == tv,
            arp_first_cand(tv, 0) == arp_first_cand(tv, i as int),
        decreases n - i,
    {
        proof {
            assert(tv[i as int] == toks@[i as int]@);
        }
        if is_arp_candidate(toks[i].as_str()) {
            proof {
                assert(arp_first_cand(tv, i as int) == i as int);
            }
            let ip = trim_parens(toks[i].as_str());
            let mac: Option<String> = if n - i > 2 {
                proof {
                    assert(tv[i as int + 2] == toks@[i as int + 2]@);
                }
                Some(toks[i + 2].clone())
            } else {
                None
            };
            let hostname: Option<String> = if i > 0 {
                let first = &toks[0];
                proof {
                    assert(tv[0] == toks@[0]@);
                }
                let keep = {
                    let fs = first.as_str();
                    let fl = str_len(fs);
                    !(fl > 0 && char_at(fs, 0) == '?')
                };
                if keep {
                    Some(first.clone())
                } else {
                    None
                }
            } else {
                None
            };
            let d = NetworkDevice { ip, mac, hostname, is_online: true };
            proof {
                let sv = parse_arp_line_spec(line@);
                assert(sv matches Some(x) && x.ip == d@.ip);
                assert(sv matches Some(x) && x.mac == d@.mac);
                assert(sv matches Some(x) && x.hostname == d@.hostname);
            }
            return Some(d);
        }
        i = i + 1;
    }
    None
}

/// What one line of Windows `arp -a` output means: an address in the first
/// token (dotted, not an `Interface` header), the MAC in the second with
/// dashes turned to colons.
pub open spec fn parse_arp_line_windows_spec(line: Seq<char>) -> Option<DeviceV> {
    let toks = split_ws_spec(line);
    if toks.len() >= 2 && toks[0].contains('.') && !starts_with_spec(
        toks[0],
        "Interface"@,
    ) {
        Some(
            DeviceV {
                ip: toks[0],
                mac: Some(toks[1].map_values(|c: char| if c == '-' { ':' } else { c })),
                hostname: None,
                is_online: true,
            },
        )
    } else {
        None
    }
}

/// Parses one line of Windows `arp -a` output
/// (`192.168.1.1    aa-bb-cc-dd-ee-ff    dynamic`).
pub fn parse_arp_line_windows(line: &str) -> (r: Option<NetworkDevice>)
    ensures
        match r {
            Some(d) => parse_arp_line_windows_spec(line@) == Some(d@),
            None => parse_arp_line_windows_spec(line@) is None,
        },
{
    let toks = split_ws(line);
    let ghost tv = split_ws_spec(line@);
    if toks.len() < 2 {
        return None;
    }
    proof {
        assert(tv[0] == toks@[0]@);
        assert(tv[1] == toks@[1]@);
    }
    let first = toks[0].as_str();
    if !contains_char(first, '.') {
        return None;
    }
    if starts_with(first, "Interface") {
        return None;
    }
    // dashes to colons in the MAC
    let macs = toks[1].as_str();
    let m = str_len(macs);
    let mut mac = String::new();
    let mut j: usize = 0;
    while j < m
        invariant
            0 <= j <= m == macs@.len(),
            mac@ == macs@.take(j as int).map_values(|c: char| if c == '-' { ':' } else { c }),
        decreases m - j,
    {
        let c = char_at(macs, j);
        let c2 = if c == '-' { ':' } else { c };
        crate::text::push_char(&mut mac, c2);
        proof {
            assert(mac@ =~= macs@.take(j as int + 1).map_values(
                |c: char| if c == '-' { ':' } else { c },
            ));
        }
        j = j + 1;
    }
    proof {
        assert(macs@.take(m as int) =~= macs@);
        assert(macs@.take(m as int).map_values(|c: char| if c == '-' { ':' } else { c })
            =~= parse_arp_line_windows_spec(line@).unwrap().mac.unwrap());
    }
    let ip = toks[0].clone();
    Some(NetworkDevice { ip, mac: Some(mac), hostname: None, is_online: true })
}

// ---------------------------------------------------------------------------
// Reverse-DNS output
// ---------------------------------------------------------------------------

/// A lookup line announcing a name: `... name = host.` or
/// `... domain name pointer host.`.
pub open spec fn hostname_line(l: Seq<char>) -> bool {
    contains_sub_spec(l, "name ="@) || contains_sub_spec(l, "domain name pointer"@)
}

/// The hostname carried by the first announcing line: its last token,
/// trailing dots removed.
pub open spec fn hostname_scan(ls: Seq<Seq<char>>, i: int) -> Option<Seq<char>>
    decreases ls.len() - i
        when 0 <= i <= ls.len()
{
    if i >= ls.len() {
        None
    } else if hostname_line(ls[i]) && split_ws_spec(ls[i]).len() > 0 {
        Some(trim_trailing_spec(split_ws_spec(ls[i]).last(), '.'))
    } else {
        hostname_scan(ls, i + 1)
    }
}

/// What `host`/`nslookup` output means for one address.
pub open spec fn parse_hostname_spec(text: Seq<char>) -> Option<Seq<char>> {
    hostname_scan(lines_spec(text), 0)
}

/// Extracts the resolved hostname from `host`/`nslookup` output.
pub fn parse_hostname_lookup(text: &str) -> (r: Option<String>)
    ensures
        match r {
            Some(h) => parse_hostname_spec(text@) == Some(h@),
            None => parse_hostname_spec(text@) is None,
        },
{
    let ls = split_lines(text);
    let ghost lv = lines_spec(text@);
    let n = ls.len();
    let mut i: usize = 0;
    while i < n
        invariant
            0 <= i <= n == ls.len(),
            lv == lines_spec(text@),
            ls.deep_view() == lv,
            hostname_scan(lv, 0) == hostname_scan(lv, i as int),
        decreases n - i,
    {
        proof {
            assert(lv[i as int] == ls@[i as int]@);
        }
        let line = ls[i].as_str();
        let hit = contains_sub(line, "name =") || contains_sub(line, "domain name pointer");
        if hit {
            let toks = split_ws(line);
            if toks.len() > 0 {
                let lastix = toks.len() - 1;
                proof {
                    assert(toks.deep_view()[lastix as int] == toks@[lastix as int]@);
                    assert(split_ws_spec(lv[i as int]).last() == toks@[lastix as int]@);
                }
                let name = trim_trailing(toks[lastix].as_str(), '.');
                proof {
                    assert(hostname_line(lv[i as int]));
                    assert(split_ws_spec(lv[i as int]).len() > 0);
                    assert(hostname_scan(lv, i as int) == Some(name@));
                }
                return Some(name);
            }
        }
        i = i + 1;
    }
    None
}

// ---------------------------------------------------------------------------
// Reconciling ARP-cache entries with a ping sweep
// ---------------------------------------------------------------------------

/// A MAC string that looks resolved: not `incomplete`, long enough to be
/// six octet groups.
pub open spec fn mac_plausible(m: Seq<char>) -> bool {
    !contains_sub_spec(m, "incomplete"@) && m.len() >= 11
}

/// An ARP-cache entry that may seed the device map: on the subnet, with a
/// plausible MAC.
pub open spec fn valid_arp_entry(prefix: Seq<char>, d: DeviceV) -> bool {
    starts_with_spec(d.ip, prefix) && match d.mac {
        Some(m) => mac_plausible(m),
        None => false,
    }
}

/// Whether some valid ARP entry carries this address.
pub open spec fn arp_ip_known(prefix: Seq<char>, arpv: Seq<DeviceV>, ip: Seq<char>) -> bool {
    exists|i: int|
        0 <= i < arpv.len() && valid_arp_entry(prefix, #[trigger] arpv[i]) && arpv[i].ip == ip
}

/// The index of the last valid ARP entry carrying this address
/// (cache entries overwrite earlier ones), `-1` if there is none.
pub open spec fn last_arp_idx(prefix: Seq<char>, arpv: Seq<DeviceV>, ip: Seq<char>) -> int
    decreases arpv.len(),
{
    if arpv.len() == 0 {
        -1
    } else if valid_arp_entry(prefix, arpv.last()) && arpv.last().ip == ip {
        arpv.len() - 1
    } else {
        last_arp_idx(prefix, arpv.drop_last(), ip)
    }
}

/// The device seeded from the ARP cache for a known address.
pub open spec fn arp_device(prefix: Seq<char>, arpv: Seq<DeviceV>, ip: Seq<char>) -> DeviceV {
    let d = arpv[last_arp_idx(prefix, arpv, ip)];
    DeviceV { ip: ip, mac: d.mac, hostname: d.hostname, is_online: true }
}

/// The device reported for an address that answered the ping sweep:
/// ARP-seeded fields when the cache knows it, bare otherwise.
pub open spec fn merged_device(prefix: Seq<char>, arpv: Seq<DeviceV>, ip: Seq<char>) -> DeviceV {
    if arp_ip_known(prefix, arpv, ip) {
        arp_device(prefix, arpv, ip)
    } else {
        DeviceV { ip: ip, mac: None, hostname: None, is_online: true }
    }
}

/// What discovery returns: exactly one device per address that answered
/// the ping sweep, each seeded from the last valid ARP entry for it.
pub open spec fn discovery_post(
    prefix: Seq<char>,
    arpv: Seq<DeviceV>,
    pset: Set<Seq<char>>,
    rv: Seq<DeviceV>,
) -> bool {
    &&& forall|k: int|
        0 <= k < rv.len() ==> pset.contains(#[trigger] rv[k].ip) && rv[k] == merged_device(
            prefix,
            arpv,
            rv[k].ip,
        )
    &&& forall|ip: Seq<char>|
        #[trigger] pset.contains(ip) ==> exists|k: int| 0 <= k < rv.len() && rv[k].ip == ip
    &&& forall|k1: int, k2: int| 0 <= k1 < k2 < rv.len() ==> rv[k1].ip != rv[k2].ip
}

/// Ascending order by last address octet.
pub open spec fn sorted_by_octet(rv: Seq<DeviceV>) -> bool {
    forall|k: int|
        0 <= k < rv.len() - 1 ==> last_octet_spec(#[trigger] rv[k].ip) <= last_octet_spec(
            rv[k + 1].ip,
        )
}

fn arp_entry_valid(prefix: &str, d: &NetworkDevice) -> (r: bool)
    ensures
        r == valid_arp_entry(prefix@, d@),
{
    if !starts_with(d.ip.as_str(), prefix) {
        return false;
    }
    match &d.mac {
        Some(m) => !contains_sub(m.as_str(), "incomplete") && str_len(m.as_str()) >= 11,
        None => false,
    }
}

/// The index in `v` of the device with this address, if any.
fn find_by_ip(v: &Vec<NetworkDevice>, ip: &String) -> (r: Option<usize>)
    ensures
        match r {
            Some(j) => j < v.len() && v@[j as int]@.ip == ip@,
            None => forall|k: int| 0 <= k < v.len() ==> (#[trigger] v@[k]@.ip) != ip@,
        },
{
    let n = v.len();
    let mut i: usize = 0;
    while i < n
        invariant
            0 <= i <= n == v.len(),
            forall|k: int| 0 <= k < i ==> (#[trigger] v@[k]@.ip) != ip@,
        decreases n - i,
    {
        if v[i].ip == *ip {
            return Some(i);
        }
        i = i + 1;
    }
    None
}

/// Whether the string list holds `s`.
pub fn list_contains_str(v: &Vec<String>, s: &String) -> (r: bool)
    ensures
        r == v.deep_view().contains(s@),
{
    let n = v.len();
    let mut i: usize = 0;
    while i < n
        invariant
            0 <= i <= n == v.len(),
            forall|k: int| 0 <= k < i ==> (#[trigger] v.deep_view()[k]) != s@,
        decreases n - i,
    {
        proof {
            assert(v.deep_view()[i as int] == v@[i as int]@);
        }
        if v[i] == *s {
            proof {
                assert(v.deep_view().contains(s@));
            }
            return true;
        }
        i = i + 1;
    }
    proof {
        if v.deep_view().contains(s@) {
            let w = choose|w: int| 0 <= w < v.deep_view().len() && v.deep_view()[w] == s@;
            assert(false);
        }
    }
    false
}

fn clone_opt_string(o: &Option<String>) -> (r: Option<String>)
    ensures
        opt_view(r) == opt_view(*o),
{
    match o {
        Some(s) => Some(s.clone()),
        None => None,
    }
}

/// A valid entry at `i` with no later valid entry for the same address is
/// the one the cache ends up holding.
proof fn lemma_last_arp_from(prefix: Seq<char>, arpv: Seq<DeviceV>, i: int)
    requires
        0 <= i < arpv.len(),
        valid_arp_entry(prefix, arpv[i]),
        forall|j: int|
            i < j < arpv.len() ==> !(valid_arp_entry(prefix, #[trigger] arpv[j]) && arpv[j].ip
                == arpv[i].ip),
    ensures
        arp_ip_known(prefix, arpv, arpv[i].ip),
        last_arp_idx(prefix, arpv, arpv[i].ip) == i,
    decreases arpv.len(),
{
    let ip = arpv[i].ip;
    assert(arp_ip_known(prefix, arpv, ip));
    if i == arpv.len() - 1 {
    } else {
        assert(!(valid_arp_entry(prefix, arpv.last()) && arpv.last().ip == ip));
        assert(arpv.drop_last()[i] == arpv[i]);
        assert forall|j: int| i < j < arpv.drop_last().len() implies !(valid_arp_entry(
            prefix,
            #[trigger] arpv.drop_last()[j],
        ) && arpv.drop_last()[j].ip == ip) by {
            assert(arpv.drop_last()[j] == arpv[j]);
        }
        lemma_last_arp_from(prefix, arpv.drop_last(), i);
    }
}

/// Whether some device in the list carries this address.
#[verifier::opaque]
pub open spec fn has_ip(s: Seq<NetworkDevice>, ip: Seq<char>) -> bool {
    exists|k: int| 0 <= k < s.len() && (#[trigger] s[k])@.ip == ip
}

/// A correctly seeded cache entry: its address is known to the cache and
/// its fields come from the entry the cache ends up holding.
#[verifier::opaque]
pub open spec fn good_seed(prefix: Seq<char>, arpv: Seq<DeviceV>, d: DeviceV) -> bool {
    arp_ip_known(prefix, arpv, d.ip) && d == arp_device(prefix, arpv, d.ip)
}

/// A correct output entry: its address answered the sweep and its fields
/// are the reconciled ones.
#[verifier::opaque]
pub open spec fn good_out(
    prefix: Seq<char>,
    arpv: Seq<DeviceV>,
    pingv: Seq<Seq<char>>,
    d: DeviceV,
) -> bool {
    pingv.contains(d.ip) && d == merged_device(prefix, arpv, d.ip)
}

proof fn lemma_has_ip_push(s: Seq<NetworkDevice>, d: NetworkDevice, ip: Seq<char>)
    ensures
        has_ip(s, ip) ==> has_ip(s.push(d), ip),
        d@.ip == ip ==> has_ip(s.push(d), ip),
{
    reveal(has_ip);
    if has_ip(s, ip) {
        let k = choose|k: int| 0 <= k < s.len() && (#[trigger] s[k])@.ip == ip;
        assert(s.push(d)[k] == s[k]);
    }
    if d@.ip == ip {
        assert(s.push(d)[s.len() as int] == d);
    }
}

proof fn lemma_has_ip_take(s: Seq<NetworkDevice>, j: int, ip: Seq<char>)
    requires
        0 <= j < s.len(),
    ensures
        has_ip(s.take(j), ip) ==> has_ip(s.take(j + 1), ip),
        s[j]@.ip == ip ==> has_ip(s.take(j + 1), ip),
{
    reveal(has_ip);
    if has_ip(s.take(j), ip) {
        let k = choose|k: int|
            0 <= k < s.take(j).len() && (#[trigger] s.take(j)[k])@.ip == ip;
        assert(s.take(j + 1)[k] == s.take(j)[k]);
    }
    if s[j]@.ip == ip {
        assert(s.take(j + 1)[j] == s[j]);
    }
}

/// Builds the unsorted reconciled device list: ARP-cache seeds overlaid
/// with ping-sweep responders, entries that did not answer dropped.
fn merge_arp_ping(prefix: &str, arp: &Vec<NetworkDevice>, ping: &Vec<String>) -> (r: Vec<
    NetworkDevice,
>)
    ensures
        discovery_post(prefix@, devs_view(arp@), ping.deep_view().to_set(), devs_view(r@)),
{
    let ghost prefixv = prefix@;
    let ghost arpv = devs_view(arp@);
    let ghost pingv = ping.deep_view();

    // Seed from valid ARP entries, walking backward so that the entry the
    // cache would end up holding (the last one) is the one kept.
    let mut seed: Vec<NetworkDevice> = Vec::new();
    let na = arp.len();
    let mut i: usize = na;
    while i > 0
        invariant
            0 <= i <= na == arp.len(),
            prefixv == prefix@,
            arpv == devs_view(arp@),
            forall|k: int|
                0 <= k < seed.len() ==> good_seed(prefixv, arpv, (#[trigger] seed@[k])@),
            forall|j: int|
                i <= j < na && valid_arp_entry(prefixv, #[trigger] arpv[j]) ==> has_ip(
                    seed@,
                    arpv[j].ip,
                ),
            forall|k1: int, k2: int|
                0 <= k1 < k2 < seed.len() ==> seed@[k1]@.ip != seed@[k2]@.ip,
        decreases i,
    {
        i = i - 1;
        let e = &arp[i];
        proof {
            assert(arpv[i as int] == arp@[i as int]@);
        }
        if arp_entry_valid(prefix, e) {
            match find_by_ip(&seed, &e.ip) {
                Some(_) => {
                    proof {
                        reveal(has_ip);
                        assert forall|j: int|
                            i <= j < na && valid_arp_entry(
                                prefixv,
                                #[trigger] arpv[j],
                            ) implies has_ip(seed@, arpv[j].ip) by {}
                    }
                },
                None => {
                    proof {
                        reveal(has_ip);
                        assert forall|j: int|
                            i < j < na implies !(valid_arp_entry(prefixv, #[trigger] arpv[j])
                            && arpv[j].ip == arpv[i as int].ip) by {
                            if valid_arp_entry(prefixv, arpv[j]) && arpv[j].ip == arpv[
                                i as int
                            ].ip {
                                assert(has_ip(seed@, arpv[j].ip));
                            }
                        }
                        lemma_last_arp_from(prefixv, arpv, i as int);
                    }
                    let nd = NetworkDevice {
                        ip: e.ip.clone(),
                        mac: clone_opt_string(&e.mac),
                        hostname: clone_opt_string(&e.hostname),
                        is_online: true,
                    };
                    let ghost s0 = seed@;
                    proof {
                        reveal(good_seed);
                        assert(nd@ == arp_device(prefixv, arpv, arpv[i as int].ip));
                        assert(good_seed(prefixv, arpv, nd@));
                    }
                    seed.push(nd);
                    proof {
                        assert forall|j: int|
                            i <= j < na && valid_arp_entry(
                                prefixv,
                                #[trigger] arpv[j],
                            ) implies has_ip(seed@, arpv[j].ip) by {
                            lemma_has_ip_push(s0, nd, arpv[j].ip);
                            if j > i {
                                reveal(has_ip);
                            }
                        }
                        reveal(has_ip);
                        assert forall|k1: int, k2: int|
                            0 <= k1 < k2 < seed.len() implies seed@[k1]@.ip != seed@[k2]@.ip by {
                            if k2 == seed.len() - 1 {
                                assert(seed@[k1] == s0[k1]);
                            }
                        }
                    }
                },
            }
        }
    }

    // Keep the seeds that answered the sweep, marked online.
    let mut out: Vec<NetworkDevice> = Vec::new();
    let ns = seed.len();
    let mut j: usize = 0;
    while j < ns
        invariant
            0 <= j <= ns == seed.len(),
            prefixv == prefix@,
            arpv == devs_view(arp@),
            pingv == ping.deep_view(),
            forall|k: int|
                0 <= k < seed.len() ==> good_seed(prefixv, arpv, (#[trigger] seed@[k])@),
            forall|jj: int|
                0 <= jj < na && valid_arp_entry(prefixv, #[trigger] arpv[jj]) ==> has_ip(
                    seed@,
                    arpv[jj].ip,
                ),
            forall|k1: int, k2: int|
                0 <= k1 < k2 < seed.len() ==> seed@[k1]@.ip != seed@[k2]@.ip,
            forall|k: int|
                0 <= k < out.len() ==> good_out(prefixv, arpv, pingv, (#[trigger] out@[k])@),
            forall|k: int|
                0 <= k < out.len() ==> has_ip(seed@.take(j as int), (#[trigger] out@[k])@.ip),
            forall|k1: int, k2: int| 0 <= k1 < k2 < out.len() ==> out@[k1]@.ip != out@[k2]@.ip,
            forall|m: int|
                0 <= m < j && pingv.contains((#[trigger] seed@[m])@.ip) ==> has_ip(
                    out@,
                    seed@[m]@.ip,
                ),
        decreases ns - j,
    {
        let e = &seed[j];
        let ghost o0 = out@;
        if list_contains_str(ping, &e.ip) {
            let nd = NetworkDevice {
                ip: e.ip.clone(),
                mac: clone_opt_string(&e.mac),
                hostname: clone_opt_string(&e.hostname),
                is_online: true,
            };
            proof {
                reveal(good_seed);
                reveal(good_out);
                assert(good_seed(prefixv, arpv, seed@[j as int]@));
                assert(nd@ == seed@[j as int]@);
                assert(merged_device(prefixv, arpv, nd@.ip) == arp_device(
                    prefixv,
                    arpv,
                    nd@.ip,
                ));
                assert(good_out(prefixv, arpv, pingv, nd@));
            }
            out.push(nd);
            proof {
                assert forall|k: int| 0 <= k < out.len() implies has_ip(
                    seed@.take(j as int + 1),
                    (#[trigger] out@[k])@.ip,
                ) by {
                    lemma_has_ip_take(seed@, j as int, out@[k]@.ip);
                    if k < out.len() - 1 {
                        assert(out@[k] == o0[k]);
                    } else {
                        assert(out@[k]@.ip == seed@[j as int]@.ip);
                    }
                }
                assert forall|k1: int, k2: int|
                    0 <= k1 < k2 < out.len() implies out@[k1]@.ip != out@[k2]@.ip by {
                    if k2 == out.len() - 1 {
                        assert(out@[k1] == o0[k1]);
                        assert(has_ip(seed@.take(j as int), o0[k1]@.ip));
                        reveal(has_ip);
                        let m = choose|m: int|
                            0 <= m < seed@.take(j as int).len() && (#[trigger] seed@.take(
                                j as int,
                            )[m])@.ip == o0[k1]@.ip;
                        assert(seed@[m] == seed@.take(j as int)[m]);
                    }
                }
                assert forall|m: int|
                    0 <= m < j + 1 && pingv.contains((#[trigger] seed@[m])@.ip) implies has_ip(
                        out@,
                        seed@[m]@.ip,
                    ) by {
                    if m < j {
                        lemma_has_ip_push(o0, nd, seed@[m]@.ip);
                    } else {
                        lemma_has_ip_push(o0, nd, nd@.ip);
                    }
                }
            }
        } else {
            proof {
                assert forall|k: int| 0 <= k < out.len() implies has_ip(
                    seed@.take(j as int + 1),
                    (#[trigger] out@[k])@.ip,
                ) by {
                    lemma_has_ip_take(seed@, j as int, out@[k]@.ip);
                }
                assert forall|m: int|
                    0 <= m < j + 1 && pingv.contains((#[trigger] seed@[m])@.ip) implies has_ip(
                        out@,
                        seed@[m]@.ip,
                    ) by {}
            }
        }
        j = j + 1;
    }

    // Add responders the cache did not know.
    let np = ping.len();
    let mut p: usize = 0;
    while p < np
        invariant
            0 <= p <= np == ping.len(),
            prefixv == prefix@,
            arpv == devs_view(arp@),
            pingv == ping.deep_view(),
            forall|jj: int|
                0 <= jj < na && valid_arp_entry(prefixv, #[trigger] arpv[jj]) ==> has_ip(
                    seed@,
                    arpv[jj].ip,
                ),
            na == arp.len(),
            forall|k: int|
                0 <= k < out.len() ==> good_out(prefixv, arpv, pingv, (#[trigger] out@[k])@),
            forall|k1: int, k2: int| 0 <= k1 < k2 < out.len() ==> out@[k1]@.ip != out@[k2]@.ip,
            forall|m: int|
                0 <= m < seed.len() && pingv.contains((#[trigger] seed@[m])@.ip) ==> has_ip(
                    out@,
                    seed@[m]@.ip,
                ),
            forall|m: int| 0 <= m < p ==> has_ip(out@, #[trigger] pingv[m]),
        decreases np - p,
    {
        let ipstr = &ping[p];
        let ghost o0 = out@;
        proof {
            assert(pingv[p as int] == ping@[p as int]@);
        }
        match find_by_ip(&seed, ipstr) {
            Some(m) => {
                proof {
                    assert(pingv.contains(seed@[m as int]@.ip));
                    assert(has_ip(out@, pingv[p as int]));
                }
            },
            None => {
                match find_by_ip(&out, ipstr) {
                    Some(k) => {
                        proof {
                            reveal(has_ip);
                            assert(has_ip(out@, pingv[p as int]));
                        }
                    },
                    None => {
                        let nd = NetworkDevice {
                            ip: ipstr.clone(),
                            mac: None,
                            hostname: None,
                            is_online: true,
                        };
                        proof {
                            reveal(good_out);
                            if arp_ip_known(prefixv, arpv, ipstr@) {
                                let jj = choose|jj: int|
                                    0 <= jj < arpv.len() && valid_arp_entry(
                                        prefixv,
                                        #[trigger] arpv[jj],
                                    ) && arpv[jj].ip == ipstr@;
                                assert(has_ip(seed@, ipstr@));
                                reveal(has_ip);
                                assert(false);
                            }
                            assert(nd@ == merged_device(prefixv, arpv, ipstr@));
                            assert(pingv.contains(ipstr@));
                            assert(good_out(prefixv, arpv, pingv, nd@));
                        }
                        out.push(nd);
                        proof {
                            assert forall|k1: int, k2: int|
                                0 <= k1 < k2 < out.len() implies out@[k1]@.ip
                                != out@[k2]@.ip by {
                                if k2 == out.len() - 1 {
                                    assert(out@[k1] == o0[k1]);
                                }
                            }
                            assert forall|m: int|
                                0 <= m < seed.len() && pingv.contains(
                                    (#[trigger] seed@[m])@.ip,
                                ) implies has_ip(out@, seed@[m]@.ip) by {
                                lemma_has_ip_push(o0, nd, seed@[m]@.ip);
                            }
                            assert forall|m: int| 0 <= m < p + 1 implies has_ip(
                                out@,
                                #[trigger] pingv[m],
                            ) by {
                                lemma_has_ip_push(o0, nd, pingv[m]);
                            }
                        }
                    },
                }
            },
        }
        p = p + 1;
    }
    proof {
        let pset = pingv.to_set();
        let rv = devs_view(out@);
        assert forall|ip: Seq<char>| #[trigger] pset.contains(ip) implies exists|k: int|
            0 <= k < rv.len() && rv[k].ip == ip by {
            assert(pingv.contains(ip));
            let m = choose|m: int| 0 <= m < pingv.len() && pingv[m] == ip;
            assert(has_ip(out@, pingv[m]));
            reveal(has_ip);
            let k = choose|k: int| 0 <= k < out@.len() && (#[trigger] out@[k])@.ip == ip;
            assert(rv[k] == out@[k]@);
        }
        assert forall|k: int| 0 <= k < rv.len() implies pset.contains((#[trigger] rv[k]).ip)
            && rv[k] == merged_device(prefixv, arpv, rv[k].ip) by {
            assert(rv[k] == out@[k]@);
            reveal(good_out);
        }
        assert forall|k1: int, k2: int|
            0 <= k1 < k2 < rv.len() implies rv[k1].ip != rv[k2].ip by {
            assert(rv[k1] == out@[k1]@);
            assert(rv[k2] == out@[k2]@);
        }
    }
    out
}

/// Sorts devices ascending by the last octet of their address, keeping
/// exactly the same devices.
#[verifier::rlimit(100)]
#[verifier::spinoff_prover]
pub fn sort_devices_by_octet(devices: Vec<NetworkDevice>) -> (r: Vec<NetworkDevice>)
    ensures
        devs_view(r@).to_multiset() == devs_view(devices@).to_multiset(),
        sorted_by_octet(devs_view(r@)),
{
    let mut v = devices;
    let ghost v0 = devs_view(v@);
    let n = v.len();
    if n <= 1 {
        proof {
            assert(devs_view(v@).to_multiset() =~= v0.to_multiset());
        }
        return v;
    }
    let mut i: usize = 1;
    while i < n
        invariant
            n == v.len(),
            1 <= i <= n,
            devs_view(v@).to_multiset() == v0.to_multiset(),
            forall|k: int|
                0 <= k < i - 1 ==> last_octet_spec((#[trigger] v@[k])@.ip) <= last_octet_spec(
                    v@[k + 1]@.ip,
                ),
        decreases n - i,
    {
        let ghost va = v@;
        let x = v.remove(i);
        let kx = last_octet(x.ip.as_str());
        let mut j: usize = i;
        while j > 0 && last_octet(v[j - 1].ip.as_str()) > kx
            invariant
                0 <= j <= i < n,
                n == va.len(),
                v@ == va.remove(i as int),
                kx == last_octet_spec(x@.ip),
                forall|m: int|
                    j <= m < i ==> last_octet_spec((#[trigger] v@[m])@.ip) > kx,
            decreases j,
        {
            j = j - 1;
        }
        let ghost v1 = v@;
        v.insert(j, x);
        proof {
            broadcast use vstd::seq_lib::group_to_multiset_ensures;
            broadcast use vstd::multiset::group_multiset_axioms;

            let dva = devs_view(va);
            let dv1 = devs_view(v1);
            let dv2 = devs_view(v@);
            assert(dv1 =~= dva.remove(i as int));
            assert(dv2 =~= dv1.insert(j as int, x@));
            crate::sorting::lemma_to_multiset_insert(dv1, j as int, x@);
            assert(x == va[i as int]);
            assert(dva[i as int] == va[i as int]@);
            assert(dva.contains(dva[i as int]));
            assert(dva.to_multiset().count(x@) > 0);
            assert(dv2.to_multiset() =~= dva.to_multiset());
            // the prefix one longer is sorted: the scan found the slot
            dv1.insert_ensures(j as int, x@);
            assert forall|k: int|
                0 <= k < i implies last_octet_spec((#[trigger] dv2[k]).ip) <= last_octet_spec(
                    dv2[k + 1].ip,
                ) by {
                assert(forall|m: int| 0 <= m < n - 1 ==> dv1[m] == devs_view(v1)[m]);
                assert(forall|m: int| 0 <= m < i ==> va.remove(i as int)[m] == va[m]);
                assert(forall|m: int| 0 <= m < i ==> dv1[m] == va[m]@);
                if k + 1 < j {
                    assert(dv2[k] == dv1[k]);
                    assert(dv2[k + 1] == dv1[k + 1]);
                } else if k + 1 == j {
                    assert(dv2[k] == dv1[k]);
                    assert(dv2[k + 1] == x@);
                } else if k == j {
                    assert(dv2[k] == x@);
                    assert(dv2[k + 1] == dv1[k]);
                } else {
                    assert(dv2[k] == dv1[k - 1]);
                    assert(dv2[k + 1] == dv1[k]);
                }
            }
        }
        i = i + 1;
    }
    proof {
        assert(sorted_by_octet(devs_view(v@)));
    }
    v
}

/// A permutation of a correct discovery result is itself correct.
proof fn lemma_post_permutation(
    prefix: Seq<char>,
    arpv: Seq<DeviceV>,
    pset: Set<Seq<char>>,
    av: Seq<DeviceV>,
    bv: Seq<DeviceV>,
)
    requires
        discovery_post(prefix, arpv, pset, av),
        av.to_multiset() == bv.to_multiset(),
    ensures
        discovery_post(prefix, arpv, pset, bv),
{
    broadcast use vstd::seq_lib::group_to_multiset_ensures;
    broadcast use vstd::multiset::group_multiset_axioms;

    assert forall|k: int| 0 <= k < bv.len() implies pset.contains((#[trigger] bv[k]).ip) && bv[k]
        == merged_device(prefix, arpv, bv[k].ip) by {
        assert(bv.contains(bv[k]));
        assert(av.to_multiset().count(bv[k]) > 0);
        assert(av.contains(bv[k]));
        let m = choose|m: int| 0 <= m < av.len() && av[m] == bv[k];
        assert(pset.contains(av[m].ip));
    }
    assert forall|ip: Seq<char>| #[trigger] pset.contains(ip) implies exists|k: int|
        0 <= k < bv.len() && bv[k].ip == ip by {
        let m = choose|m: int| 0 <= m < av.len() && av[m].ip == ip;
        assert(av.contains(av[m]));
        assert(bv.to_multiset().count(av[m]) > 0);
        assert(bv.contains(av[m]));
        let k = choose|k: int| 0 <= k < bv.len() && bv[k] == av[m];
        assert(bv[k].ip == ip);
    }
    assert(av.no_duplicates()) by {
        assert forall|k1: int, k2: int|
            0 <= k1 < av.len() && 0 <= k2 < av.len() && k1 != k2 implies av[k1] != av[k2] by {
            if k1 < k2 {
                assert(av[k1].ip != av[k2].ip);
            } else {
                assert(av[k2].ip != av[k1].ip);
            }
        }
    }
    av.lemma_multiset_has_no_duplicates();
    bv.lemma_multiset_has_no_duplicates_conv();
    assert forall|k1: int, k2: int|
        0 <= k1 < k2 < bv.len() implies bv[k1].ip != bv[k2].ip by {
        if bv[k1].ip == bv[k2].ip {
            assert(bv[k1] == merged_device(prefix, arpv, bv[k1].ip));
            assert(bv[k2] == merged_device(prefix, arpv, bv[k2].ip));
            assert(bv[k1] == bv[k2]);
        }
    }
}

/// Reconciles ARP-cache entries with the ping sweep's responders into the
/// final device list: exactly one entry per responding address, seeded
/// from the last valid cache entry for it, sorted by last octet.
///
/// Every address handed in from the sweep lies on the scanned subnet, so
/// every reported device's address starts with the subnet prefix.
pub fn reconcile_devices(prefix: &str, arp: &Vec<NetworkDevice>, ping: &Vec<String>) -> (r: Vec<
    NetworkDevice,
>)
    requires
        forall|i: int|
            0 <= i < ping.len() ==> starts_with_spec(#[trigger] ping.deep_view()[i], prefix@),
    ensures
        discovery_post(prefix@, devs_view(arp@), ping.deep_view().to_set(), devs_view(r@)),
        sorted_by_octet(devs_view(r@)),
        forall|k: int|
            0 <= k < devs_view(r@).len() ==> starts_with_spec(
                (#[trigger] devs_view(r@)[k]).ip,
                prefix@,
            ),
{
    let merged = merge_arp_ping(prefix, arp, ping);
    let ghost mv = devs_view(merged@);
    let r = sort_devices_by_octet(merged);
    proof {
        let pset = ping.deep_view().to_set();
        lemma_post_permutation(prefix@, devs_view(arp@), pset, mv, devs_view(r@));
        assert forall|k: int| 0 <= k < devs_view(r@).len() implies starts_with_spec(
            (#[trigger] devs_view(r@)[k]).ip,
            prefix@,
        ) by {
            let ip = devs_view(r@)[k].ip;
            assert(pset.contains(ip));
            assert(ping.deep_view().contains(ip));
            let m = choose|m: int|
                0 <= m < ping.deep_view().len() && ping.deep_view()[m] == ip;
        }
    }
    r
}

/// The three-octet prefix of a subnet string: the part before any slash
/// must be four dot-separated fields, and the first three joined by dots
/// are the prefix. Anything else is rejected, so discovery over a
/// malformed subnet probes nothing.
pub open spec fn subnet_prefix_spec(s: Seq<char>) -> Option<Seq<char>> {
    let base = crate::text::split_char_spec(s, '/')[0];
    let parts = crate::text::split_char_spec(base, '.');
    if parts.len() != 4 {
        None
    } else {
        Some(parts[0] + "."@ + parts[1] + "."@ + parts[2])
    }
}

/// Extracts the three-octet prefix of an `a.b.c.0/24` subnet string.
pub fn subnet_prefix(subnet: &str) -> (r: Option<String>)
    ensures
        match r {
            Some(p) => subnet_prefix_spec(subnet@) == Some(p@),
            None => subnet_prefix_spec(subnet@) is None,
        },
{
    let halves = crate::text::split_char(subnet, '/');
    let ghost hv = crate::text::split_char_spec(subnet@, '/');
    proof {
        assert(hv[0] == halves@[0]@);
    }
    let base = halves[0].as_str();
    let parts = crate::text::split_char(base, '.');
    let ghost pv = crate::text::split_char_spec(hv[0], '.');
    if parts.len() != 4 {
        return None;
    }
    proof {
        assert(pv[0] == parts@[0]@);
        assert(pv[1] == parts@[1]@);
        assert(pv[2] == parts@[2]@);
    }
    let mut p = parts[0].clone();
    p.append(".");
    p.append(parts[1].as_str());
    p.append(".");
    p.append(parts[2].as_str());
    proof {
        assert(p@ =~= pv[0] + "."@ + pv[1] + "."@ + pv[2]);
    }
    Some(p)
}

/// The sweep probes exactly the hosts `.1` through `.254` of the /24:
/// no network, broadcast or out-of-range address is ever probed.
pub fn sweep_hosts(prefix: &str) -> (r: Vec<String>)
    ensures
        r.len() == 254,
        forall|i: int|
            0 <= i < 254 ==> r.deep_view()[i] == prefix@ + "."@ + crate::text::dec_digits(
                (i + 1) as nat,
            ),
        forall|i: int|
            0 <= i < 254 ==> starts_with_spec(#[trigger] r.deep_view()[i], prefix@),
{
    let mut r: Vec<String> = Vec::new();
    let mut k: u32 = 1;
    while k <= 254
        invariant
            1 <= k <= 255,
            r.len() == k - 1,
            forall|i: int|
                0 <= i < k - 1 ==> r.deep_view()[i] == prefix@ + "."@ + crate::text::dec_digits(
                    (i + 1) as nat,
                ),
        decreases 255 - k,
    {
        let mut h = String::from_str(prefix);
        crate::text::push_char(&mut h, '.');
        crate::text::push_dec(&mut h, k);
        proof {
            assert(seq!['.'] =~= "."@) by {
                reveal_strlit(".");
            }
            assert(h@ =~= prefix@ + "."@ + crate::text::dec_digits(k as nat));
        }
        let ghost r0 = r@;
        proof {
            assert forall|i: int|
                0 <= i < k - 1 implies r0[i]@ == prefix@ + "."@ + crate::text::dec_digits(
                (i + 1) as nat,
            ) by {
                assert(r.deep_view()[i] == r@[i]@);
            }
        }
        r.push(h);
        proof {
            assert forall|i: int|
                0 <= i < k implies r.deep_view()[i] == prefix@ + "."@
                + crate::text::dec_digits((i + 1) as nat) by {
                assert(r.deep_view()[i] == r@[i]@);
                if i < k - 1 {
                    assert(r@[i] == r0[i]);
                    assert(r0[i]@ == prefix@ + "."@ + crate::text::dec_digits((i + 1) as nat));
                } else {
                    assert(r@[i] == h);
                }
            }
        }
        k = k + 1;
    }
    proof {
        assert forall|i: int| 0 <= i < 254 implies starts_with_spec(
            #[trigger] r.deep_view()[i],
            prefix@,
        ) by {
            let h = r.deep_view()[i];
            assert(h == prefix@ + "."@ + crate::text::dec_digits((i + 1) as nat));
            assert(h.subrange(0, prefix@.len() as int) =~= prefix@);
        }
    }
    r
}

/// One discovery pass over a subnet, with its stamp.
#[derive(Debug, Clone)]
pub struct NetworkScanResult {
    pub subnet: String,
    pub devices: Vec<NetworkDevice>,
    pub scan_time: String,
}

/// Discovery is stable over a quiet network: two passes that see the same
/// ARP snapshot and the same set of ping responders — in whatever order
/// the sweeps completed — report exactly the same devices.
pub proof fn lemma_discovery_stable(
    prefix: Seq<char>,
    arpv: Seq<DeviceV>,
    pset: Set<Seq<char>>,
    r1: Seq<DeviceV>,
    r2: Seq<DeviceV>,
)
    requires
        discovery_post(prefix, arpv, pset, r1),
        discovery_post(prefix, arpv, pset, r2),
    ensures
        r1.to_set() == r2.to_set(),
{
    assert forall|d: DeviceV| #[trigger] r1.contains(d) implies r2.contains(d) by {
        let k = choose|k: int| 0 <= k < r1.len() && r1[k] == d;
        assert(pset.contains(r1[k].ip));
        let k2 = choose|k2: int| 0 <= k2 < r2.len() && r2[k2].ip == r1[k].ip;
        assert(r2[k2] == merged_device(prefix, arpv, r2[k2].ip));
        assert(r2[k2] == d);
    }
    assert forall|d: DeviceV| #[trigger] r2.contains(d) implies r1.contains(d) by {
        let k = choose|k: int| 0 <= k < r2.len() && r2[k] == d;
        assert(pset.contains(r2[k].ip));
        let k2 = choose|k2: int| 0 <= k2 < r1.len() && r1[k2].ip == r2[k].ip;
        assert(r1[k2] == merged_device(prefix, arpv, r1[k2].ip));
        assert(r1[k2] == d);
    }
    assert(r1.to_set() =~= r2.to_set());
}

} // verus!

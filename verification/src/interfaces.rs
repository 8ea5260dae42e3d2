//! Interface resolution: deriving each adapter's /24 subnet, de-duplicated
//! and ordered, with static private-range fallbacks. The adapter
//! enumeration itself comes from the `local-ip-address` crate behind
//! trusted wrappers; everything derived from it is verified.

use vstd::prelude::*;
use crate::text::{last_char_idx, rfind_char, str_len, substring_copy};
use crate::discovery::list_contains_str;

verus! {

/// A local adapter's usable IPv4 context.
#[derive(Debug, Clone)]
pub struct NetworkInterface {
    pub name: String,
    pub ip: String,
    pub netmask: String,
    pub subnet: String,
}

/// The mathematical value of a `NetworkInterface`.
pub ghost struct IfaceV {
    pub name: Seq<char>,
    pub ip: Seq<char>,
    pub netmask: Seq<char>,
    pub subnet: Seq<char>,
}

impl View for NetworkInterface {
    type V = IfaceV;

    open spec fn view(&self) -> IfaceV {
        IfaceV { name: self.name@, ip: self.ip@, netmask: self.netmask@, subnet: self.subnet@ }
    }
}

/// Relies on `local_ip_address::list_afinet_netifas`: one tuple per
/// interface address, as (name, address rendered in its dotted or colon
/// form, whether IPv4, whether loopback). The list depends on the
/// machine, so nothing more is promised of it.
#[verifier::external_body]
fn list_interface_addrs() -> (r: Vec<(String, String, bool, bool)>) {
    match local_ip_address::list_afinet_netifas() {
        Ok(v) => v.into_iter().map(
            |(name, ip)| (name, ip.to_string(), ip.is_ipv4(), ip.is_loopback()),
        ).collect(),
        Err(_) => Vec::new(),
    }
}

/// Relies on `local_ip_address::local_ip`: the machine's best-guess local
/// address, rendered, with whether it is IPv4. Machine-dependent, so
/// nothing more is promised.
#[verifier::external_body]
fn local_ip_addr() -> (r: Option<(String, bool)>) {
    match local_ip_address::local_ip() {
        Ok(ip) => Some((ip.to_string(), ip.is_ipv4())),
        Err(_) => None,
    }
}

/// The /24 containing a dotted address: everything before the last dot,
/// then `.0/24`.
pub open spec fn subnet_spec(ip: Seq<char>) -> Seq<char> {
    let c = last_char_idx(ip, '.');
    (if c >= 0 {
        ip.take(c)
    } else {
        ip
    }) + ".0/24"@
}

/// Derives the /24 subnet string for a dotted address.
pub fn subnet_for(ip: &str) -> (r: String)
    ensures
        r@ == subnet_spec(ip@),
{
    let n = str_len(ip);
    let mut s = match rfind_char(ip, '.') {
        Some(c) => substring_copy(ip, 0, c),
        None => substring_copy(ip, 0, n),
    };
    proof {
        if last_char_idx(ip@, '.') < 0 {
            assert(ip@.subrange(0, n as int) =~= ip@);
        }
    }
    s.append(".0/24");
    s
}

pub open spec fn fallback_subnet(s: Seq<char>) -> bool {
    s == "192.168.1.0/24"@ || s == "192.168.0.0/24"@ || s == "10.0.0.0/24"@
}

/// What every resolved interface list satisfies: each entry either
/// carries a concrete address whose /24 is its subnet, or is a fallback
/// guess; subnets are distinct; all three fallback subnets are offered;
/// and concrete entries come before guesses.
pub open spec fn interfaces_post(rv: Seq<IfaceV>) -> bool {
    &&& forall|k: int|
        0 <= k < rv.len() ==> (#[trigger] rv[k]).netmask == "255.255.255.0"@ && (rv[k].ip.len()
            > 0 ==> rv[k].subnet == subnet_spec(rv[k].ip)) && (rv[k].ip.len() == 0
            ==> fallback_subnet(rv[k].subnet))
    &&& forall|k1: int, k2: int| 0 <= k1 < k2 < rv.len() ==> rv[k1].subnet != rv[k2].subnet
    &&& exists|k: int| 0 <= k < rv.len() && (#[trigger] rv[k]).subnet == "192.168.1.0/24"@
    &&& exists|k: int| 0 <= k < rv.len() && (#[trigger] rv[k]).subnet == "192.168.0.0/24"@
    &&& exists|k: int| 0 <= k < rv.len() && (#[trigger] rv[k]).subnet == "10.0.0.0/24"@
    &&& forall|k1: int, k2: int|
        0 <= k1 < k2 < rv.len() ==> !(rv[k1].ip.len() == 0 && rv[k2].ip.len() > 0)
}

/// The interface sequence as mathematical values.
pub open spec fn ifaces_view(s: Seq<NetworkInterface>) -> Seq<IfaceV> {
    crate::sorting::views_of(s)
}

fn subnet_present(v: &Vec<NetworkInterface>, subnet: &String) -> (r: bool)
    ensures
        r == subnet_taken(ifaces_view(v@), subnet@),
{
    let n = v.len();
    let mut i: usize = 0;
    while i < n
        invariant
            0 <= i <= n == v.len(),
            forall|k: int| 0 <= k < i ==> (#[trigger] v@[k])@.subnet != subnet@,
        decreases n - i,
    {
        if v[i].subnet == *subnet {
            proof {
                reveal(subnet_taken);
                assert(ifaces_view(v@)[i as int] == v@[i as int]@);
            }
            return true;
        }
        i = i + 1;
    }
    proof {
        reveal(subnet_taken);
        assert forall|k: int|
            0 <= k < ifaces_view(v@).len() implies (#[trigger] ifaces_view(v@)[k]).subnet
            != subnet@ by {
            assert(ifaces_view(v@)[k] == v@[k]@);
        }
    }
    false
}

/// An enumerated address the resolver keeps: IPv4, not loopback, with a
/// non-empty rendering.
pub open spec fn usable_addr(e: (String, String, bool, bool)) -> bool {
    e.2 && !e.3 && e.1@.len() > 0
}

/// Whether some entry already offers this subnet.
#[verifier::opaque]
pub open spec fn subnet_taken(acc: Seq<IfaceV>, s: Seq<char>) -> bool {
    exists|k: int| 0 <= k < acc.len() && (#[trigger] acc[k]).subnet == s
}

/// The concrete entries for an adapter enumeration: one per first-seen
/// distinct /24 among the usable addresses, in enumeration order.
pub open spec fn iface_collect(
    addrs: Seq<(String, String, bool, bool)>,
    i: int,
    acc: Seq<IfaceV>,
) -> Seq<IfaceV>
    decreases addrs.len() - i
        when 0 <= i
{
    if i >= addrs.len() {
        acc
    } else {
        let e = addrs[i];
        if usable_addr(e) && !subnet_taken(acc, subnet_spec(e.1@)) {
            iface_collect(
                addrs,
                i + 1,
                acc.push(
                    IfaceV {
                        name: e.0@,
                        ip: e.1@,
                        netmask: "255.255.255.0"@,
                        subnet: subnet_spec(e.1@),
                    },
                ),
            )
        } else {
            iface_collect(addrs, i + 1, acc)
        }
    }
}

/// The single best-guess entry, used only when nothing enumerates.
pub open spec fn with_guess(base: Seq<IfaceV>, guess: Option<(String, bool)>) -> Seq<IfaceV> {
    if base.len() == 0 {
        match guess {
            Some(g) => if g.1 && g.0@.len() > 0 {
                seq![
                    IfaceV {
                        name: "default"@,
                        ip: g.0@,
                        netmask: "255.255.255.0"@,
                        subnet: subnet_spec(g.0@),
                    },
                ]
            } else {
                base
            },
            None => base,
        }
    } else {
        base
    }
}

/// A fallback guess appended unless its subnet is already offered.
pub open spec fn with_fallback(cur: Seq<IfaceV>, subnet: Seq<char>, label: Seq<char>) -> Seq<
    IfaceV,
> {
    if subnet_taken(cur, subnet) {
        cur
    } else {
        cur.push(
            IfaceV { name: label, ip: Seq::empty(), netmask: "255.255.255.0"@, subnet: subnet },
        )
    }
}

/// Exactly what the resolver reports for an adapter enumeration and a
/// best-guess lookup outcome.
pub open spec fn resolved_interfaces(
    addrs: Seq<(String, String, bool, bool)>,
    guess: Option<(String, bool)>,
) -> Seq<IfaceV> {
    with_fallback(
        with_fallback(
            with_fallback(
                with_guess(iface_collect(addrs, 0, Seq::empty()), guess),
                "192.168.1.0/24"@,
                "192.168.1.x"@,
            ),
            "192.168.0.0/24"@,
            "192.168.0.x"@,
        ),
        "10.0.0.0/24"@,
        "10.0.0.x"@,
    )
}

/// Resolves an adapter enumeration into subnet candidates: one entry per
/// first-seen distinct /24 among the non-loopback IPv4 addresses, in
/// order; the single best-guess address when none enumerates; then the
/// common private ranges as guesses, concrete entries first.
pub fn resolve_interfaces(
    addrs: &Vec<(String, String, bool, bool)>,
    best_guess: &Option<(String, bool)>,
) -> (r: Vec<NetworkInterface>)
    ensures
        ifaces_view(r@) == resolved_interfaces(addrs@, *best_guess),
        interfaces_post(ifaces_view(r@)),
{
    let mut concrete: Vec<NetworkInterface> = Vec::new();
    let na = addrs.len();
    proof {
        assert(ifaces_view(concrete@) =~= Seq::<IfaceV>::empty());
    }
    let mut i: usize = 0;
    while i < na
        invariant
            0 <= i <= na == addrs.len(),
            iface_collect(addrs@, 0, Seq::empty()) == iface_collect(
                addrs@,
                i as int,
                ifaces_view(concrete@),
            ),
            forall|k: int|
                0 <= k < concrete.len() ==> (#[trigger] concrete@[k])@.netmask
                    == "255.255.255.0"@ && concrete@[k]@.ip.len() > 0 && concrete@[k]@.subnet
                    == subnet_spec(concrete@[k]@.ip),
            forall|k1: int, k2: int|
                0 <= k1 < k2 < concrete.len() ==> concrete@[k1]@.subnet != concrete@[k2]@.subnet,
        decreases na - i,
    {
        let entry = &addrs[i];
        let is_v4 = entry.2;
        let is_loop = entry.3;
        let ghost c0 = ifaces_view(concrete@);
        let ghost r0 = concrete@;
        if is_v4 && !is_loop {
            let ipn = str_len(entry.1.as_str());
            if ipn > 0 {
                proof {
                    assert(usable_addr(addrs@[i as int]));
                }
                let subnet = subnet_for(entry.1.as_str());
                if !subnet_present(&concrete, &subnet) {
                    let nd = NetworkInterface {
                        name: entry.0.clone(),
                        ip: entry.1.clone(),
                        netmask: String::from_str("255.255.255.0"),
                        subnet,
                    };
                    proof {
                        reveal(subnet_taken);
                        assert forall|k: int|
                            0 <= k < r0.len() implies (#[trigger] r0[k])@.subnet != subnet@ by {
                            assert(ifaces_view(r0)[k] == r0[k]@);
                        }
                    }
                    concrete.push(nd);
                    proof {
                        assert(forall|k: int| 0 <= k < r0.len() ==> concrete@[k] == r0[k]);
                        let e = addrs@[i as int];
                        assert(ifaces_view(concrete@) =~= c0.push(
                            IfaceV {
                                name: e.0@,
                                ip: e.1@,
                                netmask: "255.255.255.0"@,
                                subnet: subnet_spec(e.1@),
                            },
                        ));
                    }
                }
            }
        }
        proof {
            if !(usable_addr(addrs@[i as int]) && !subnet_taken(
                c0,
                subnet_spec(addrs@[i as int].1@),
            )) {
                assert(ifaces_view(concrete@) =~= c0);
            }
        }
        i = i + 1;
    }
    let ghost collected = ifaces_view(concrete@);
    proof {
        assert(iface_collect(addrs@, na as int, collected) == collected);
    }
    if concrete.len() == 0 {
        match best_guess {
            Some(la) => {
                if la.1 {
                    let ipn = str_len(la.0.as_str());
                    if ipn > 0 {
                        let subnet = subnet_for(la.0.as_str());
                        concrete.push(
                            NetworkInterface {
                                name: String::from_str("default"),
                                ip: la.0.clone(),
                                netmask: String::from_str("255.255.255.0"),
                                subnet,
                            },
                        );
                        proof {
                            assert(ifaces_view(concrete@) =~= with_guess(
                                collected,
                                *best_guess,
                            ));
                        }
                    }
                }
            },
            None => {},
        }
    }
    proof {
        assert(ifaces_view(concrete@) =~= with_guess(collected, *best_guess));
    }
    // the common private ranges as last-resort manual choices
    let mut out = concrete;
    add_fallback(&mut out, "192.168.1.0/24", "192.168.1.x");
    add_fallback(&mut out, "192.168.0.0/24", "192.168.0.x");
    add_fallback(&mut out, "10.0.0.0/24", "10.0.0.x");
    proof {
        let ov = ifaces_view(out@);
        assert(forall|k: int| 0 <= k < ov.len() ==> #[trigger] ov[k] == out@[k]@);
        let k1 = choose|k: int|
            0 <= k < out.len() && (#[trigger] out@[k])@.subnet == "192.168.1.0/24"@;
        assert(ov[k1].subnet == "192.168.1.0/24"@);
        let k2 = choose|k: int|
            0 <= k < out.len() && (#[trigger] out@[k])@.subnet == "192.168.0.0/24"@;
        assert(ov[k2].subnet == "192.168.0.0/24"@);
        let k3 = choose|k: int|
            0 <= k < out.len() && (#[trigger] out@[k])@.subnet == "10.0.0.0/24"@;
        assert(ov[k3].subnet == "10.0.0.0/24"@);
    }
    out
}

/// Enumerates the adapters and resolves them; every list this returns is
/// `resolved_interfaces` of some enumeration and lookup outcome, with
/// `resolve_interfaces` holding the exact contract over those outcomes.
pub fn get_local_interfaces() -> (r: Vec<NetworkInterface>)
    ensures
        interfaces_post(ifaces_view(r@)),
        exists|addrs: Seq<(String, String, bool, bool)>, guess: Option<(String, bool)>|
            ifaces_view(r@) == resolved_interfaces(addrs, guess),
{
    let addrs = list_interface_addrs();
    let guess = local_ip_addr();
    let r = resolve_interfaces(&addrs, &guess);
    proof {
        assert(ifaces_view(r@) == resolved_interfaces(addrs@, guess));
    }
    r
}

/// Adds a fallback guess for `subnet` unless some entry already offers
/// it; the guess carries no address and sorts after concrete entries.
fn add_fallback(v: &mut Vec<NetworkInterface>, subnet: &str, label: &str)
    requires
        forall|k: int|
            0 <= k < old(v).len() ==> (#[trigger] old(v)@[k])@.netmask == "255.255.255.0"@ && (
            old(v)@[k]@.ip.len() > 0 ==> old(v)@[k]@.subnet == subnet_spec(old(v)@[k]@.ip)) && (
            old(v)@[k]@.ip.len() == 0 ==> fallback_subnet(old(v)@[k]@.subnet)),
        forall|k1: int, k2: int|
            0 <= k1 < k2 < old(v).len() ==> old(v)@[k1]@.subnet != old(v)@[k2]@.subnet,
        forall|k1: int, k2: int|
            0 <= k1 < k2 < old(v).len() ==> !(old(v)@[k1]@.ip.len() == 0 && old(v)@[k2]@.ip.len()
                > 0),
        fallback_subnet(subnet@),
    ensures
        ifaces_view(final(v)@) == with_fallback(ifaces_view(old(v)@), subnet@, label@),
        forall|k: int|
            0 <= k < final(v).len() ==> (#[trigger] final(v)@[k])@.netmask == "255.255.255.0"@
                && (final(v)@[k]@.ip.len() > 0 ==> final(v)@[k]@.subnet == subnet_spec(
                final(v)@[k]@.ip,
            )) && (final(v)@[k]@.ip.len() == 0 ==> fallback_subnet(final(v)@[k]@.subnet)),
        forall|k1: int, k2: int|
            0 <= k1 < k2 < final(v).len() ==> final(v)@[k1]@.subnet != final(v)@[k2]@.subnet,
        forall|k1: int, k2: int|
            0 <= k1 < k2 < final(v).len() ==> !(final(v)@[k1]@.ip.len() == 0
                && final(v)@[k2]@.ip.len() > 0),
        exists|k: int| 0 <= k < final(v).len() && (#[trigger] final(v)@[k])@.subnet == subnet@,
        forall|k: int| 0 <= k < old(v).len() ==> final(v)@[k] == old(v)@[k],
        final(v).len() >= old(v).len(),
{
    let subnet_s = String::from_str(subnet);
    if !subnet_present(v, &subnet_s) {
        let ghost v0 = v@;
        proof {
            reveal(subnet_taken);
            assert forall|k: int|
                0 <= k < v0.len() implies (#[trigger] v0[k])@.subnet != subnet@ by {
                assert(ifaces_view(v0)[k] == v0[k]@);
            }
        }
        let nd = NetworkInterface {
            name: String::from_str(label),
            ip: String::new(),
            netmask: String::from_str("255.255.255.0"),
            subnet: subnet_s,
        };
        v.push(nd);
        proof {
            assert(forall|k: int| 0 <= k < v0.len() ==> v@[k] == v0[k]);
            assert(v@[v0.len() as int]@.subnet == subnet@);
            assert(ifaces_view(v@) =~= ifaces_view(v0).push(
                IfaceV {
                    name: label@,
                    ip: Seq::empty(),
                    netmask: "255.255.255.0"@,
                    subnet: subnet@,
                },
            ));
        }
    } else {
        proof {
            reveal(subnet_taken);
            let k = choose|k: int|
                0 <= k < ifaces_view(v@).len() && (#[trigger] ifaces_view(v@)[k]).subnet
                    == subnet@;
            assert(ifaces_view(v@)[k] == v@[k]@);
            assert(v@[k]@.subnet == subnet@);
        }
    }
}

/// A scan target resolved to an address.
#[derive(Debug, Clone)]
pub struct ResolveResult {
    pub original: String,
    pub ip: String,
    pub is_domain: bool,
    pub hostname: Option<String>,
}

/// The /24 for a best-guess lookup outcome: the address's subnet exactly
/// when the lookup yielded a non-empty IPv4 rendering, nothing otherwise.
pub open spec fn local_subnet_spec(outcome: Option<(String, bool)>) -> Option<Seq<char>> {
    match outcome {
        Some(g) => if g.1 && g.0@.len() > 0 {
            Some(subnet_spec(g.0@))
        } else {
            None
        },
        None => None,
    }
}

/// The subnet for one lookup outcome.
pub fn subnet_from_local(outcome: &Option<(String, bool)>) -> (r: Option<String>)
    ensures
        crate::discovery::opt_view(r) == local_subnet_spec(*outcome),
{
    match outcome {
        Some(la) => {
            if la.1 {
                let n = str_len(la.0.as_str());
                if n > 0 {
                    Some(subnet_for(la.0.as_str()))
                } else {
                    None
                }
            } else {
                None
            }
        },
        None => None,
    }
}

/// The /24 the machine's local address lies on; the returned value is
/// `subnet_from_local` of some lookup outcome, which fixes it exactly.
pub fn get_current_subnet() -> (r: Option<String>)
    ensures
        exists|outcome: Option<(String, bool)>|
            crate::discovery::opt_view(r) == local_subnet_spec(outcome),
{
    let outcome = local_ip_addr();
    let r = subnet_from_local(&outcome);
    proof {
        assert(crate::discovery::opt_view(r) == local_subnet_spec(outcome));
    }
    r
}

} // verus!

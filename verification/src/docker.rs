//! Container port mappings: parsing `docker ps` port columns and mapping
//! host ports to their containers. The `docker` CLI is invoked outside
//! the library; its tab-separated output is parsed here.

use vstd::prelude::*;
use vstd::std_specs::hash::group_hash_axioms;
use std::collections::HashMap;
use crate::text::{
    all_digits, contains_sub, contains_sub_spec, dec_val, find_char, find_sub, first_char_idx,
    first_sub_idx, last_char_idx, parse_u16, rfind_char, split_char,
    split_char_spec, starts_with, starts_with_spec, str_len, substring_copy, trim,
    trim_spec,
};
use crate::discovery::opt_view;
use crate::sorting::views_of;

verus! {

/// One published port mapping of a container.
#[derive(Debug, Clone)]
pub struct DockerPort {
    pub host_port: u16,
    pub container_port: u16,
    pub protocol: String,
    pub host_ip: String,
}

/// The mathematical value of a `DockerPort`.
pub ghost struct DockerPortV {
    pub host_port: u16,
    pub container_port: u16,
    pub protocol: Seq<char>,
    pub host_ip: Seq<char>,
}

impl View for DockerPort {
    type V = DockerPortV;

    open spec fn view(&self) -> DockerPortV {
        DockerPortV {
            host_port: self.host_port,
            container_port: self.container_port,
            protocol: self.protocol@,
            host_ip: self.host_ip@,
        }
    }
}

/// A running container and its published ports.
#[derive(Debug, Clone)]
pub struct DockerContainer {
    pub id: String,
    pub name: String,
    pub image: String,
    pub status: String,
    pub ports: Vec<DockerPort>,
}

/// The mathematical value of a `DockerContainer`.
pub ghost struct ContainerV {
    pub id: Seq<char>,
    pub name: Seq<char>,
    pub image: Seq<char>,
    pub status: Seq<char>,
    pub ports: Seq<DockerPortV>,
}

impl View for DockerContainer {
    type V = ContainerV;

    open spec fn view(&self) -> ContainerV {
        ContainerV {
            id: self.id@,
            name: self.name@,
            image: self.image@,
            status: self.status@,
            ports: views_of(self.ports@),
        }
    }
}

/// What one port-mapping token means (`0.0.0.0:5432->5432/tcp`, or a
/// range taking its first port): IPv6 forms are skipped, a missing host
/// address defaults to `0.0.0.0`, a missing protocol to `tcp`.
pub open spec fn port_mapping_spec(s: Seq<char>) -> Option<DockerPortV> {
    if starts_with_spec(s, "[::]:"@) || contains_sub_spec(s, ":::"@) {
        None
    } else {
        let arrow = first_sub_idx(s, "->"@, 0);
        if arrow < 0 {
            None
        } else {
            let host = s.take(arrow);
            let cont = s.skip(arrow + 2);
            let cpos = last_char_idx(host, ':');
            let host_ip = if cpos >= 0 {
                host.take(cpos)
            } else {
                "0.0.0.0"@
            };
            let hps0 = if cpos >= 0 {
                host.skip(cpos + 1)
            } else {
                host
            };
            let hdash = first_char_idx(hps0, '-');
            let hps = if hdash >= 0 {
                hps0.take(hdash)
            } else {
                hps0
            };
            if !(hps.len() > 0 && all_digits(hps) && dec_val(hps) <= u16::MAX) {
                None
            } else {
                let slash = first_char_idx(cont, '/');
                let protocol = if slash >= 0 {
                    cont.skip(slash + 1)
                } else {
                    "tcp"@
                };
                let cps0 = if slash >= 0 {
                    cont.take(slash)
                } else {
                    cont
                };
                let cdash = first_char_idx(cps0, '-');
                let cps = if cdash >= 0 {
                    cps0.take(cdash)
                } else {
                    cps0
                };
                if !(cps.len() > 0 && all_digits(cps) && dec_val(cps) <= u16::MAX) {
                    None
                } else {
                    Some(
                        DockerPortV {
                            host_port: dec_val(hps) as u16,
                            container_port: dec_val(cps) as u16,
                            protocol: protocol,
                            host_ip: host_ip,
                        },
                    )
                }
            }
        }
    }
}

/// Parses one port-mapping token.
pub fn parse_single_port_mapping(s: &str) -> (r: Option<DockerPort>)
    ensures
        match r {
            Some(p) => port_mapping_spec(s@) == Some(p@),
            None => port_mapping_spec(s@) is None,
        },
{
    if starts_with(s, "[::]:") || contains_sub(s, ":::") {
        return None;
    }
    proof {
        reveal_strlit("->");
    }
    let n = str_len(s);
    let arrow = match find_sub(s, "->") {
        Some(a) => a,
        None => {
            return None;
        },
    };
    let host = substring_copy(s, 0, arrow);
    let cont = substring_copy(s, arrow + 2, n);
    proof {
        assert(host@ =~= s@.take(arrow as int));
        assert(cont@ =~= s@.skip(arrow + 2));
    }
    let hn = str_len(host.as_str());
    let (host_ip, hps0): (String, String) = match rfind_char(host.as_str(), ':') {
        Some(c) => {
            let ip = substring_copy(host.as_str(), 0, c);
            let p = substring_copy(host.as_str(), c + 1, hn);
            proof {
                assert(ip@ =~= host@.take(c as int));
                assert(p@ =~= host@.skip(c + 1));
            }
            (ip, p)
        },
        None => (String::from_str("0.0.0.0"), host),
    };
    let hps: String = match find_char(hps0.as_str(), '-') {
        Some(d) => {
            let t = substring_copy(hps0.as_str(), 0, d);
            proof {
                assert(t@ =~= hps0@.take(d as int));
            }
            t
        },
        None => hps0,
    };
    let host_port = match parse_u16(hps.as_str()) {
        Some(p) => p,
        None => {
            return None;
        },
    };
    let cn = str_len(cont.as_str());
    let (cps0, protocol): (String, String) = match find_char(cont.as_str(), '/') {
        Some(sl) => {
            let a = substring_copy(cont.as_str(), 0, sl);
            let b = substring_copy(cont.as_str(), sl + 1, cn);
            proof {
                assert(a@ =~= cont@.take(sl as int));
                assert(b@ =~= cont@.skip(sl + 1));
            }
            (a, b)
        },
        None => (cont, String::from_str("tcp")),
    };
    let cps: String = match find_char(cps0.as_str(), '-') {
        Some(d) => {
            let t = substring_copy(cps0.as_str(), 0, d);
            proof {
                assert(t@ =~= cps0@.take(d as int));
            }
            t
        },
        None => cps0,
    };
    let container_port = match parse_u16(cps.as_str()) {
        Some(p) => p,
        None => {
            return None;
        },
    };
    Some(DockerPort { host_port, container_port, protocol, host_ip })
}

/// Two mappings the port list treats as the same.
pub open spec fn dp_key_eq(a: DockerPortV, b: DockerPortV) -> bool {
    a.host_port == b.host_port && a.protocol == b.protocol
}

#[verifier::opaque]
pub open spec fn has_dp_key(acc: Seq<DockerPortV>, e: DockerPortV) -> bool {
    exists|k: int| 0 <= k < acc.len() && dp_key_eq(#[trigger] acc[k], e)
}

/// The mappings of a `docker ps` port column, in order, one per distinct
/// (host port, protocol).
pub open spec fn docker_ports_spec(toks: Seq<Seq<char>>, i: int, acc: Seq<DockerPortV>) -> Seq<
    DockerPortV,
>
    decreases toks.len() - i
        when 0 <= i
{
    if i >= toks.len() {
        acc
    } else {
        match port_mapping_spec(trim_spec(toks[i])) {
            Some(e) => if has_dp_key(acc, e) {
                docker_ports_spec(toks, i + 1, acc)
            } else {
                docker_ports_spec(toks, i + 1, acc.push(e))
            },
            None => docker_ports_spec(toks, i + 1, acc),
        }
    }
}

fn has_dp_key_exec(acc: &Vec<DockerPort>, e: &DockerPort) -> (r: bool)
    ensures
        r == has_dp_key(views_of(acc@), e@),
{
    let n = acc.len();
    let mut i: usize = 0;
    while i < n
        invariant
            0 <= i <= n == acc.len(),
            forall|k: int| 0 <= k < i ==> !dp_key_eq((#[trigger] acc@[k])@, e@),
        decreases n - i,
    {
        let a = &acc[i];
        if a.host_port == e.host_port && a.protocol == e.protocol {
            proof {
                reveal(has_dp_key);
                assert(views_of(acc@)[i as int] == acc@[i as int]@);
            }
            return true;
        }
        i = i + 1;
    }
    proof {
        reveal(has_dp_key);
        assert forall|k: int|
            0 <= k < views_of(acc@).len() implies !dp_key_eq(
            #[trigger] views_of(acc@)[k],
            e@,
        ) by {
            assert(views_of(acc@)[k] == acc@[k]@);
        }
    }
    false
}

/// Parses a `docker ps` port column (`0.0.0.0:5432->5432/tcp, ...`) into
/// its mappings, comma-separated entries trimmed, IPv4/IPv6 duplicates
/// collapsed.
pub fn parse_docker_ports(port_str: &str) -> (r: Vec<DockerPort>)
    ensures
        views_of(r@) == docker_ports_spec(split_char_spec(port_str@, ','), 0, Seq::empty()),
{
    let toks = split_char(port_str, ',');
    let ghost tv = split_char_spec(port_str@, ',');
    let n = toks.len();
    let mut acc: Vec<DockerPort> = Vec::new();
    proof {
        assert(views_of(acc@) =~= Seq::<DockerPortV>::empty());
    }
    let mut i: usize = 0;
    while i < n
        invariant
            0 <= i <= n == toks.len(),
            tv == split_char_spec(port_str@, ','),
            toks.deep_view() == tv,
            docker_ports_spec(tv, 0, Seq::empty()) == docker_ports_spec(
                tv,
                i as int,
                views_of(acc@),
            ),
        decreases n - i,
    {
        proof {
            assert(tv[i as int] == toks@[i as int]@);
        }
        let t = trim(toks[i].as_str());
        let ghost a0 = views_of(acc@);
        match parse_single_port_mapping(t.as_str()) {
            Some(e) => {
                if !has_dp_key_exec(&acc, &e) {
                    acc.push(e);
                    proof {
                        assert(views_of(acc@) =~= a0.push(e@));
                    }
                }
            },
            None => {},
        }
        i = i + 1;
    }
    acc
}

/// What one `docker ps` line means: tab-separated id, name, image,
/// status, and optionally the port column.
pub open spec fn container_line_spec(line: Seq<char>) -> Option<ContainerV> {
    let f = split_char_spec(line, '\t');
    if trim_spec(line).len() == 0 || f.len() < 4 {
        None
    } else {
        Some(
            ContainerV {
                id: f[0],
                name: f[1],
                image: f[2],
                status: f[3],
                ports: if f.len() >= 5 {
                    docker_ports_spec(split_char_spec(f[4], ','), 0, Seq::empty())
                } else {
                    Seq::empty()
                },
            },
        )
    }
}

/// Parses one `docker ps` line.
pub fn parse_docker_container_line(line: &str) -> (r: Option<DockerContainer>)
    ensures
        match r {
            Some(c) => container_line_spec(line@) == Some(c@),
            None => container_line_spec(line@) is None,
        },
{
    let t = trim(line);
    if t.as_str().is_empty() {
        return None;
    }
    let f = split_char(line, '\t');
    if f.len() < 4 {
        return None;
    }
    proof {
        assert(split_char_spec(line@, '\t')[0] == f@[0]@);
        assert(split_char_spec(line@, '\t')[1] == f@[1]@);
        assert(split_char_spec(line@, '\t')[2] == f@[2]@);
        assert(split_char_spec(line@, '\t')[3] == f@[3]@);
    }
    let ports: Vec<DockerPort> = if f.len() >= 5 {
        proof {
            assert(split_char_spec(line@, '\t')[4] == f@[4]@);
        }
        parse_docker_ports(f[4].as_str())
    } else {
        Vec::new()
    };
    proof {
        if f.len() < 5 {
            assert(views_of(ports@) =~= Seq::<DockerPortV>::empty());
        }
    }
    Some(
        DockerContainer {
            id: f[0].clone(),
            name: f[1].clone(),
            image: f[2].clone(),
            status: f[3].clone(),
            ports,
        },
    )
}

/// The host-port pairs of all containers, in container order then port
/// order: each pair maps a published host port to its container's name.
pub open spec fn port_pairs(cs: Seq<ContainerV>, i: int) -> Seq<(u16, Seq<char>)>
    decreases cs.len() - i
        when 0 <= i
{
    if i >= cs.len() {
        Seq::empty()
    } else {
        cs[i].ports.map_values(|p: DockerPortV| (p.host_port, cs[i].name)) + port_pairs(
            cs,
            i + 1,
        )
    }
}

/// The port-to-label map built from the pairs, later pairs overwriting
/// earlier ones; the label is the container name under a whale mark.
pub open spec fn pairs_map(ps: Seq<(u16, Seq<char>)>, i: int, m: Map<u16, Seq<char>>) -> Map<
    u16,
    Seq<char>,
>
    decreases ps.len() - i
        when 0 <= i
{
    if i >= ps.len() {
        m
    } else {
        pairs_map(ps, i + 1, m.insert(ps[i].0, "\u{1F433} "@ + ps[i].1))
    }
}

/// Maps each published host port to its container, as `docker ps` lists
/// them.
pub fn get_port_to_container_map(containers: &Vec<DockerContainer>) -> (r: HashMap<u16, String>)
    ensures
        r@.map_values(|v: String| v@) == pairs_map(
            port_pairs(views_of(containers@), 0),
            0,
            Map::empty(),
        ),
{
    broadcast use group_hash_axioms;

    let ghost cv = views_of(containers@);
    let ghost pairs = port_pairs(cv, 0);
    let n = containers.len();
    let mut m: HashMap<u16, String> = HashMap::new();
    let ghost mut g: int = 0;
    proof {
        assert(m@.map_values(|v: String| v@) =~= Map::<u16, Seq<char>>::empty());
        assert(pairs.skip(0) =~= pairs);
    }
    let mut i: usize = 0;
    while i < n
        invariant
            0 <= i <= n == containers.len(),
            cv == views_of(containers@),
            pairs == port_pairs(cv, 0),
            0 <= g <= pairs.len(),
            pairs.skip(g) =~= port_pairs(cv, i as int),
            vstd::std_specs::hash::obeys_key_model::<u16>(),
            pairs_map(pairs, 0, Map::empty()) == pairs_map(
                pairs,
                g,
                m@.map_values(|v: String| v@),
            ),
        decreases n - i,
    {
        proof {
            assert(cv[i as int] == containers@[i as int]@);
        }
        let c = &containers[i];
        let np = c.ports.len();
        let ghost inner = cv[i as int].ports.map_values(
            |p: DockerPortV| (p.host_port, cv[i as int].name),
        );
        let mut j: usize = 0;
        proof {
            assert(port_pairs(cv, i as int) =~= inner + port_pairs(cv, i as int + 1));
            assert(inner.skip(0) =~= inner);
        }
        while j < np
            invariant
                0 <= j <= np == c.ports.len(),
                cv == views_of(containers@),
                pairs == port_pairs(cv, 0),
                i < n == containers.len(),
                c == &containers[i as int],
                cv[i as int] == containers@[i as int]@,
                inner == cv[i as int].ports.map_values(
                    |p: DockerPortV| (p.host_port, cv[i as int].name),
                ),
                inner.len() == np,
                0 <= g,
                g + (np - j) + port_pairs(cv, i as int + 1).len() == pairs.len(),
                pairs.skip(g) =~= inner.skip(j as int) + port_pairs(cv, i as int + 1),
                vstd::std_specs::hash::obeys_key_model::<u16>(),
                pairs_map(pairs, 0, Map::empty()) == pairs_map(
                    pairs,
                    g,
                    m@.map_values(|v: String| v@),
                ),
            decreases np - j,
        {
            let p = &c.ports[j];
            let mut label = String::from_str("\u{1F433} ");
            label.append(c.name.as_str());
            let ghost m0 = m@.map_values(|v: String| v@);
            proof {
                assert(views_of(c.ports@)[j as int] == c.ports@[j as int]@);
                assert(inner[j as int] == (c.ports@[j as int]@.host_port, cv[i as int].name));
                assert(pairs[g] == pairs.skip(g)[0]);
                assert(pairs[g] == inner[j as int]);
            }
            m.insert(p.host_port, label);
            proof {
                assert(m@.map_values(|v: String| v@) =~= m0.insert(
                    pairs[g].0,
                    "\u{1F433} "@ + pairs[g].1,
                ));
                assert(pairs_map(pairs, g, m0) == pairs_map(
                    pairs,
                    g + 1,
                    m@.map_values(|v: String| v@),
                ));
                assert(pairs.skip(g + 1) =~= pairs.skip(g).drop_first());
                assert((inner.skip(j as int) + port_pairs(cv, i as int + 1)).drop_first()
                    =~= inner.skip(j as int + 1) + port_pairs(cv, i as int + 1));
                assert(pairs.skip(g + 1) =~= inner.skip(j as int + 1) + port_pairs(
                    cv,
                    i as int + 1,
                ));
                g = g + 1;
            }
            j = j + 1;
        }
        proof {
            assert(inner.skip(np as int) =~= Seq::<(u16, Seq<char>)>::empty());
            assert(pairs.skip(g) =~= port_pairs(cv, i as int + 1));
        }
        i = i + 1;
    }
    proof {
        assert(port_pairs(cv, n as int) =~= Seq::<(u16, Seq<char>)>::empty());
        assert(g == pairs.len());
    }
    m
}

/// The first container publishing this host port, with its name and
/// image.
pub open spec fn port_info_scan(cs: Seq<ContainerV>, i: int, port: u16) -> Option<
    (Seq<char>, Seq<char>),
>
    decreases cs.len() - i
        when 0 <= i
{
    if i >= cs.len() {
        None
    } else if exists|k: int|
        0 <= k < cs[i].ports.len() && (#[trigger] cs[i].ports[k]).host_port == port {
        Some((cs[i].name, cs[i].image))
    } else {
        port_info_scan(cs, i + 1, port)
    }
}

/// Looks up which container publishes a host port.
pub fn get_docker_port_info(containers: &Vec<DockerContainer>, port: u16) -> (r: Option<
    (String, String),
>)
    ensures
        match r {
            Some(p) => port_info_scan(views_of(containers@), 0, port) == Some((p.0@, p.1@)),
            None => port_info_scan(views_of(containers@), 0, port) is None,
        },
{
    let ghost cv = views_of(containers@);
    let n = containers.len();
    let mut i: usize = 0;
    while i < n
        invariant
            0 <= i <= n == containers.len(),
            cv == views_of(containers@),
            port_info_scan(cv, 0, port) == port_info_scan(cv, i as int, port),
        decreases n - i,
    {
        proof {
            assert(cv[i as int] == containers@[i as int]@);
        }
        let c = &containers[i];
        let np = c.ports.len();
        let mut j: usize = 0;
        let mut hit = false;
        while j < np
            invariant
                0 <= j <= np == c.ports.len(),
                c == &containers[i as int],
                i < containers.len(),
                cv == views_of(containers@),
                cv[i as int] == containers@[i as int]@,
                !hit ==> forall|k: int|
                    0 <= k < j ==> (#[trigger] cv[i as int].ports[k]).host_port != port,
                hit ==> exists|k: int|
                    0 <= k < cv[i as int].ports.len() && (#[trigger] cv[i as int].ports[
                        k
                    ]).host_port == port,
            decreases np - j,
        {
            proof {
                assert(cv[i as int].ports[j as int] == c.ports@[j as int]@);
            }
            if c.ports[j].host_port == port {
                hit = true;
                proof {
                    assert(cv[i as int].ports[j as int].host_port == port);
                }
            }
            j = j + 1;
        }
        if hit {
            return Some((c.name.clone(), c.image.clone()));
        }
        i = i + 1;
    }
    None
}

} // verus!

//! The privileged discovery path: raw ARP request frames built and reply
//! frames parsed byte by byte, reply bookkeeping, and the record of which
//! strategy a scan used. Opening the raw link channel and moving frames
//! over it happens outside the library.

use vstd::prelude::*;
use crate::discovery::{NetworkDevice};

verus! {

/// The outcome of a strategy-selected discovery.
#[derive(Debug, Clone)]
pub struct AdvancedScanResult {
    pub devices: Vec<NetworkDevice>,
    pub scan_method: String,
    pub scan_time_ms: u64,
    pub has_permission: bool,
}

/// A raw ARP request frame for one target: Ethernet broadcast header,
/// then the request payload carrying the sender's addresses.
pub open spec fn arp_request_spec(mac: Seq<u8>, sip: Seq<u8>, tip: Seq<u8>) -> Seq<u8> {
    seq![0xffu8, 0xffu8, 0xffu8, 0xffu8, 0xffu8, 0xffu8] + mac + seq![
        0x08u8,
        0x06u8,
        0x00u8,
        0x01u8,
        0x08u8,
        0x00u8,
        0x06u8,
        0x04u8,
        0x00u8,
        0x01u8,
    ] + mac + sip + seq![0x00u8, 0x00u8, 0x00u8, 0x00u8, 0x00u8, 0x00u8] + tip
}

/// Builds the 42-byte ARP request frame for one probed host: broadcast
/// destination, the local adapter as sender, a zeroed target hardware
/// address.
pub fn build_arp_request(src_mac: &Vec<u8>, src_ip: &Vec<u8>, target_ip: &Vec<u8>) -> (r: Vec<
    u8,
>)
    requires
        src_mac.len() == 6,
        src_ip.len() == 4,
        target_ip.len() == 4,
    ensures
        r@ == arp_request_spec(src_mac@, src_ip@, target_ip@),
        r.len() == 42,
{
    let mut f: Vec<u8> = Vec::new();
    let mut i: usize = 0;
    while i < 6
        invariant
            0 <= i <= 6,
            f@ =~= Seq::new(i as nat, |j: int| 0xffu8),
        decreases 6 - i,
    {
        f.push(0xff);
        i = i + 1;
    }
    push_bytes(&mut f, src_mac);
    // EtherType then the ARP header: Ethernet hardware, IPv4 protocol,
    // address lengths, request opcode
    f.push(0x08);
    f.push(0x06);
    f.push(0x00);
    f.push(0x01);
    f.push(0x08);
    f.push(0x00);
    f.push(0x06);
    f.push(0x04);
    f.push(0x00);
    f.push(0x01);
    push_bytes(&mut f, src_mac);
    push_bytes(&mut f, src_ip);
    let mut z: usize = 0;
    let ghost before_zeros = f@;
    while z < 6
        invariant
            0 <= z <= 6,
            f@ =~= before_zeros + Seq::new(z as nat, |j: int| 0x00u8),
        decreases 6 - z,
    {
        f.push(0x00);
        z = z + 1;
    }
    push_bytes(&mut f, target_ip);
    proof {
        assert(f@ =~= arp_request_spec(src_mac@, src_ip@, target_ip@));
    }
    f
}

fn push_bytes(f: &mut Vec<u8>, b: &Vec<u8>)
    ensures
        final(f)@ == old(f)@ + b@,
{
    let n = b.len();
    let mut i: usize = 0;
    while i < n
        invariant
            0 <= i <= n == b.len(),
            f@ == old(f)@ + b@.take(i as int),
        decreases n - i,
    {
        f.push(b[i]);
        proof {
            assert(f@ =~= old(f)@ + b@.take(i as int + 1));
        }
        i = i + 1;
    }
    proof {
        assert(b@.take(n as int) =~= b@);
    }
}

/// An Ethernet frame carrying an ARP reply: the ARP EtherType and the
/// reply opcode in place, long enough to hold the payload.
pub open spec fn is_arp_reply(f: Seq<u8>) -> bool {
    f.len() >= 42 && f[12] == 0x08u8 && f[13] == 0x06u8 && f[20] == 0x00u8 && f[21] == 0x02u8
}

/// The sender's protocol address inside an ARP reply.
pub open spec fn reply_sender_ip(f: Seq<u8>) -> Seq<u8> {
    f.subrange(28, 32)
}

/// The sender's hardware address inside an ARP reply.
pub open spec fn reply_sender_mac(f: Seq<u8>) -> Seq<u8> {
    f.subrange(22, 28)
}

/// Parses a received frame as an ARP reply, yielding the replying host's
/// (address, MAC) as raw bytes; anything that is not an ARP reply is
/// `None`.
pub fn parse_arp_reply(frame: &Vec<u8>) -> (r: Option<(Vec<u8>, Vec<u8>)>)
    ensures
        match r {
            Some(p) => is_arp_reply(frame@) && p.0@ == reply_sender_ip(frame@) && p.1@
                == reply_sender_mac(frame@),
            None => !is_arp_reply(frame@),
        },
{
    if frame.len() < 42 {
        return None;
    }
    if !(frame[12] == 0x08 && frame[13] == 0x06) {
        return None;
    }
    if !(frame[20] == 0x00 && frame[21] == 0x02) {
        return None;
    }
    let mut ip: Vec<u8> = Vec::new();
    let mut i: usize = 28;
    while i < 32
        invariant
            28 <= i <= 32,
            32 <= frame.len(),
            ip@ =~= frame@.subrange(28, i as int),
        decreases 32 - i,
    {
        ip.push(frame[i]);
        proof {
            assert(ip@ =~= frame@.subrange(28, i as int + 1));
        }
        i = i + 1;
    }
    let mut mac: Vec<u8> = Vec::new();
    let mut j: usize = 22;
    while j < 28
        invariant
            22 <= j <= 28,
            28 <= frame.len(),
            mac@ =~= frame@.subrange(22, j as int),
        decreases 28 - j,
    {
        mac.push(frame[j]);
        proof {
            assert(mac@ =~= frame@.subrange(22, j as int + 1));
        }
        j = j + 1;
    }
    Some((ip, mac))
}

/// Records one sweep reply: a new online device for a first-seen address,
/// while a repeated address keeps its first reply.
pub fn register_arp_reply(devices: &mut Vec<NetworkDevice>, ip: String, mac: String)
    ensures
        (exists|k: int| 0 <= k < old(devices).len() && (#[trigger] old(devices)@[k])@.ip == ip@)
            ==> final(devices)@ == old(devices)@,
        (forall|k: int|
            0 <= k < old(devices).len() ==> (#[trigger] old(devices)@[k])@.ip != ip@)
            ==> final(devices)@ == old(devices)@.push(
            NetworkDevice { ip, mac: Some(mac), hostname: None, is_online: true },
        ),
{
    let n = devices.len();
    let mut i: usize = 0;
    while i < n
        invariant
            0 <= i <= n == devices.len(),
            devices@ == old(devices)@,
            forall|k: int| 0 <= k < i ==> (#[trigger] devices@[k])@.ip != ip@,
        decreases n - i,
    {
        if devices[i].ip == ip {
            return ;
        }
        i = i + 1;
    }
    devices.push(NetworkDevice { ip, mac: Some(mac), hostname: None, is_online: true });
}

/// Labels a finished scan with the strategy that produced it: the
/// privileged ARP sweep, or the ping and cache fallback.
pub fn smart_scan_outcome(devices: Vec<NetworkDevice>, used_arp: bool, elapsed_ms: u64) -> (r:
    AdvancedScanResult)
    ensures
        r.devices@ == devices@,
        r.has_permission == used_arp,
        r.scan_time_ms == elapsed_ms,
        used_arp ==> r.scan_method@ == "ARP (\u{9AD8}\u{7EA7})"@,
        !used_arp ==> r.scan_method@ == "Ping/ARP (\u{57FA}\u{7840})"@,
{
    let scan_method = if used_arp {
        String::from_str("ARP (\u{9AD8}\u{7EA7})")
    } else {
        String::from_str("Ping/ARP (\u{57FA}\u{7840})")
    };
    AdvancedScanResult { devices, scan_method, scan_time_ms: elapsed_ms, has_permission: used_arp }
}

} // verus!

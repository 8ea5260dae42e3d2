//! Connectivity diagnostics: parsing platform `ping` and `traceroute`
//! output into structured records. The utilities are spawned outside the
//! library; their captured text is parsed here. Latencies are carried as
//! fixed-point milliseconds in thousandths.

use vstd::prelude::*;
use crate::text::{
    all_digits, char_at, contains_char, contains_sub, contains_sub_spec, dec_val, find_char,
    find_sub, first_char_idx, first_sub_idx, int_part, is_digit_char, lines_spec,
    lower_spec, milli_val, milli_wf, parse_milli, parse_u32, split_char_spec, split_lines,
    split_ws, split_ws_spec, str_len, substring_copy, trim, trim_spec,
};
use crate::discovery::opt_view;

verus! {

/// A duration in milliseconds, held in thousandths (`1.234` is `1234`).
#[derive(Debug, Clone, Copy, PartialEq, Eq, Structural)]
pub struct Milli {
    pub thousandths: u64,
}

/// The aggregate outcome of a ping run.
#[derive(Debug, Clone)]
pub struct PingResult {
    pub ip: String,
    pub is_reachable: bool,
    pub packets_sent: u32,
    pub packets_received: u32,
    pub packet_loss: Milli,
    pub min_ms: Option<Milli>,
    pub avg_ms: Option<Milli>,
    pub max_ms: Option<Milli>,
    pub raw_output: String,
}

/// The outcome of a single echo.
#[derive(Debug, Clone)]
pub struct PingOneResult {
    pub ip: String,
    pub seq: u32,
    pub success: bool,
    pub time_ms: Option<Milli>,
    pub ttl: Option<u32>,
    pub line: String,
}

/// One hop of a route trace.
#[derive(Debug, Clone)]
pub struct TraceHop {
    pub hop: u32,
    pub ip: Option<String>,
    pub hostname: Option<String>,
    pub time_ms: Option<Milli>,
}

/// The mathematical value of a `TraceHop`.
pub ghost struct TraceHopV {
    pub hop: u32,
    pub ip: Option<Seq<char>>,
    pub hostname: Option<Seq<char>>,
    pub time_ms: Option<u64>,
}

impl View for TraceHop {
    type V = TraceHopV;

    open spec fn view(&self) -> TraceHopV {
        TraceHopV {
            hop: self.hop,
            ip: opt_view(self.ip),
            hostname: opt_view(self.hostname),
            time_ms: match self.time_ms {
                Some(m) => Some(m.thousandths),
                None => None,
            },
        }
    }
}

/// An ordered route trace.
#[derive(Debug, Clone)]
pub struct TracerouteResult {
    pub target: String,
    pub hops: Vec<TraceHop>,
    pub raw_output: String,
}

// ---------------------------------------------------------------------------
// Number runs inside lines
// ---------------------------------------------------------------------------

pub open spec fn is_numlike(c: char) -> bool {
    is_digit_char(c) || c == '.'
}

/// The length of the leading run of digits and dots.
pub open spec fn numlike_prefix_len(s: Seq<char>) -> nat
    decreases s.len(),
{
    if s.len() == 0 || !is_numlike(s[0]) {
        0
    } else {
        1 + numlike_prefix_len(s.drop_first())
    }
}

proof fn lemma_numlike_prefix(s: Seq<char>, k: int)
    requires
        0 <= k <= s.len(),
        forall|j: int| 0 <= j < k ==> is_numlike(s[j]),
        k < s.len() ==> !is_numlike(s[k]),
    ensures
        numlike_prefix_len(s) == k,
    decreases k,
{
    if k > 0 {
        lemma_numlike_prefix(s.drop_first(), k - 1);
    }
}

/// The leading digits-and-dots run of `s`.
pub open spec fn numlike_prefix(s: Seq<char>) -> Seq<char> {
    s.take(numlike_prefix_len(s) as int)
}

/// The trailing digits-and-dots run of `s`.
pub open spec fn numlike_suffix(s: Seq<char>) -> Seq<char> {
    s.skip(s.len() - numlike_prefix_len(s.reverse()))
}

/// Copies the leading digits-and-dots run of `s` from position `from`.
fn take_numlike(s: &str, from: usize) -> (r: String)
    requires
        from <= s@.len(),
    ensures
        r@ == numlike_prefix(s@.skip(from as int)),
{
    let n = str_len(s);
    let mut i = from;
    while i < n && numlike_test(char_at(s, i))
        invariant
            from <= i <= n == s@.len(),
            forall|j: int| from <= j < i ==> is_numlike(s@[j]),
        decreases n - i,
    {
        i = i + 1;
    }
    proof {
        let rest = s@.skip(from as int);
        assert forall|j: int| 0 <= j < i - from implies is_numlike(rest[j]) by {
            assert(rest[j] == s@[from + j]);
        }
        if i < n {
            assert(rest[i - from] == s@[i as int]);
        }
        lemma_numlike_prefix(rest, i - from);
        assert(rest.take(i - from) =~= s@.subrange(from as int, i as int));
    }
    substring_copy(s, from, i)
}

fn numlike_test(c: char) -> (r: bool)
    ensures
        r == is_numlike(c),
{
    let u = c as u32;
    (48 <= u && u <= 57) || c == '.'
}

/// Copies the trailing digits-and-dots run of `s.take(to)`.
fn take_numlike_back(s: &str, to: usize) -> (r: String)
    requires
        to <= s@.len(),
    ensures
        r@ == numlike_suffix(s@.take(to as int)),
{
    let mut b = to;
    while b > 0 && numlike_test(char_at(s, b - 1))
        invariant
            0 <= b <= to <= s@.len(),
            forall|j: int| b <= j < to ==> is_numlike(s@[j]),
        decreases b,
    {
        b = b - 1;
    }
    proof {
        let t = s@.take(to as int);
        let rev = t.reverse();
        assert forall|j: int| 0 <= j < to - b implies is_numlike(rev[j]) by {
            assert(rev[j] == t[to - 1 - j]);
            assert(t[to - 1 - j] == s@[to - 1 - j]);
        }
        if b > 0 {
            assert(rev[to - b] == t[b - 1]);
            assert(t[b - 1] == s@[b - 1]);
        }
        lemma_numlike_prefix(rev, to - b);
        assert(t.skip(to - (to - b)) =~= s@.subrange(b as int, to as int));
    }
    substring_copy(s, b, to)
}

// ---------------------------------------------------------------------------
// Aggregate ping output
// ---------------------------------------------------------------------------

/// A parsed decimal that the loss and latency extractors accept.
pub open spec fn num_ok(s: Seq<char>) -> bool {
    milli_wf(s) && dec_val(int_part(s)) <= u32::MAX
}

/// One extraction attempt: the number ending right before the first
/// occurrence of `pat`.
pub open spec fn loss_try(line: Seq<char>, pat: Seq<char>) -> Option<nat> {
    let i = first_sub_idx(line, pat, 0);
    if i < 0 {
        None
    } else {
        let num = numlike_suffix(line.take(i));
        if num_ok(num) {
            Some(milli_val(num))
        } else {
            None
        }
    }
}

/// The packet-loss percentage (in thousandths) read from a summary line:
/// the number before the first `%`, with two fallback markers.
pub open spec fn loss_spec(line: Seq<char>) -> Option<nat> {
    match loss_try(line, "%"@) {
        Some(v) => Some(v),
        None => match loss_try(line, "% packet loss"@) {
            Some(v) => Some(v),
            None => loss_try(line, "% loss"@),
        },
    }
}

fn extract_loss_try(line: &str, pat: &str) -> (r: Option<u64>)
    ensures
        match r {
            Some(v) => loss_try(line@, pat@) == Some(v as nat),
            None => loss_try(line@, pat@) is None,
        },
{
    match find_sub(line, pat) {
        Some(i) => {
            let num = take_numlike_back(line, i);
            parse_milli(num.as_str())
        },
        None => None,
    }
}

/// Extracts the packet-loss percentage from a summary line, in
/// thousandths of a percent.
pub fn extract_packet_loss(line: &str) -> (r: Option<u64>)
    ensures
        match r {
            Some(v) => loss_spec(line@) == Some(v as nat),
            None => loss_spec(line@) is None,
        },
{
    match extract_loss_try(line, "%") {
        Some(v) => Some(v),
        None => match extract_loss_try(line, "% packet loss") {
            Some(v) => Some(v),
            None => extract_loss_try(line, "% loss"),
        },
    }
}

/// The `min/avg/max` triple after the `=` of a statistics line, each in
/// thousandths of a millisecond.
pub open spec fn latency_spec(line: Seq<char>) -> Option<(nat, nat, nat)> {
    let e = first_char_idx(line, '=');
    if e < 0 {
        None
    } else {
        let parts = split_char_spec(line.skip(e + 1), '/');
        if parts.len() < 3 {
            None
        } else {
            let minp = trim_spec(parts[0]);
            let avgp = trim_spec(parts[1]);
            let maxtoks = split_ws_spec(trim_spec(parts[2]));
            if maxtoks.len() == 0 {
                None
            } else if num_ok(minp) && num_ok(avgp) && num_ok(maxtoks[0]) {
                Some((milli_val(minp), milli_val(avgp), milli_val(maxtoks[0])))
            } else {
                None
            }
        }
    }
}

/// Extracts the `min/avg/max` latency triple from a statistics line.
pub fn extract_latency_stats(line: &str) -> (r: Option<(u64, u64, u64)>)
    ensures
        match r {
            Some(t) => latency_spec(line@) == Some((t.0 as nat, t.1 as nat, t.2 as nat)),
            None => latency_spec(line@) is None,
        },
{
    let n = str_len(line);
    let e = match find_char(line, '=') {
        Some(e) => e,
        None => {
            return None;
        },
    };
    let rest = substring_copy(line, e + 1, n);
    proof {
        assert(rest@ =~= line@.skip(e + 1));
    }
    let parts = crate::text::split_char(rest.as_str(), '/');
    if parts.len() < 3 {
        return None;
    }
    proof {
        assert(split_char_spec(line@.skip(e + 1), '/')[0] == parts@[0]@);
        assert(split_char_spec(line@.skip(e + 1), '/')[1] == parts@[1]@);
        assert(split_char_spec(line@.skip(e + 1), '/')[2] == parts@[2]@);
    }
    let minp = trim(parts[0].as_str());
    let avgp = trim(parts[1].as_str());
    let maxtrim = trim(parts[2].as_str());
    let maxtoks = split_ws(maxtrim.as_str());
    if maxtoks.len() == 0 {
        return None;
    }
    proof {
        assert(split_ws_spec(maxtrim@)[0] == maxtoks@[0]@);
    }
    let a = parse_milli(minp.as_str());
    let b = parse_milli(avgp.as_str());
    let c = parse_milli(maxtoks[0].as_str());
    match (a, b, c) {
        (Some(x), Some(y), Some(z)) => Some((x, y, z)),
        _ => None,
    }
}

/// The running summary while scanning ping output.
pub ghost struct PingSt {
    pub loss: nat,
    pub received: u32,
    pub min: Option<nat>,
    pub avg: Option<nat>,
    pub max: Option<nat>,
}

/// Received count derived from the loss percentage, floor of
/// `(100 - loss) / 100 * sent`; an impossible loss above 100 gives zero.
pub open spec fn recv_calc(loss: nat, sent: u32) -> u32 {
    if loss >= 100000 {
        0
    } else {
        (((100000 - loss) * sent) / 100000) as u32
    }
}

/// How one output line updates the ping summary.
pub open spec fn ping_step(st: PingSt, line: Seq<char>, sent: u32) -> PingSt {
    let low = lower_spec(line);
    let st1 = if contains_sub_spec(low, "packet loss"@) || contains_sub_spec(low, "packets"@) {
        match loss_spec(line) {
            Some(l) => PingSt {
                loss: l,
                received: recv_calc(l, sent),
                min: st.min,
                avg: st.avg,
                max: st.max,
            },
            None => st,
        }
    } else {
        st
    };
    if contains_sub_spec(low, "min/avg/max"@) || contains_sub_spec(low, "minimum"@) {
        match latency_spec(line) {
            Some(t) => PingSt {
                loss: st1.loss,
                received: st1.received,
                min: Some(t.0),
                avg: Some(t.1),
                max: Some(t.2),
            },
            None => st1,
        }
    } else {
        st1
    }
}

/// The summary scan over the lines at and after `i`.
pub open spec fn ping_scan(ls: Seq<Seq<char>>, i: int, st: PingSt, sent: u32) -> PingSt
    decreases ls.len() - i
        when 0 <= i
{
    if i >= ls.len() {
        st
    } else {
        ping_scan(ls, i + 1, ping_step(st, ls[i], sent), sent)
    }
}

pub open spec fn opt_milli(o: Option<Milli>) -> Option<nat> {
    match o {
        Some(m) => Some(m.thousandths as nat),
        None => None,
    }
}

/// Assembles a ping run's result from the utility's captured output:
/// `None` when the utility could not be spawned. Exactly `count` packets
/// were sent; loss and latency come from the summary lines, and the
/// received count is derived from the loss percentage, a documented
/// approximation.
pub fn ping_test_outcome(ip: &str, count: u32, output: Option<&str>, exit_success: bool) -> (r:
    PingResult)
    ensures
        r.ip@ == ip@,
        r.packets_sent == count,
        match output {
            None => !r.is_reachable && r.raw_output@ == Seq::<char>::empty()
                && r.packet_loss.thousandths == 100000 && r.packets_received == 0 && r.min_ms
                is None && r.avg_ms is None && r.max_ms is None,
            Some(t) => {
                let st = ping_scan(
                    lines_spec(t@),
                    0,
                    PingSt { loss: 100000, received: 0, min: None, avg: None, max: None },
                    count,
                );
                &&& r.is_reachable == exit_success
                &&& r.raw_output@ == t@
                &&& r.packet_loss.thousandths == st.loss
                &&& r.packets_received == st.received
                &&& opt_milli(r.min_ms) == st.min
                &&& opt_milli(r.avg_ms) == st.avg
                &&& opt_milli(r.max_ms) == st.max
            },
        },
{
    let mut result = PingResult {
        ip: String::from_str(ip),
        is_reachable: false,
        packets_sent: count,
        packets_received: 0,
        packet_loss: Milli { thousandths: 100000 },
        min_ms: None,
        avg_ms: None,
        max_ms: None,
        raw_output: String::new(),
    };
    let t = match output {
        Some(t) => t,
        None => {
            return result;
        },
    };
    result.raw_output = String::from_str(t);
    result.is_reachable = exit_success;
    let ls = split_lines(t);
    let ghost lv = lines_spec(t@);
    let ghost init = PingSt { loss: 100000, received: 0, min: None, avg: None, max: None };
    let n = ls.len();
    let mut i: usize = 0;
    while i < n
        invariant
            0 <= i <= n == ls.len(),
            lv == lines_spec(t@),
            ls.deep_view() == lv,
            result.packets_sent == count,
            result.ip@ == ip@,
            result.raw_output@ == t@,
            result.is_reachable == exit_success,
            ping_scan(lv, 0, init, count) == ping_scan(
                lv,
                i as int,
                PingSt {
                    loss: result.packet_loss.thousandths as nat,
                    received: result.packets_received,
                    min: opt_milli(result.min_ms),
                    avg: opt_milli(result.avg_ms),
                    max: opt_milli(result.max_ms),
                },
                count,
            ),
        decreases n - i,
    {
        proof {
            assert(lv[i as int] == ls@[i as int]@);
        }
        let line = ls[i].as_str();
        let low = crate::text::to_lower(line);
        let ghost st0 = PingSt {
            loss: result.packet_loss.thousandths as nat,
            received: result.packets_received,
            min: opt_milli(result.min_ms),
            avg: opt_milli(result.avg_ms),
            max: opt_milli(result.max_ms),
        };
        if contains_sub(low.as_str(), "packet loss") || contains_sub(low.as_str(), "packets") {
            match extract_packet_loss(line) {
                Some(l) => {
                    result.packet_loss = Milli { thousandths: l };
                    if l >= 100000 {
                        result.packets_received = 0;
                    } else {
                        proof {
                            assert((100000 - l) * (count as u64) <= 100000 * 0xFFFF_FFFFu64
                                && ((100000 - l) * (count as u64)) / 100000 <= 0xFFFF_FFFFu64)
                                by (nonlinear_arith)
                                requires
                                    0 <= l < 100000,
                                    count as u64 <= 0xFFFF_FFFFu64,
                            ;
                        }
                        let prod: u64 = (100000 - l) * (count as u64);
                        result.packets_received = (prod / 100000) as u32;
                    }
                },
                None => {},
            }
        }
        if contains_sub(low.as_str(), "min/avg/max") || contains_sub(low.as_str(), "minimum") {
            match extract_latency_stats(line) {
                Some(t3) => {
                    result.min_ms = Some(Milli { thousandths: t3.0 });
                    result.avg_ms = Some(Milli { thousandths: t3.1 });
                    result.max_ms = Some(Milli { thousandths: t3.2 });
                },
                None => {},
            }
        }
        proof {
            let stn = PingSt {
                loss: result.packet_loss.thousandths as nat,
                received: result.packets_received,
                min: opt_milli(result.min_ms),
                avg: opt_milli(result.avg_ms),
                max: opt_milli(result.max_ms),
            };
            assert(stn == ping_step(st0, lv[i as int], count));
        }
        i = i + 1;
    }
    result
}

// ---------------------------------------------------------------------------
// Single echoes
// ---------------------------------------------------------------------------

/// The length of the leading run of digits.
pub open spec fn digit_prefix_len(s: Seq<char>) -> nat
    decreases s.len(),
{
    if s.len() == 0 || !is_digit_char(s[0]) {
        0
    } else {
        1 + digit_prefix_len(s.drop_first())
    }
}

proof fn lemma_digit_prefix(s: Seq<char>, k: int)
    requires
        0 <= k <= s.len(),
        forall|j: int| 0 <= j < k ==> is_digit_char(s[j]),
        k < s.len() ==> !is_digit_char(s[k]),
    ensures
        digit_prefix_len(s) == k,
    decreases k,
{
    if k > 0 {
        lemma_digit_prefix(s.drop_first(), k - 1);
    }
}

/// The leading digit run of `s`.
pub open spec fn digit_prefix(s: Seq<char>) -> Seq<char> {
    s.take(digit_prefix_len(s) as int)
}

/// Copies the leading digit run of `s` from position `from`.
fn take_digits(s: &str, from: usize) -> (r: String)
    requires
        from <= s@.len(),
    ensures
        r@ == digit_prefix(s@.skip(from as int)),
{
    let n = str_len(s);
    let mut i = from;
    while i < n && crate::text::digit_char_test(char_at(s, i))
        invariant
            from <= i <= n == s@.len(),
            forall|j: int| from <= j < i ==> is_digit_char(s@[j]),
        decreases n - i,
    {
        i = i + 1;
    }
    proof {
        let rest = s@.skip(from as int);
        assert forall|j: int| 0 <= j < i - from implies is_digit_char(rest[j]) by {
            assert(rest[j] == s@[from + j]);
        }
        if i < n {
            assert(rest[i - from] == s@[i as int]);
        }
        lemma_digit_prefix(rest, i - from);
        assert(rest.take(i - from) =~= s@.subrange(from as int, i as int));
    }
    substring_copy(s, from, i)
}

/// A line reporting an echo reply.
pub open spec fn reply_line(l: Seq<char>) -> bool {
    contains_sub_spec(l, "bytes from"@) || contains_sub_spec(l, "Reply from"@)
}

/// The index of the first reply line at or after `i`, or `ls.len()`.
pub open spec fn reply_idx(ls: Seq<Seq<char>>, i: int) -> int
    decreases ls.len() - i
        when 0 <= i <= ls.len()
{
    if i >= ls.len() {
        ls.len() as int
    } else if reply_line(ls[i]) {
        i
    } else {
        reply_idx(ls, i + 1)
    }
}

/// The round-trip time on a reply line, in thousandths of a millisecond:
/// the number after `time=`, or after `time `.
pub open spec fn time_of(line: Seq<char>) -> Option<nat> {
    let p = first_sub_idx(line, "time="@, 0);
    if p >= 0 {
        let num = numlike_prefix(line.skip(p + 5));
        if num_ok(num) {
            Some(milli_val(num))
        } else {
            None
        }
    } else {
        let q = first_sub_idx(line, "time "@, 0);
        if q >= 0 {
            let num = numlike_prefix(line.skip(q + 5));
            if num_ok(num) {
                Some(milli_val(num))
            } else {
                None
            }
        } else {
            None
        }
    }
}

/// The time-to-live on a reply line: the digits after `ttl=`, matched
/// case-insensitively.
pub open spec fn ttl_of(line: Seq<char>) -> Option<nat> {
    let p = first_sub_idx(lower_spec(line), "ttl="@, 0);
    if p >= 0 {
        let num = digit_prefix(line.skip(p + 4));
        if num.len() > 0 && all_digits(num) && dec_val(num) <= u32::MAX {
            Some(dec_val(num))
        } else {
            None
        }
    } else {
        None
    }
}

fn extract_time(line: &str) -> (r: Option<u64>)
    ensures
        match r {
            Some(v) => time_of(line@) == Some(v as nat),
            None => time_of(line@) is None,
        },
{
    proof {
        reveal_strlit("time=");
        reveal_strlit("time ");
    }
    let n = str_len(line);
    match find_sub(line, "time=") {
        Some(p) => {
            proof {
                reveal_strlit("time=");
                assert("time="@.len() == 5);
                assert(p + 5 <= line@.len());
            }
            let num = take_numlike(line, p + 5);
            parse_milli(num.as_str())
        },
        None => {
            match find_sub(line, "time ") {
                Some(q) => {
                    proof {
                        reveal_strlit("time ");
                        assert("time "@.len() == 5);
                        assert(q + 5 <= line@.len());
                    }
                    let num = take_numlike(line, q + 5);
                    parse_milli(num.as_str())
                },
                None => None,
            }
        },
    }
}

fn extract_ttl(line: &str) -> (r: Option<u32>)
    ensures
        match r {
            Some(v) => ttl_of(line@) == Some(v as nat),
            None => ttl_of(line@) is None,
        },
{
    proof {
        reveal_strlit("ttl=");
    }
    let low = crate::text::to_lower(line);
    let n = str_len(line);
    match find_sub(low.as_str(), "ttl=") {
        Some(p) => {
            if p + 4 > n {
                proof {
                    assert(lower_spec(line@).len() == line@.len());
                    assert(false);
                }
                return None;
            }
            let num = take_digits(line, p + 4);
            parse_u32(num.as_str())
        },
        None => None,
    }
}

/// Assembles a single echo's result from the utility's captured output:
/// success exactly when a reply line is present; without one the line
/// reads `Request timeout`. `None` means the utility could not be
/// spawned, which leaves the line empty.
pub fn ping_one_outcome(ip: &str, seq: u32, output: Option<&str>) -> (r: PingOneResult)
    ensures
        r.ip@ == ip@,
        r.seq == seq,
        match output {
            None => !r.success && r.line@ == Seq::<char>::empty() && r.time_ms is None
                && r.ttl is None,
            Some(t) => {
                let ls = lines_spec(t@);
                let k = reply_idx(ls, 0);
                if k < ls.len() {
                    &&& r.success
                    &&& r.line@ == ls[k]
                    &&& opt_milli(r.time_ms) == time_of(ls[k])
                    &&& match r.ttl {
                        Some(v) => ttl_of(ls[k]) == Some(v as nat),
                        None => ttl_of(ls[k]) is None,
                    }
                } else {
                    !r.success && r.line@ == "Request timeout"@ && r.time_ms is None && r.ttl
                        is None
                }
            },
        },
{
    let mut result = PingOneResult {
        ip: String::from_str(ip),
        seq,
        success: false,
        time_ms: None,
        ttl: None,
        line: String::new(),
    };
    if matches!(output, None) {
        return result;
    }
    let t = output.unwrap();
    let ls = split_lines(t);
    let ghost lv = lines_spec(t@);
    let n = ls.len();
    let mut i: usize = 0;
    while i < n
        invariant
            0 <= i <= n == ls.len(),
            output matches Some(tt) && tt@ == t@,
            lv == lines_spec(t@),
            ls.deep_view() == lv,
            reply_idx(lv, 0) == reply_idx(lv, i as int),
            result.ip@ == ip@,
            result.seq == seq,
            !result.success,
            result.time_ms is None,
            result.ttl is None,
            result.line@ == Seq::<char>::empty(),
        decreases n - i,
    {
        proof {
            assert(lv[i as int] == ls@[i as int]@);
        }
        let line = ls[i].as_str();
        if contains_sub(line, "bytes from") || contains_sub(line, "Reply from") {
            result.line = ls[i].clone();
            result.success = true;
            result.time_ms = match extract_time(line) {
                Some(v) => Some(Milli { thousandths: v }),
                None => None,
            };
            result.ttl = extract_ttl(line);
            proof {
                assert(reply_idx(lv, i as int) == i);
            }
            return result;
        }
        i = i + 1;
    }
    result.line = String::from_str("Request timeout");
    result.success = false;
    result
}

// ---------------------------------------------------------------------------
// Route traces
// ---------------------------------------------------------------------------

/// A token shaped like a dotted address: holds a dot, all digits and
/// dots.
pub open spec fn ip_like(t: Seq<char>) -> bool {
    t.contains('.') && forall|i: int| 0 <= i < t.len() ==> is_numlike(#[trigger] t[i])
}

fn is_ip_like(t: &str) -> (r: bool)
    ensures
        r == ip_like(t@),
{
    if !contains_char(t, '.') {
        return false;
    }
    let n = str_len(t);
    let mut i: usize = 0;
    while i < n
        invariant
            0 <= i <= n == t@.len(),
            forall|j: int| 0 <= j < i ==> is_numlike(#[trigger] t@[j]),
        decreases n - i,
    {
        if !numlike_test(char_at(t, i)) {
            return false;
        }
        i = i + 1;
    }
    true
}

/// Scanning a hop line's tokens: the first address-shaped token becomes
/// the address, and the first decimal among the rest the latency.
pub open spec fn hop_scan(toks: Seq<Seq<char>>, i: int, ip: Option<Seq<char>>, tm: Option<
    nat,
>) -> (Option<Seq<char>>, Option<nat>)
    decreases toks.len() - i
        when 0 <= i
{
    if i >= toks.len() {
        (ip, tm)
    } else {
        let t = toks[i];
        if ip_like(t) && ip is None {
            hop_scan(toks, i + 1, Some(t), tm)
        } else if !(ip_like(t) && ip is None) && num_ok(t) && tm is None {
            hop_scan(toks, i + 1, ip, Some(milli_val(t)))
        } else {
            hop_scan(toks, i + 1, ip, tm)
        }
    }
}

/// What one trace line means: the leading integer is the hop index; a
/// line of only `*` probes is a timeout hop with all fields absent; a
/// line with neither address nor latency is no hop at all.
pub open spec fn trace_line_spec(line: Seq<char>) -> Option<TraceHopV> {
    let t = trim_spec(line);
    let toks = split_ws_spec(t);
    if t.len() == 0 || toks.len() == 0 {
        None
    } else if !(toks[0].len() > 0 && all_digits(toks[0]) && dec_val(toks[0]) <= u32::MAX) {
        None
    } else {
        let hop = dec_val(toks[0]) as u32;
        let st = hop_scan(toks, 1, None, None);
        if t.contains('*') && st.0 is None {
            Some(TraceHopV { hop: hop, ip: None, hostname: None, time_ms: None })
        } else if st.0 is Some || st.1 is Some {
            Some(
                TraceHopV {
                    hop: hop,
                    ip: st.0,
                    hostname: None,
                    time_ms: match st.1 {
                        Some(v) => Some(v as u64),
                        None => None,
                    },
                },
            )
        } else {
            None
        }
    }
}

/// Parses one line of `traceroute`/`tracert` output.
pub fn parse_traceroute_line(line: &str) -> (r: Option<TraceHop>)
    ensures
        match r {
            Some(h) => trace_line_spec(line@) == Some(h@),
            None => trace_line_spec(line@) is None,
        },
{
    let t = trim(line);
    let ts = t.as_str();
    if ts.is_empty() {
        return None;
    }
    let toks = split_ws(ts);
    let ghost tv = split_ws_spec(t@);
    if toks.len() == 0 {
        return None;
    }
    proof {
        assert(tv[0] == toks@[0]@);
    }
    let hop = match parse_u32(toks[0].as_str()) {
        Some(h) => h,
        None => {
            return None;
        },
    };
    let n = toks.len();
    let mut ip: Option<String> = None;
    let mut tm: Option<u64> = None;
    let mut i: usize = 1;
    while i < n
        invariant
            1 <= i <= n == toks.len(),
            tv == split_ws_spec(t@),
            toks.deep_view() == tv,
            hop_scan(tv, 1, None, None) == hop_scan(
                tv,
                i as int,
                opt_view(ip),
                match tm {
                    Some(v) => Some(v as nat),
                    None => None,
                },
            ),
            tm matches Some(v) ==> v <= 0xFFFF_FFFFu64 * 1000 + 999,
        decreases n - i,
    {
        proof {
            assert(tv[i as int] == toks@[i as int]@);
        }
        let tok = toks[i].as_str();
        if is_ip_like(tok) && matches!(ip, None) {
            ip = Some(toks[i].clone());
        } else if matches!(tm, None) {
            match parse_milli(tok) {
                Some(v) => {
                    proof {
                        crate::text::lemma_milli_fits(tok@);
                    }
                    tm = Some(v);
                },
                None => {},
            }
        }
        i = i + 1;
    }
    if contains_char(ts, '*') && matches!(ip, None) {
        return Some(TraceHop { hop, ip: None, hostname: None, time_ms: None });
    }
    let has_ip = matches!(ip, Some(_));
    let has_tm = matches!(tm, Some(_));
    if has_ip || has_tm {
        let time_ms = match tm {
            Some(v) => Some(Milli { thousandths: v }),
            None => None,
        };
        return Some(TraceHop { hop, ip, hostname: None, time_ms });
    }
    None
}

/// The hops of a trace, in output order.
pub open spec fn trace_hops(ls: Seq<Seq<char>>, i: int) -> Seq<TraceHopV>
    decreases ls.len() - i
        when 0 <= i
{
    if i >= ls.len() {
        Seq::empty()
    } else {
        match trace_line_spec(ls[i]) {
            Some(h) => seq![h] + trace_hops(ls, i + 1),
            None => trace_hops(ls, i + 1),
        }
    }
}

/// Assembles a route trace from the utility's captured output: every
/// parseable line becomes a hop, in order; `None` output (the utility
/// could not be spawned) leaves no hops.
pub fn traceroute_outcome(target: &str, output: Option<&str>) -> (r: TracerouteResult)
    ensures
        r.target@ == target@,
        match output {
            None => r.hops.len() == 0 && r.raw_output@ == Seq::<char>::empty(),
            Some(t) => r.raw_output@ == t@ && crate::sorting::views_of(r.hops@) == trace_hops(
                lines_spec(t@),
                0,
            ),
        },
{
    let mut result = TracerouteResult {
        target: String::from_str(target),
        hops: Vec::new(),
        raw_output: String::new(),
    };
    let t = match output {
        Some(t) => t,
        None => {
            return result;
        },
    };
    result.raw_output = String::from_str(t);
    let ls = split_lines(t);
    let ghost lv = lines_spec(t@);
    let n = ls.len();
    let mut i: usize = 0;
    proof {
        assert(crate::sorting::views_of(result.hops@) =~= Seq::<TraceHopV>::empty());
    }
    while i < n
        invariant
            0 <= i <= n == ls.len(),
            lv == lines_spec(t@),
            ls.deep_view() == lv,
            result.target@ == target@,
            result.raw_output@ == t@,
            trace_hops(lv, 0) == crate::sorting::views_of(result.hops@) + trace_hops(
                lv,
                i as int,
            ),
        decreases n - i,
    {
        proof {
            assert(lv[i as int] == ls@[i as int]@);
        }
        let ghost h0 = crate::sorting::views_of(result.hops@);
        match parse_traceroute_line(ls[i].as_str()) {
            Some(h) => {
                result.hops.push(h);
                proof {
                    assert(crate::sorting::views_of(result.hops@) =~= h0.push(h@));
                    assert(h0 + (seq![h@] + trace_hops(lv, i as int + 1)) =~= crate::sorting::views_of(
                        result.hops@,
                    ) + trace_hops(lv, i as int + 1));
                }
            },
            None => {},
        }
        i = i + 1;
    }
    proof {
        assert(crate::sorting::views_of(result.hops@) + trace_hops(lv, n as int)
            =~= crate::sorting::views_of(result.hops@));
    }
    result
}

} // verus!

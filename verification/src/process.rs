//! Process-termination support: the protected-process rule, the parsers
//! for pid lookups, and the aggregation of kill outcomes. The `kill` and
//! `lsof`/`netstat` invocations happen outside the library.

use vstd::prelude::*;
use crate::text::{
    all_digits, contains_sub, contains_sub_spec, dec_val, lines_spec, lower_spec, parse_u32,
    split_lines, split_ws, split_ws_spec, trim, trim_spec, };

verus! {

/// The outcome of one kill attempt.
#[derive(Debug, Clone)]
pub struct KillResult {
    pub success: bool,
    pub pid: u32,
    pub message: String,
}

/// A process looked up before a kill attempt.
#[derive(Debug, Clone)]
pub struct ProcessInfo {
    pub pid: u32,
    pub name: String,
    pub is_system: bool,
}

/// Whether a process name matches the protected system-process list:
/// the lowered name contains one of the protected names.
pub open spec fn is_protected_spec(n: Seq<char>) -> bool {
    let l = lower_spec(n);
    ||| contains_sub_spec(l, "launchd"@)
    ||| contains_sub_spec(l, "kernel_task"@)
    ||| contains_sub_spec(l, "windowserver"@)
    ||| contains_sub_spec(l, "loginwindow"@)
    ||| contains_sub_spec(l, "systemuiserver"@)
    ||| contains_sub_spec(l, "finder"@)
    ||| contains_sub_spec(l, "dock"@)
    ||| contains_sub_spec(l, "cfprefsd"@)
    ||| contains_sub_spec(l, "mds"@)
    ||| contains_sub_spec(l, "mds_stores"@)
    ||| contains_sub_spec(l, "init"@)
    ||| contains_sub_spec(l, "systemd"@)
    ||| contains_sub_spec(l, "dbus-daemon"@)
    ||| contains_sub_spec(l, "gnome-shell"@)
    ||| contains_sub_spec(l, "kwin"@)
    ||| contains_sub_spec(l, "system"@)
    ||| contains_sub_spec(l, "csrss.exe"@)
    ||| contains_sub_spec(l, "wininit.exe"@)
    ||| contains_sub_spec(l, "services.exe"@)
    ||| contains_sub_spec(l, "lsass.exe"@)
    ||| contains_sub_spec(l, "svchost.exe"@)
    ||| contains_sub_spec(l, "dwm.exe"@)
    ||| contains_sub_spec(l, "explorer.exe"@)
}

/// Whether this process is a protected system process that a plain kill
/// must refuse.
pub fn is_protected_process(name: &str) -> (r: bool)
    ensures
        r == is_protected_spec(name@),
{
    let low = crate::text::to_lower(name);
    let l = low.as_str();
    contains_sub(l, "launchd") || contains_sub(l, "kernel_task") || contains_sub(
        l,
        "windowserver",
    ) || contains_sub(l, "loginwindow") || contains_sub(l, "systemuiserver") || contains_sub(
        l,
        "finder",
    ) || contains_sub(l, "dock") || contains_sub(l, "cfprefsd") || contains_sub(l, "mds")
        || contains_sub(l, "mds_stores") || contains_sub(l, "init") || contains_sub(l, "systemd")
        || contains_sub(l, "dbus-daemon") || contains_sub(l, "gnome-shell") || contains_sub(
        l,
        "kwin",
    ) || contains_sub(l, "system") || contains_sub(l, "csrss.exe") || contains_sub(
        l,
        "wininit.exe",
    ) || contains_sub(l, "services.exe") || contains_sub(l, "lsass.exe") || contains_sub(
        l,
        "svchost.exe",
    ) || contains_sub(l, "dwm.exe") || contains_sub(l, "explorer.exe")
}

/// Builds the record for a looked-up process, applying the protected rule.
pub fn make_process_info(pid: u32, name: String) -> (r: ProcessInfo)
    ensures
        r.pid == pid,
        r.name@ == name@,
        r.is_system == is_protected_spec(name@),
{
    let is_system = is_protected_process(name.as_str());
    ProcessInfo { pid, name, is_system }
}

/// Whether a plain (non-forced) kill may proceed.
pub fn kill_allowed(info: &Option<ProcessInfo>, force: bool) -> (r: bool)
    ensures
        r == match info {
            Some(i) => !(i.is_system && !force),
            None => true,
        },
{
    match info {
        Some(i) => !(i.is_system && !force),
        None => true,
    }
}

/// The pids named by `lsof -ti` output: one decimal per line, lines that
/// do not parse skipped.
pub open spec fn pid_lines_spec(ls: Seq<Seq<char>>, i: int) -> Seq<u32>
    decreases ls.len() - i
        when 0 <= i
{
    if i >= ls.len() {
        Seq::empty()
    } else {
        let t = trim_spec(ls[i]);
        if t.len() > 0 && all_digits(t) && dec_val(t) <= u32::MAX {
            seq![(dec_val(t) as u32)] + pid_lines_spec(ls, i + 1)
        } else {
            pid_lines_spec(ls, i + 1)
        }
    }
}

/// Parses `lsof -ti` output into the listed pids.
pub fn parse_pid_lines(text: &str) -> (r: Vec<u32>)
    ensures
        r@ == pid_lines_spec(lines_spec(text@), 0),
{
    let ls = split_lines(text);
    let ghost lv = lines_spec(text@);
    let n = ls.len();
    let mut out: Vec<u32> = Vec::new();
    let mut i: usize = 0;
    while i < n
        invariant
            0 <= i <= n == ls.len(),
            lv == lines_spec(text@),
            ls.deep_view() == lv,
            pid_lines_spec(lv, 0) == out@ + pid_lines_spec(lv, i as int),
        decreases n - i,
    {
        proof {
            assert(lv[i as int] == ls@[i as int]@);
        }
        let t = trim(ls[i].as_str());
        let ghost o0 = out@;
        match parse_u32(t.as_str()) {
            Some(p) => {
                out.push(p);
                proof {
                    assert(o0 + (seq![p] + pid_lines_spec(lv, i as int + 1)) =~= out@
                        + pid_lines_spec(lv, i as int + 1));
                }
            },
            None => {},
        }
        i = i + 1;
    }
    proof {
        assert(out@ + pid_lines_spec(lv, n as int) =~= out@);
    }
    out
}

/// The pids of `netstat -ano` lines that listen on the given port text.
pub open spec fn netstat_pid_spec(ls: Seq<Seq<char>>, i: int, pat: Seq<char>) -> Seq<u32>
    decreases ls.len() - i
        when 0 <= i
{
    if i >= ls.len() {
        Seq::empty()
    } else {
        let l = ls[i];
        let toks = split_ws_spec(l);
        if contains_sub_spec(l, pat) && contains_sub_spec(l, "LISTENING"@) && toks.len() > 0
            && toks.last().len() > 0 && all_digits(toks.last()) && dec_val(toks.last())
            <= u32::MAX {
            seq![(dec_val(toks.last()) as u32)] + netstat_pid_spec(ls, i + 1, pat)
        } else {
            netstat_pid_spec(ls, i + 1, pat)
        }
    }
}

/// Parses `netstat -ano` output into the pids listening on a port; `pat`
/// is the `:port` fragment to look for.
pub fn parse_netstat_pids(text: &str, pat: &str) -> (r: Vec<u32>)
    ensures
        r@ == netstat_pid_spec(lines_spec(text@), 0, pat@),
{
    let ls = split_lines(text);
    let ghost lv = lines_spec(text@);
    let n = ls.len();
    let mut out: Vec<u32> = Vec::new();
    let mut i: usize = 0;
    while i < n
        invariant
            0 <= i <= n == ls.len(),
            lv == lines_spec(text@),
            ls.deep_view() == lv,
            netstat_pid_spec(lv, 0, pat@) == out@ + netstat_pid_spec(lv, i as int, pat@),
        decreases n - i,
    {
        proof {
            assert(lv[i as int] == ls@[i as int]@);
        }
        let line = ls[i].as_str();
        let ghost o0 = out@;
        if contains_sub(line, pat) && contains_sub(line, "LISTENING") {
            let toks = split_ws(line);
            if toks.len() > 0 {
                let lastix = toks.len() - 1;
                proof {
                    assert(toks.deep_view()[lastix as int] == toks@[lastix as int]@);
                    assert(split_ws_spec(lv[i as int]).last() == toks@[lastix as int]@);
                }
                match parse_u32(toks[lastix].as_str()) {
                    Some(p) => {
                        out.push(p);
                        proof {
                            assert(o0 + (seq![p] + netstat_pid_spec(lv, i as int + 1, pat@))
                                =~= out@ + netstat_pid_spec(lv, i as int + 1, pat@));
                        }
                    },
                    None => {},
                }
            }
        }
        i = i + 1;
    }
    proof {
        assert(out@ + netstat_pid_spec(lv, n as int, pat@) =~= out@);
    }
    out
}

/// Whether every kill in a batch succeeded.
pub fn all_killed(results: &Vec<KillResult>) -> (r: bool)
    ensures
        r == forall|k: int| 0 <= k < results.len() ==> (#[trigger] results@[k]).success,
{
    let n = results.len();
    let mut i: usize = 0;
    while i < n
        invariant
            0 <= i <= n == results.len(),
            forall|k: int| 0 <= k < i ==> (#[trigger] results@[k]).success,
        decreases n - i,
    {
        if !results[i].success {
            return false;
        }
        i = i + 1;
    }
    true
}

/// The messages joined with `; ` between them.
pub open spec fn join_spec(ss: Seq<Seq<char>>, i: int) -> Seq<char>
    decreases ss.len() - i
        when 0 <= i
{
    if i >= ss.len() {
        Seq::empty()
    } else if i == ss.len() - 1 {
        ss[i]
    } else {
        ss[i] + "; "@ + join_spec(ss, i + 1)
    }
}

/// Joins a batch's messages with `; `, as one report line.
pub fn join_messages(msgs: &Vec<String>) -> (r: String)
    ensures
        r@ == join_spec(msgs.deep_view(), 0),
{
    let n = msgs.len();
    let ghost mv = msgs.deep_view();
    let mut out = String::new();
    if n == 0 {
        proof {
            assert(out@ =~= join_spec(mv, 0));
        }
        return out;
    }
    // build back to front so each step matches the definition
    let mut i: usize = n;
    let mut tail = String::new();
    while i > 0
        invariant
            0 <= i <= n == msgs.len(),
            mv == msgs.deep_view(),
            i < n ==> tail@ == join_spec(mv, i as int),
            i == n ==> tail@ == Seq::<char>::empty(),
        decreases i,
    {
        i = i - 1;
        proof {
            assert(mv[i as int] == msgs@[i as int]@);
        }
        let mut piece = msgs[i].clone();
        if i + 1 < n {
            piece.append("; ");
            piece.append(tail.as_str());
            proof {
                assert(piece@ =~= mv[i as int] + "; "@ + join_spec(mv, i as int + 1));
            }
        } else {
            proof {
                assert(piece@ =~= join_spec(mv, i as int));
            }
        }
        tail = piece;
    }
    tail
}

} // verus!

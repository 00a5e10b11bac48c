//! Rules of the managed web backend: its launch configuration, the marker that
//! ties spawned processes to this launcher, and the reading of the port scans
//! (`netstat` on Windows, `lsof` elsewhere) that find processes holding the port.

use vstd::prelude::*;
use vstd::slice::slice_subrange;
use crate::text::{
    chars_of, decimal, eq_ignore_ascii_case, lines, lines_of, lossy_chars, parse_u16, parse_u32,
    parse_unsigned_chars, push_decimal, push_text, rfind_char, rsplit_once, same_chars, same_ignoring_ascii_case,
    string_from, trim, trim_bounds, utf8_lossy, views, words, words_of,
};

verus! {

/// The port on which the web UI listens by default.
pub const WEBUI_PORT: u16 = 9150;

/// The script that the backend's Python runs.
pub const BACKEND_SCRIPT: &'static str = "main.py";

/// The environment variable that carries the launcher's process id to the backend.
pub const LAUNCHER_PID_ENV: &'static str = "NTEP_LAUNCHER_PID";

/// How the web backend is launched.
#[derive(Clone, Copy, Debug)]
pub struct WebuiLaunchConfig {
    pub port: u16,
}

impl Default for WebuiLaunchConfig {
    fn default() -> (r: Self)
        ensures
            r.port == WEBUI_PORT,
    {
        WebuiLaunchConfig { port: WEBUI_PORT }
    }
}

impl WebuiLaunchConfig {
    /// The arguments given to the backend's Python: the script alone.
    pub fn args(&self) -> (r: [&'static str; 1])
        ensures
            r[0]@ == BACKEND_SCRIPT@,
    {
        [BACKEND_SCRIPT]
    }
}

/// `s` followed by the decimal notation of `n`.
pub open spec fn with_decimal(s: Seq<char>, n: nat) -> Seq<char> {
    s + decimal(n)
}

/// The decimal notation of a process id, the value of `LAUNCHER_PID_ENV`.
pub fn pid_text(pid: u32) -> (s: String)
    ensures
        s@ == decimal(pid as nat),
{
    let mut cs: Vec<char> = Vec::new();
    push_decimal(pid as u64, &mut cs);
    assert(cs@ =~= decimal(pid as nat));
    string_from(cs.as_slice())
}

/// What `pid_text` writes reads back as the same id, as the port scans read ids.
pub proof fn lemma_pid_text_reads_back(pid: u32)
    ensures
        parse_u32(decimal(pid as nat)) == Some(pid),
{
    crate::text::lemma_decimal_reads_back(pid as nat, u32::MAX as nat);
}

/// The address at which the backend is awaited: `127.0.0.1:<port>`.
pub fn backend_address(port: u16) -> (s: String)
    ensures
        s@ == with_decimal("127.0.0.1:"@, port as nat),
{
    let mut cs = chars_of("127.0.0.1:");
    push_decimal(port as u64, &mut cs);
    string_from(cs.as_slice())
}

/// The environment entry `NTEP_LAUNCHER_PID=<pid>` that marks the processes
/// started by the launcher whose id is `pid`.
pub open spec fn launcher_marker(pid: u32) -> Seq<char> {
    with_decimal(LAUNCHER_PID_ENV@ + "="@, pid as nat)
}

/// The marker of the launcher whose id is `pid` (see `launcher_marker`).
pub fn launcher_marker_text(pid: u32) -> (s: String)
    ensures
        s@ == launcher_marker(pid),
{
    let mut cs = chars_of(LAUNCHER_PID_ENV);
    push_text(&mut cs, "=");
    push_decimal(pid as u64, &mut cs);
    assert(cs@ =~= launcher_marker(pid));
    string_from(cs.as_slice())
}

/// A process left behind by this launcher: not the launcher itself, and one of
/// its environment entries is the launcher's marker.
pub fn is_leaked_backend_entry(pid: u32, current_pid: u32, env_entry: &str) -> (r: bool)
    ensures
        r == (pid != current_pid && env_entry@ == launcher_marker(current_pid)),
{
    if pid == current_pid {
        return false;
    }
    let marker = launcher_marker_text(current_pid);
    let entry = chars_of(env_entry);
    let want = chars_of(marker.as_str());
    same_chars(entry.as_slice(), want.as_slice())
}

/// Process ids in increasing order, each once: the order in which a
/// `BTreeSet<u32>` holds them.
pub open spec fn strictly_increasing(s: Seq<u32>) -> bool {
    forall|i: int, j: int| 0 <= i < j < s.len() ==> s[i] < s[j]
}

/// Adds `x` to the ordered set `v`.
pub fn insert_ordered(v: &mut Vec<u32>, x: u32)
    requires
        strictly_increasing(old(v)@),
    ensures
        strictly_increasing(final(v)@),
        final(v)@.to_set() == old(v)@.to_set().insert(x),
{
    let n = v.len();
    let mut p: usize = 0;
    while p < n && v[p] < x
        invariant
            p <= n == v@.len(),
            forall|j: int| 0 <= j < p ==> v@[j] < x,
        decreases n - p,
    {
        p = p + 1;
    }
    if p < n && v[p] == x {
        assert(v@.to_set().insert(x) =~= v@.to_set()) by {
            assert(v@.to_set().contains(v@[p as int]));
        }
        return;
    }
    let ghost before = v@;
    v.insert(p, x);
    assert forall|a: u32| v@.to_set().contains(a) <==> before.to_set().insert(x).contains(a) by {
        if v@.to_set().contains(a) {
            let k = choose|k: int| 0 <= k < v@.len() && v@[k] == a;
            if k < p {
                assert(before[k] == a);
            } else if k > p {
                assert(before[k - 1] == a);
            }
        }
        if before.to_set().contains(a) {
            let k = choose|k: int| 0 <= k < before.len() && before[k] == a;
            if k < p {
                assert(v@[k] == a);
            } else {
                assert(v@[k + 1] == a);
            }
        }
        if a == x {
            assert(v@[p as int] == x);
        }
    }
    assert(v@.to_set() =~= before.to_set().insert(x));
}

/// The values that `f` gives for the indices below `i`.
pub open spec fn found_below(f: spec_fn(int) -> Option<u32>, i: int) -> Set<u32> {
    Set::new(|pid: u32| exists|k: int| 0 <= k < i && #[trigger] f(k) == Some(pid))
}

proof fn lemma_found_below_step(f: spec_fn(int) -> Option<u32>, i: int, before: Set<u32>, after: Set<u32>)
    requires
        0 <= i,
        before == found_below(f, i),
        after == (match f(i) {
            Some(p) => before.insert(p),
            None => before,
        }),
    ensures
        after == found_below(f, i + 1),
{
    assert forall|pid: u32| after.contains(pid) <==> found_below(f, i + 1).contains(pid) by {
        if found_below(f, i + 1).contains(pid) {
            let k = choose|k: int| 0 <= k < i + 1 && #[trigger] f(k) == Some(pid);
            if k < i {
                assert(before.contains(pid));
            }
        }
        if before.contains(pid) {
            let k = choose|k: int| 0 <= k < i && #[trigger] f(k) == Some(pid);
            assert(0 <= k < i + 1 && f(k) == Some(pid));
        }
        if f(i) == Some(pid) {
            assert(0 <= i < i + 1 && f(i) == Some(pid));
        }
    }
    assert(after =~= found_below(f, i + 1));
}

/// `address` is a local address `host:port` whose port, after its last `:`,
/// reads as `port`.
pub open spec fn address_uses_port(address: Seq<char>, port: u16) -> bool {
    match rsplit_once(address, ':') {
        Some((_, port_part)) => parse_u16(port_part) == Some(port),
        None => false,
    }
}

fn address_chars_use_port(address: &[char], port: u16) -> (r: bool)
    ensures
        r == address_uses_port(address@, port),
{
    match rfind_char(address, ':') {
        Some(i) => {
            assert(i < address.len());
            let rest = slice_subrange(address, i + 1, address.len());
            assert(rest@ =~= address@.skip(i + 1));
            match parse_unsigned_chars(rest, 65535) {
                Some(v) => v == port as u32,
                None => false,
            }
        },
        None => false,
    }
}

/// Whether the local address in a `netstat` row, `host:port`, uses `port`.
pub fn local_address_uses_port(address: &str, port: u16) -> (r: bool)
    ensures
        r == address_uses_port(address@, port),
{
    let cs = chars_of(address);
    address_chars_use_port(cs.as_slice(), port)
}

/// The process id that a row of `netstat -ano -p tcp` names as listening on
/// `port`: a row of at least five words, `TCP`, the local address, the foreign
/// address, `LISTENING` (both without regard to ASCII case), and the id last.
pub open spec fn netstat_listener_pid(line: Seq<char>, port: u16) -> Option<u32> {
    let parts = words(line);
    if parts.len() >= 5 && eq_ignore_ascii_case(parts[0], "TCP"@) && eq_ignore_ascii_case(
        parts[3],
        "LISTENING"@,
    ) && address_uses_port(parts[1], port) {
        parse_u32(parts.last())
    } else {
        None
    }
}

/// The ids that the rows of a `netstat` output name as listening on `port`.
pub open spec fn netstat_pids(output: Seq<u8>, port: u16) -> Set<u32> {
    netstat_pids_in(utf8_lossy(output), port)
}

/// The ids that the rows of a decoded `netstat` output name as listening on
/// `port`.
pub open spec fn netstat_pids_in(text: Seq<char>, port: u16) -> Set<u32> {
    let ls = lines(text);
    found_below(|i: int| netstat_listener_pid(ls[i], port), ls.len() as int)
}

fn netstat_row_pid(line: &[char], port: u16, tcp: &[char], listening: &[char]) -> (r: Option<u32>)
    requires
        tcp@ == "TCP"@,
        listening@ == "LISTENING"@,
    ensures
        r == netstat_listener_pid(line@, port),
{
    let parts = words_of(line);
    let n = parts.len();
    proof {
        assert(views(parts@).len() == n);
        if n >= 5 {
            assert(views(parts@)[0] == parts@[0]@);
            assert(views(parts@)[1] == parts@[1]@);
            assert(views(parts@)[3] == parts@[3]@);
            assert(views(parts@).last() == parts@[n - 1]@);
        }
    }
    if n < 5 || !same_ignoring_ascii_case(parts[0].as_slice(), tcp) || !same_ignoring_ascii_case(
        parts[3].as_slice(),
        listening,
    ) || !address_chars_use_port(parts[1].as_slice(), port) {
        return None;
    }
    parse_unsigned_chars(parts[n - 1].as_slice(), u32::MAX)
}

/// The ids of the processes that a `netstat -ano -p tcp` output names as
/// listening on `port`, in increasing order, each once.
pub fn parse_windows_netstat_pids(output: &[u8], port: u16) -> (r: Vec<u32>)
    ensures
        strictly_increasing(r@),
        r@.to_set() == netstat_pids(output@, port),
{
    let text = lossy_chars(output);
    netstat_pids_in_text(text.as_slice(), port)
}

/// The ids that the rows of a decoded `netstat -ano -p tcp` output name as
/// listening on `port`, in increasing order, each once.
pub fn netstat_pids_in_text(text: &[char], port: u16) -> (r: Vec<u32>)
    ensures
        strictly_increasing(r@),
        r@.to_set() == netstat_pids_in(text@, port),
{
    let ls = lines_of(text);
    let tcp = chars_of("TCP");
    let listening = chars_of("LISTENING");
    let ghost lv = lines(text@);
    let mut r: Vec<u32> = Vec::new();
    let n = ls.len();
    assert(r@.to_set() =~= found_below(|k: int| netstat_listener_pid(lv[k], port), 0));
    for i in 0..n
        invariant
            n == ls@.len() == lv.len(),
            views(ls@) == lv,
            tcp@ == "TCP"@,
            listening@ == "LISTENING"@,
            lv == lines(text@),
            strictly_increasing(r@),
            r@.to_set() == found_below(|k: int| netstat_listener_pid(lv[k], port), i as int),
    {
        assert(lv[i as int] == ls@[i as int]@);
        let found = netstat_row_pid(ls[i].as_slice(), port, tcp.as_slice(), listening.as_slice());
        let ghost before = r@.to_set();
        if let Some(pid) = found {
            insert_ordered(&mut r, pid);
        }
        proof {
            lemma_found_below_step(
                |k: int| netstat_listener_pid(lv[k], port),
                i as int,
                before,
                r@.to_set(),
            );
        }
    }
    r
}

/// The ids that the lines of an `lsof -t` output give, each line read as a
/// number after trimming.
pub open spec fn lsof_pids(output: Seq<u8>) -> Set<u32> {
    lsof_pids_in(utf8_lossy(output))
}

/// The ids that the lines of a decoded `lsof -t` output give.
pub open spec fn lsof_pids_in(text: Seq<char>) -> Set<u32> {
    let ls = lines(text);
    found_below(|i: int| parse_u32(trim(ls[i])), ls.len() as int)
}

/// The ids of the processes that an `lsof -t` output lists, in increasing order,
/// each once.
pub fn parse_lsof_pids(output: &[u8]) -> (r: Vec<u32>)
    ensures
        strictly_increasing(r@),
        r@.to_set() == lsof_pids(output@),
{
    let text = lossy_chars(output);
    lsof_pids_in_text(text.as_slice())
}

/// The ids that the lines of a decoded `lsof -t` output give, in increasing
/// order, each once.
pub fn lsof_pids_in_text(text: &[char]) -> (r: Vec<u32>)
    ensures
        strictly_increasing(r@),
        r@.to_set() == lsof_pids_in(text@),
{
    let ls = lines_of(text);
    let ghost lv = lines(text@);
    let mut r: Vec<u32> = Vec::new();
    let n = ls.len();
    assert(r@.to_set() =~= found_below(|k: int| parse_u32(trim(lv[k])), 0));
    for i in 0..n
        invariant
            n == ls@.len() == lv.len(),
            views(ls@) == lv,
            lv == lines(text@),
            strictly_increasing(r@),
            r@.to_set() == found_below(|k: int| parse_u32(trim(lv[k])), i as int),
    {
        assert(lv[i as int] == ls@[i as int]@);
        let line = ls[i].as_slice();
        let (a, b) = trim_bounds(line);
        let piece = slice_subrange(line, a, b);
        let found = parse_unsigned_chars(piece, u32::MAX);
        let ghost before = r@.to_set();
        if let Some(pid) = found {
            insert_ordered(&mut r, pid);
        }
        proof {
            lemma_found_below_step(|k: int| parse_u32(trim(lv[k])), i as int, before, r@.to_set());
        }
    }
    r
}

/// The ids of a port scan that are to be killed: all but id 0 and the launcher's
/// own, in the order of the scan.
pub fn pids_to_kill(pids: &[u32], current_pid: u32) -> (r: Vec<u32>)
    ensures
        r@ == pids@.filter(|p: u32| p != 0 && p != current_pid),
        forall|i: int| 0 <= i < r@.len() ==> r@[i] != 0 && r@[i] != current_pid,
{
    let mut r: Vec<u32> = Vec::new();
    let n = pids.len();
    for i in 0..n
        invariant
            n == pids@.len(),
            r@ == pids@.take(i as int).filter(|p: u32| p != 0 && p != current_pid),
    {
        let p = pids[i];
        proof {
            assert(pids@.take(i + 1) =~= pids@.take(i as int).push(p));
            pids@.take(i as int).lemma_filter_push(p, |p: u32| p != 0 && p != current_pid);
        }
        if p != 0 && p != current_pid {
            r.push(p);
        }
    }
    assert(pids@.take(n as int) =~= pids@);
    proof {
        assert forall|i: int| 0 <= i < r@.len() implies r@[i] != 0 && r@[i] != current_pid by {
            pids@.lemma_filter_pred(|p: u32| p != 0 && p != current_pid, i);
        }
    }
    r
}

} // verus!

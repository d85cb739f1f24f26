//! Choosing the WeChat process to attach to, and the handle types of the
//! frida-core C API.

use vstd::prelude::*;
use crate::cli::is_ascii_digit;
use crate::json::str_equal;

verus! {

/// A process as frida-core enumerates it.
pub struct Process {
    pub pid: u32,
    pub name: String,
    pub path: String,
    pub ppid: u32,
}

/// The parent a process is grouped under: its parent id where it has one,
/// otherwise its own id.
pub open spec fn group_pid(p: Process) -> u32 {
    if p.ppid > 0 {
        p.ppid
    } else {
        p.pid
    }
}

/// The number of processes grouped under `pid`.
pub open spec fn group_count(ps: Seq<Process>, pid: u32) -> nat
    decreases ps.len(),
{
    if ps.len() == 0 {
        0
    } else {
        group_count(ps.drop_last(), pid) + if group_pid(ps.last()) == pid {
            1nat
        } else {
            0nat
        }
    }
}

fn group_pid_exec(p: &Process) -> (r: u32)
    ensures
        r == group_pid(*p),
{
    if p.ppid > 0 {
        p.ppid
    } else {
        p.pid
    }
}

fn count_group(processes: &Vec<Process>, pid: u32) -> (r: usize)
    ensures
        r == group_count(processes@, pid),
{
    let mut n: usize = 0;
    let mut i: usize = 0;
    while i < processes.len()
        invariant
            i <= processes@.len(),
            n == group_count(processes@.take(i as int), pid),
            n <= i,
        decreases processes@.len() - i,
    {
        assert(processes@.take(i as int + 1).drop_last() =~= processes@.take(i as int));
        if group_pid_exec(&processes[i]) == pid {
            n = n + 1;
        }
        i = i + 1;
    }
    assert(processes@.take(i as int) =~= processes@);
    n
}

/// The parent id under which the most processes are grouped; `None` where
/// there is no process. Among parents with equally many processes any may be
/// given (this one gives the first met).
pub fn find_most_common_pid(processes: &Vec<Process>) -> (r: Option<u32>)
    ensures
        r is None <==> processes@.len() == 0,
        r matches Some(pid) ==> group_count(processes@, pid) >= 1 && forall|q: u32|
            #[trigger] group_count(processes@, q) <= group_count(processes@, pid),
{
    if processes.len() == 0 {
        return None;
    }
    let mut best = group_pid_exec(&processes[0]);
    let mut best_count = count_group(processes, best);
    proof {
        lemma_group_count_member(processes@, 0);
    }
    let mut i: usize = 1;
    while i < processes.len()
        invariant
            1 <= i <= processes@.len(),
            best_count == group_count(processes@, best),
            best_count >= 1,
            forall|j: int| 0 <= j < i ==> group_count(processes@, group_pid(#[trigger] processes@[j])) <= best_count,
        decreases processes@.len() - i,
    {
        let pid = group_pid_exec(&processes[i]);
        let c = count_group(processes, pid);
        if c > best_count {
            best = pid;
            best_count = c;
        }
        i = i + 1;
    }
    proof {
        assert forall|q: u32| group_count(processes@, q) <= group_count(processes@, best) by {
            if group_count(processes@, q) > 0 {
                let j = lemma_group_count_witness(processes@, q);
                assert(group_pid(processes@[j]) == q);
            }
        }
    }
    Some(best)
}

proof fn lemma_group_count_member(ps: Seq<Process>, j: int)
    requires
        0 <= j < ps.len(),
    ensures
        group_count(ps, group_pid(ps[j])) >= 1,
    decreases ps.len(),
{
    if j < ps.len() - 1 {
        lemma_group_count_member(ps.drop_last(), j);
        assert(ps.drop_last()[j] == ps[j]);
    }
}

proof fn lemma_group_count_witness(ps: Seq<Process>, q: u32) -> (j: int)
    requires
        group_count(ps, q) > 0,
    ensures
        0 <= j < ps.len(),
        group_pid(ps[j]) == q,
    decreases ps.len(),
{
    if group_pid(ps.last()) == q {
        ps.len() - 1
    } else {
        let j = lemma_group_count_witness(ps.drop_last(), q);
        assert(ps.drop_last()[j] == ps[j]);
        j
    }
}

/// The maximal runs of ASCII digits in `s`, in order.
pub open spec fn digit_runs(s: Seq<char>) -> Seq<Seq<char>>
    decreases s.len(),
{
    if s.len() == 0 {
        Seq::empty()
    } else if !is_ascii_digit(s.last()) {
        digit_runs(s.drop_last())
    } else {
        let runs = digit_runs(s.drop_last());
        if s.len() >= 2 && is_ascii_digit(s[s.len() - 2]) {
            runs.update(runs.len() - 1, runs.last().push(s.last()))
        } else {
            runs.push(seq![s.last()])
        }
    }
}

/// The version in a list of digit runs: the last run whose value fits in a
/// `u32` and is above 1000.
pub open spec fn version_of_runs(runs: Seq<Seq<char>>) -> Option<u32>
    decreases runs.len(),
{
    if runs.len() == 0 {
        None
    } else if crate::cli::decimal_value(runs.last()) <= u32::MAX && crate::cli::decimal_value(
        runs.last(),
    ) > 1000 {
        Some(crate::cli::decimal_value(runs.last()) as u32)
    } else {
        version_of_runs(runs.drop_last())
    }
}

/// The first process grouped under `parent_pid`, if any.
pub open spec fn first_in_group(ps: Seq<Process>, parent_pid: u32) -> Option<int>
    decreases ps.len(),
{
    if ps.len() == 0 {
        None
    } else if group_pid(ps[0]) == parent_pid {
        Some(0)
    } else {
        match first_in_group(ps.drop_first(), parent_pid) {
            Some(j) => Some(j + 1),
            None => None,
        }
    }
}

/// The version read from the path of the first process grouped under
/// `parent_pid`: the last number in the path that is above 1000 (and fits in
/// a `u32`).
pub open spec fn extract_version_spec(ps: Seq<Process>, parent_pid: u32) -> Option<u32> {
    match first_in_group(ps, parent_pid) {
        None => None,
        Some(j) => version_of_runs(digit_runs(ps[j].path@)),
    }
}

proof fn lemma_runs_nonempty(s: Seq<char>)
    ensures
        forall|k: int| 0 <= k < digit_runs(s).len() ==> (#[trigger] digit_runs(s)[k]).len() > 0 && forall|m: int|
            0 <= m < digit_runs(s)[k].len() ==> is_ascii_digit(#[trigger] digit_runs(s)[k][m]),
        s.len() > 0 && is_ascii_digit(s.last()) ==> digit_runs(s).len() > 0,
    decreases s.len(),
{
    if s.len() > 0 {
        let pre = s.drop_last();
        lemma_runs_nonempty(pre);
        let r = digit_runs(pre);
        if is_ascii_digit(s.last()) {
            if s.len() >= 2 && is_ascii_digit(s[s.len() - 2]) {
                assert(pre.last() == s[s.len() - 2]);
                let out = r.update(r.len() - 1, r.last().push(s.last()));
                assert forall|k: int| 0 <= k < out.len() implies (#[trigger] out[k]).len() > 0 && forall|m: int|
                    0 <= m < out[k].len() ==> is_ascii_digit(#[trigger] out[k][m]) by {
                    if k == r.len() - 1 {
                        assert forall|m: int| 0 <= m < out[k].len() implies is_ascii_digit(#[trigger] out[k][m]) by {
                            if m < r.last().len() {
                                assert(out[k][m] == r[k][m]);
                            }
                        }
                    }
                }
            } else {
                let out = r.push(seq![s.last()]);
                assert forall|k: int| 0 <= k < out.len() implies (#[trigger] out[k]).len() > 0 && forall|m: int|
                    0 <= m < out[k].len() ==> is_ascii_digit(#[trigger] out[k][m]) by {
                    if k < r.len() {
                        assert(out[k] == r[k]);
                    }
                }
            }
        }
    }
}

/// The digit runs of `path`, in order.
fn digit_runs_exec(path: &str) -> (r: Vec<Vec<char>>)
    ensures
        r@.len() == digit_runs(path@).len(),
        forall|k: int| 0 <= k < r@.len() ==> (#[trigger] r@[k])@ == digit_runs(path@)[k],
{
    let n = path.unicode_len();
    let mut runs: Vec<Vec<char>> = Vec::new();
    let mut prev_digit = false;
    let mut i: usize = 0;
    while i < n
        invariant
            n == path@.len(),
            i <= n,
            runs@.len() == digit_runs(path@.take(i as int)).len(),
            forall|k: int| 0 <= k < runs@.len() ==> (#[trigger] runs@[k])@ == digit_runs(path@.take(i as int))[k],
            prev_digit == (i > 0 && is_ascii_digit(path@[i - 1])),
        decreases n - i,
    {
        let c = path.get_char(i);
        let ghost pre = path@.take(i as int);
        let ghost cur = path@.take(i as int + 1);
        assert(cur.drop_last() =~= pre);
        assert(cur.last() == c);
        proof {
            lemma_runs_nonempty(pre);
        }
        let is_digit = '0' <= c && c <= '9';
        if is_digit {
            if prev_digit {
                assert(cur[cur.len() - 2] == path@[i - 1]);
                let last = runs.len() - 1;
                let mut run = runs.pop().unwrap();
                run.push(c);
                runs.push(run);
                assert(runs@.len() == digit_runs(cur).len());
                assert forall|k: int| 0 <= k < runs@.len() implies (#[trigger] runs@[k])@ == digit_runs(cur)[k] by {
                    if k < last {
                    }
                }
            } else {
                let mut run: Vec<char> = Vec::new();
                run.push(c);
                runs.push(run);
                assert(run@ =~= seq![c]);
                proof {
                    if cur.len() >= 2 {
                        assert(cur[cur.len() - 2] == path@[i - 1]);
                    }
                }
                assert forall|k: int| 0 <= k < runs@.len() implies (#[trigger] runs@[k])@ == digit_runs(cur)[k] by {
                }
            }
        }
        prev_digit = is_digit;
        i = i + 1;
    }
    assert(path@.take(n as int) =~= path@);
    runs
}

/// The value of a run of digits, where it fits in a `u32`.
fn run_value(run: &Vec<char>) -> (r: Option<u32>)
    requires
        forall|m: int| 0 <= m < run@.len() ==> is_ascii_digit(#[trigger] run@[m]),
    ensures
        r matches Some(v) ==> v as nat == crate::cli::decimal_value(run@),
        r is None ==> crate::cli::decimal_value(run@) > u32::MAX,
{
    let mut v: u32 = 0;
    let mut i: usize = 0;
    while i < run.len()
        invariant
            i <= run@.len(),
            forall|m: int| 0 <= m < run@.len() ==> is_ascii_digit(#[trigger] run@[m]),
            v as nat == crate::cli::decimal_value(run@.take(i as int)),
        decreases run@.len() - i,
    {
        let ghost pre = run@.take(i as int);
        assert(run@.take(i as int + 1).drop_last() =~= pre);
        let d = (run[i] as u32) - 48;
        match v.checked_mul(10) {
            None => {
                proof {
                    lemma_decimal_prefix_bound(run@, i as int + 1);
                }
                return None;
            },
            Some(t) => match t.checked_add(d) {
                None => {
                    proof {
                        lemma_decimal_prefix_bound(run@, i as int + 1);
                    }
                    return None;
                },
                Some(u) => {
                    v = u;
                },
            },
        }
        i = i + 1;
    }
    assert(run@.take(i as int) =~= run@);
    Some(v)
}

/// A number grows no smaller as digits are appended.
proof fn lemma_decimal_prefix_bound(s: Seq<char>, k: int)
    requires
        0 <= k <= s.len(),
        forall|m: int| 0 <= m < s.len() ==> is_ascii_digit(#[trigger] s[m]),
    ensures
        crate::cli::decimal_value(s.take(k)) <= crate::cli::decimal_value(s),
    decreases s.len() - k,
{
    if k < s.len() {
        lemma_decimal_prefix_bound(s, k + 1);
        assert(s.take(k + 1).drop_last() =~= s.take(k));
    } else {
        assert(s.take(k) =~= s);
    }
}

/// The version that the path of the first process grouped under
/// `parent_pid` carries: the last number in it above 1000 that fits in a
/// `u32`; `None` where there is no such process or number.
pub fn extract_version(processes: &Vec<Process>, parent_pid: u32) -> (r: Option<u32>)
    ensures
        r == extract_version_spec(processes@, parent_pid),
{
    let mut i: usize = 0;
    let mut found = false;
    while i < processes.len() && !found
        invariant
            i <= processes@.len(),
            found ==> i < processes@.len() && group_pid(processes@[i as int]) == parent_pid,
            forall|j: int| 0 <= j < i ==> group_pid(#[trigger] processes@[j]) != parent_pid,
        decreases processes@.len() - i, if found { 0int } else { 1int },
    {
        if group_pid_exec(&processes[i]) == parent_pid {
            found = true;
        } else {
            i = i + 1;
        }
    }
    proof {
        lemma_first_in_group(processes@, parent_pid, i as int);
    }
    if i == processes.len() {
        return None;
    }
    let runs = digit_runs_exec(processes[i].path.as_str());
    proof {
        lemma_runs_nonempty(processes@[i as int].path@);
    }
    let ghost rs = digit_runs(processes@[i as int].path@);
    let mut k = runs.len();
    assert(rs.take(k as int) =~= rs);
    while k > 0
        invariant
            extract_version_spec(processes@, parent_pid) == version_of_runs(rs),
            k <= runs@.len(),
            runs@.len() == rs.len(),
            forall|m: int| 0 <= m < runs@.len() ==> (#[trigger] runs@[m])@ == rs[m],
            forall|m: int| 0 <= m < rs.len() ==> (#[trigger] rs[m]).len() > 0 && forall|q: int|
                0 <= q < rs[m].len() ==> is_ascii_digit(#[trigger] rs[m][q]),
            version_of_runs(rs) == version_of_runs(rs.take(k as int)),
        decreases k,
    {
        let ghost pre = rs.take(k as int);
        assert(pre.last() == rs[k - 1]);
        assert(pre.drop_last() =~= rs.take(k - 1));
        match run_value(&runs[k - 1]) {
            Some(v) => {
                if v > 1000 {
                    return Some(v);
                }
            },
            None => {},
        }
        k = k - 1;
    }
    assert(rs.take(0) =~= Seq::<Seq<char>>::empty());
    None
}

proof fn lemma_first_in_group(ps: Seq<Process>, pid: u32, i: int)
    requires
        0 <= i <= ps.len(),
        forall|j: int| 0 <= j < i ==> group_pid(#[trigger] ps[j]) != pid,
        i < ps.len() ==> group_pid(ps[i]) == pid,
    ensures
        first_in_group(ps, pid) == if i < ps.len() {
            Some(i)
        } else {
            None::<int>
        },
    decreases ps.len(),
{
    if ps.len() > 0 && i > 0 {
        assert forall|j: int| 0 <= j < i - 1 implies group_pid(#[trigger] ps.drop_first()[j]) != pid by {
            assert(ps.drop_first()[j] == ps[j + 1]);
        }
        if i < ps.len() {
            assert(ps.drop_first()[i - 1] == ps[i]);
        }
        lemma_first_in_group(ps.drop_first(), pid, i - 1);
    }
}

/// The name of the WeChat mini-program host process.
pub open spec fn host_name() -> Seq<char> {
    "WeChatAppEx.exe"@
}

/// Why no process could be chosen.
#[derive(Clone, Copy, Debug, PartialEq, Eq, Structural)]
pub enum TargetError {
    /// No process has the host's name.
    NotFound,
    /// No parent process could be chosen among `host_count` host processes.
    NoParent { host_count: usize },
    /// The path of the chosen process, among `host_count` host processes,
    /// carries no version.
    NoVersion { host_count: usize },
}

/// The process to attach to and the version of the mini-program runtime.
#[derive(Clone, Copy, Debug, PartialEq, Eq, Structural)]
pub struct Target {
    /// How many host processes there are.
    pub host_count: usize,
    pub pid: u32,
    pub version: u32,
}

/// The host processes among `ps`, in order.
pub open spec fn hosts(ps: Seq<Process>) -> Seq<Process>
    decreases ps.len(),
{
    if ps.len() == 0 {
        Seq::empty()
    } else if ps.last().name@ == host_name() {
        hosts(ps.drop_last()).push(ps.last())
    } else {
        hosts(ps.drop_last())
    }
}

/// Picks the process to attach to among all processes: the parent under
/// which most host processes are grouped, and the version that the path of
/// its first host process carries.
pub fn select_target(processes: &Vec<Process>) -> (r: Result<Target, TargetError>)
    ensures
        hosts(processes@).len() == 0 <==> r == Err::<Target, TargetError>(TargetError::NotFound),
        r matches Ok(t) ==> t.host_count == hosts(processes@).len() && group_count(
            hosts(processes@),
            t.pid,
        ) >= 1 && (forall|q: u32|
            #[trigger] group_count(hosts(processes@), q) <= group_count(hosts(processes@), t.pid))
            && extract_version_spec(hosts(processes@), t.pid) == Some(t.version),
        r matches Err(TargetError::NoVersion { host_count }) ==> host_count == hosts(processes@).len()
            && exists|pid: u32|
            group_count(hosts(processes@), pid) >= 1 && (forall|q: u32|
                #[trigger] group_count(hosts(processes@), q) <= group_count(hosts(processes@), pid))
                && extract_version_spec(hosts(processes@), pid) is None,
        !(r matches Err(TargetError::NoParent { .. })),
{
    let mut wmpf: Vec<Process> = Vec::new();
    let mut i: usize = 0;
    while i < processes.len()
        invariant
            i <= processes@.len(),
            wmpf@ == hosts(processes@.take(i as int)),
        decreases processes@.len() - i,
    {
        let p = &processes[i];
        assert(processes@.take(i as int + 1).drop_last() =~= processes@.take(i as int));
        if str_equal(p.name.as_str(), "WeChatAppEx.exe") {
            wmpf.push(Process { pid: p.pid, name: p.name.clone(), path: p.path.clone(), ppid: p.ppid });
        }
        i = i + 1;
    }
    assert(processes@.take(i as int) =~= processes@);
    if wmpf.len() == 0 {
        return Err(TargetError::NotFound);
    }
    let pid = match find_most_common_pid(&wmpf) {
        Some(p) => p,
        None => {
            return Err(TargetError::NoParent { host_count: wmpf.len() });
        },
    };
    match extract_version(&wmpf, pid) {
        Some(version) => Ok(Target { host_count: wmpf.len(), pid, version }),
        None => Err(TargetError::NoVersion { host_count: wmpf.len() }),
    }
}

/// Opaque handle types of the frida-core C API: only pointers to them cross
/// the C boundary, and this side never builds one.
pub enum FridaDeviceManager {
    Opaque,
}

pub enum FridaDeviceList {
    Opaque,
}

pub enum FridaDevice {
    Opaque,
}

pub enum FridaProcessList {
    Opaque,
}

pub enum FridaProcess {
    Opaque,
}

pub enum FridaSession {
    Opaque,
}

pub enum FridaSessionOptions {
    Opaque,
}

pub enum FridaScript {
    Opaque,
}

pub enum FridaScriptOptions {
    Opaque,
}

pub enum FridaProcessQueryOptions {
    Opaque,
}

pub enum GError {
    Opaque,
}

pub enum GCancellable {
    Opaque,
}

pub enum GHashTable {
    Opaque,
}


/// A run of digits that can be a version: its value is above 1000 and fits
/// in a `u32`.
pub open spec fn is_version_run(run: Seq<char>) -> bool {
    1000 < crate::cli::decimal_value(run) <= u32::MAX
}

/// The version of a list of runs is the value of one of them that can be a
/// version, and no run after it can be; where there is none, no run can be.
pub proof fn lemma_version_is_last_candidate(runs: Seq<Seq<char>>)
    ensures
        match version_of_runs(runs) {
            Some(v) => exists|k: int|
                0 <= k < runs.len() && is_version_run(#[trigger] runs[k]) && crate::cli::decimal_value(
                    runs[k],
                ) == v && forall|j: int| k < j < runs.len() ==> !is_version_run(#[trigger] runs[j]),
            None => forall|j: int| 0 <= j < runs.len() ==> !is_version_run(#[trigger] runs[j]),
        },
    decreases runs.len(),
{
    if runs.len() > 0 {
        let pre = runs.drop_last();
        lemma_version_is_last_candidate(pre);
        let n = runs.len() - 1;
        if is_version_run(runs[n]) {
            assert(is_version_run(runs[n]));
        } else {
            match version_of_runs(pre) {
                Some(v) => {
                    let k = choose|k: int|
                        0 <= k < pre.len() && is_version_run(#[trigger] pre[k]) && crate::cli::decimal_value(
                            pre[k],
                        ) == v && forall|j: int| k < j < pre.len() ==> !is_version_run(#[trigger] pre[j]);
                    assert(runs[k] == pre[k]);
                    assert forall|j: int| k < j < runs.len() implies !is_version_run(#[trigger] runs[j]) by {
                        if j < n {
                            assert(runs[j] == pre[j]);
                        }
                    }
                },
                None => {
                    assert forall|j: int| 0 <= j < runs.len() implies !is_version_run(#[trigger] runs[j]) by {
                        if j < n {
                            assert(runs[j] == pre[j]);
                        }
                    }
                },
            }
        }
    }
}

/// The first process grouped under `pid` is the one with the least index
/// among them.
proof fn lemma_first_in_group_least(ps: Seq<Process>, pid: u32)
    ensures
        match first_in_group(ps, pid) {
            Some(i) => 0 <= i < ps.len() && group_pid(ps[i]) == pid && forall|i2: int|
                0 <= i2 < i ==> group_pid(#[trigger] ps[i2]) != pid,
            None => forall|i2: int| 0 <= i2 < ps.len() ==> group_pid(#[trigger] ps[i2]) != pid,
        },
    decreases ps.len(),
{
    if ps.len() > 0 {
        lemma_first_in_group_least(ps.drop_first(), pid);
        if group_pid(ps[0]) != pid {
            match first_in_group(ps.drop_first(), pid) {
                Some(i) => {
                    assert(ps[i + 1] == ps.drop_first()[i]);
                    assert forall|i2: int| 0 <= i2 < i + 1 implies group_pid(#[trigger] ps[i2]) != pid by {
                        if i2 > 0 {
                            assert(ps[i2] == ps.drop_first()[i2 - 1]);
                        }
                    }
                },
                None => {
                    assert forall|i2: int| 0 <= i2 < ps.len() implies group_pid(#[trigger] ps[i2]) != pid by {
                        if i2 > 0 {
                            assert(ps[i2] == ps.drop_first()[i2 - 1]);
                        }
                    }
                },
            }
        }
    }
}

/// The version read for `pid` comes from the path of the first process
/// grouped under `pid`: it is the value of a run of digits of that path that
/// is above 1000 and fits in a `u32`, and no run after it in the path is;
/// there is none where no process is grouped under `pid` or no run of its
/// path is such a number.
pub proof fn lemma_version_from_path(ps: Seq<Process>, pid: u32)
    ensures
        match extract_version_spec(ps, pid) {
            Some(v) => exists|i: int|
                0 <= i < ps.len() && group_pid(#[trigger] ps[i]) == pid && (forall|i2: int|
                    0 <= i2 < i ==> group_pid(#[trigger] ps[i2]) != pid) && exists|k: int|
                    0 <= k < digit_runs(ps[i].path@).len() && is_version_run(
                        #[trigger] digit_runs(ps[i].path@)[k],
                    ) && crate::cli::decimal_value(digit_runs(ps[i].path@)[k]) == v && forall|j: int|
                        k < j < digit_runs(ps[i].path@).len() ==> !is_version_run(
                            #[trigger] digit_runs(ps[i].path@)[j],
                        ),
            None => forall|i: int|
                0 <= i < ps.len() && group_pid(#[trigger] ps[i]) == pid && (forall|i2: int|
                    0 <= i2 < i ==> group_pid(#[trigger] ps[i2]) != pid) ==> forall|j: int|
                    0 <= j < digit_runs(ps[i].path@).len() ==> !is_version_run(
                        #[trigger] digit_runs(ps[i].path@)[j],
                    ),
        },
{
    lemma_first_in_group_least(ps, pid);
    match first_in_group(ps, pid) {
        Some(i) => {
            lemma_version_is_last_candidate(digit_runs(ps[i].path@));
            assert forall|i3: int|
                0 <= i3 < ps.len() && group_pid(#[trigger] ps[i3]) == pid && (forall|i2: int|
                    0 <= i2 < i3 ==> group_pid(#[trigger] ps[i2]) != pid) implies i3 == i by {
                if i3 < i {
                    assert(group_pid(ps[i3]) != pid);
                }
                if i < i3 {
                    assert(group_pid(ps[i]) != pid);
                }
            }
        },
        None => {},
    }
}

} // verus!

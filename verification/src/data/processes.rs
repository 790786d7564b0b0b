//! Processes: the lines of /proc/<pid>/stat, the name under which a process is shown, and
//! the value of each process metric in a line's fields.
use crate::text::{
    chars_of, decimal, index_of_char, lemma_index_of_char, parse_unsigned, parse_unsigned_range, pieces,
    push_decimal, push_str, ranges_within, string_of, word_ranges, words, find_char, lines, lines_of,
    strs_view, str_eq, str_starts_with,
};
use crate::ProcessMetric;
use vstd::prelude::*;

verus! {

/// The data type of processes.
#[derive(Debug, Clone)]
pub struct Processes;

impl Processes {
    pub fn new() -> Self {
        Processes
    }
}

/// The value of a metric among the fields of a /proc/<pid>/stat line (those after the
/// command name): `None` when there are fewer than 22 fields, when the field does not parse
/// as a `u64`, when the page size is zero for the resident set size in bytes, and for the
/// number of processes, which no line holds.
pub open spec fn process_metric_value(m: ProcessMetric, values: Seq<Seq<char>>, page_size: nat) -> Option<
    nat,
> {
    if values.len() < 22 {
        None
    } else {
        match m {
            ProcessMetric::UserSpaceTime => parse_unsigned(values[11], u64::MAX as nat),
            ProcessMetric::KernelSpaceTime => parse_unsigned(values[12], u64::MAX as nat),
            ProcessMetric::NumberThreads => parse_unsigned(values[17], u64::MAX as nat),
            ProcessMetric::VirtualMemorySize => parse_unsigned(values[20], u64::MAX as nat),
            ProcessMetric::ResidentSetSize => parse_unsigned(values[21], u64::MAX as nat),
            ProcessMetric::ResidentSetSizeBytes => if page_size == 0 {
                None
            } else {
                match parse_unsigned(values[21], u64::MAX as nat) {
                    Some(pages) => Some(pages * page_size),
                    None => None,
                }
            },
            ProcessMetric::NumberProcesses => None,
        }
    }
}

/// The metrics of a process are read from the fields of /proc/<pid>/stat that proc(5)
/// numbers 14 (utime), 15 (stime), 20 (num_threads), 23 (vsize) and 24 (rss), where the
/// values given start at field 3 (the state); the resident set in bytes is the resident set
/// in pages times the page size, and no line holds the number of processes.
pub proof fn lemma_process_metric_fields(values: Seq<Seq<char>>, page_size: nat)
    requires
        values.len() >= 22,
    ensures
        process_metric_value(ProcessMetric::UserSpaceTime, values, page_size) == parse_unsigned(
            values[14 - 3],
            u64::MAX as nat,
        ),
        process_metric_value(ProcessMetric::KernelSpaceTime, values, page_size) == parse_unsigned(
            values[15 - 3],
            u64::MAX as nat,
        ),
        process_metric_value(ProcessMetric::NumberThreads, values, page_size) == parse_unsigned(
            values[20 - 3],
            u64::MAX as nat,
        ),
        process_metric_value(ProcessMetric::VirtualMemorySize, values, page_size) == parse_unsigned(
            values[23 - 3],
            u64::MAX as nat,
        ),
        process_metric_value(ProcessMetric::ResidentSetSize, values, page_size) == parse_unsigned(
            values[24 - 3],
            u64::MAX as nat,
        ),
        page_size > 0 ==> process_metric_value(ProcessMetric::ResidentSetSizeBytes, values, page_size)
            == match process_metric_value(ProcessMetric::ResidentSetSize, values, page_size) {
            Some(pages) => Some(pages * page_size),
            None => None,
        },
        process_metric_value(ProcessMetric::NumberProcesses, values, page_size) is None,
{
}

fn parse_field(values: &Vec<String>, k: usize) -> (r: Option<u64>)
    requires
        k < values@.len(),
    ensures
        match r {
            Some(x) => parse_unsigned(values@[k as int]@, u64::MAX as nat) == Some(x as nat),
            None => parse_unsigned(values@[k as int]@, u64::MAX as nat) is None,
        },
{
    let v = chars_of(values[k].as_str());
    assert(v@.subrange(0, v@.len() as int) =~= v@);
    parse_unsigned_range(&v, 0, v.len(), u64::MAX)
}

/// The value of a process metric in the fields of a /proc/<pid>/stat line. The resident
/// set size in bytes is the number of pages times the page size, which a `u128` holds.
pub fn get_process_metric_value(process_metric: ProcessMetric, values: &Vec<String>, page_size: u64) -> (r:
    Option<u128>)
    ensures
        match r {
            Some(x) => process_metric_value(
                process_metric,
                values@.map_values(|s: String| s@),
                page_size as nat,
            ) == Some(x as nat),
            None => process_metric_value(
                process_metric,
                values@.map_values(|s: String| s@),
                page_size as nat,
            ) is None,
        },
{
    let ghost vs = values@.map_values(|s: String| s@);
    if values.len() < 22 {
        return None;
    }
    assert(vs[11] == values@[11]@ && vs[12] == values@[12]@ && vs[17] == values@[17]@);
    assert(vs[20] == values@[20]@ && vs[21] == values@[21]@);
    let k: usize = match process_metric {
        ProcessMetric::UserSpaceTime => 11,
        ProcessMetric::KernelSpaceTime => 12,
        ProcessMetric::NumberThreads => 17,
        ProcessMetric::VirtualMemorySize => 20,
        ProcessMetric::ResidentSetSize => 21,
        ProcessMetric::ResidentSetSizeBytes => {
            if page_size == 0 {
                return None;
            }
            21
        },
        ProcessMetric::NumberProcesses => {
            return None;
        },
    };
    match parse_field(values, k) {
        Some(x) => {
            if k == 21 && process_metric == ProcessMetric::ResidentSetSizeBytes {
                assert((x as u128) * (page_size as u128) <= u64::MAX * u64::MAX) by (nonlinear_arith)
                    requires
                        x <= u64::MAX,
                        page_size <= u64::MAX,
                ;
                let bytes = (x as u128) * (page_size as u128);
                Some(bytes)
            } else {
                Some(x as u128)
            }
        },
        None => None,
    }
}

/// One line of /proc/<pid>/stat: the PID, the command name between the parentheses, and the
/// fields after them.
#[derive(Debug, Clone)]
pub struct ProcStatLine {
    pub pid: u64,
    pub name: String,
    pub values: Vec<String>,
}

/// Why a /proc/<pid>/stat line was refused.
#[derive(Debug, Clone, Copy, PartialEq, Eq, Structural)]
pub enum ProcStatLineError {
    /// The text before the command name is not a PID.
    InvalidPid,
}

/// The lines that the parser handles: those with no '(' or no ')', and those where the
/// character before the first '(' and the one after the first ')' are ASCII, with the first
/// '(' neither at the start nor after the first ')', and something after the first ')'.
pub open spec fn is_parsable_stat_line(line: Seq<char>) -> bool {
    let open = index_of_char(line, '(');
    let close = index_of_char(line, ')');
    open < 0 || close < 0 || (1 <= open && open < close && close + 1 < line.len() && (line[open
        - 1] as u32) < 128 && (line[close + 1] as u32) < 128)
}

/// A /proc/<pid>/stat line read: `Ok(None)` for a line without both parentheses (skipped),
/// an error when the text before the space that precedes the first '(' is not a `u64`, and
/// otherwise the PID, the text between the first '(' and the first ')', and the
/// whitespace-separated fields after the character that follows the first ')'.
pub open spec fn proc_stat_line(line: Seq<char>) -> Result<Option<(nat, Seq<char>, Seq<Seq<char>>)>, ProcStatLineError> {
    let open = index_of_char(line, '(');
    let close = index_of_char(line, ')');
    if open < 0 || close < 0 {
        Ok(None)
    } else {
        match parse_unsigned(line.subrange(0, open - 1), u64::MAX as nat) {
            None => Err(ProcStatLineError::InvalidPid),
            Some(pid) => Ok(
                Some(
                    (
                        pid,
                        line.subrange(open + 1, close),
                        words(line.subrange(close + 2, line.len() as int)),
                    ),
                ),
            ),
        }
    }
}

/// Parses one line of /proc/<pid>/stat, such as "1 (systemd) S 0 1 1 ...".
pub fn parse_proc_stat_line(line: &str) -> (r: Result<Option<ProcStatLine>, ProcStatLineError>)
    requires
        is_parsable_stat_line(line@),
    ensures
        match (r, proc_stat_line(line@)) {
            (Ok(None), Ok(None)) => true,
            (Ok(Some(p)), Ok(Some((pid, name, values)))) => p.pid == pid && p.name@ == name
                && p.values@.map_values(|s: String| s@) == values,
            (Err(e), Err(f)) => e == f,
            _ => false,
        },
{
    let v = chars_of(line);
    assert(v@.subrange(0, v@.len() as int) =~= v@);
    proof {
        lemma_index_of_char(line@, '(');
        lemma_index_of_char(line@, ')');
    }
    let open = match find_char(&v, 0, v.len(), '(') {
        Some(k) => k,
        None => {
            return Ok(None);
        },
    };
    let close = match find_char(&v, 0, v.len(), ')') {
        Some(k) => k,
        None => {
            return Ok(None);
        },
    };
    let pid = match parse_unsigned_range(&v, 0, open - 1, u64::MAX) {
        Some(p) => p,
        None => {
            return Err(ProcStatLineError::InvalidPid);
        },
    };
    let name = string_of(&v, open + 1, close);
    let ws = word_ranges(&v, close + 2, v.len());
    let mut values: Vec<String> = Vec::new();
    let mut i: usize = 0;
    let ghost target = words(v@.subrange(close + 2, v@.len() as int));
    while i < ws.len()
        invariant
            pieces(v@, ws@) == target,
            ranges_within(ws@, close + 2, v@.len() as int),
            close + 2 <= v@.len(),
            0 <= i <= ws@.len(),
            values@.len() == i,
            forall|j: int| 0 <= j < i ==> (#[trigger] values@[j])@ == target[j],
        decreases ws.len() - i,
    {
        let (a, b) = ws[i];
        assert(ws@[i as int] == (a, b));
        assert(target[i as int] == v@.subrange(a as int, b as int));
        values.push(string_of(&v, a, b));
        i = i + 1;
    }
    assert(values@.map_values(|s: String| s@) =~= target);
    Ok(Some(ProcStatLine { pid, name, values }))
}

/// The name under which a process is shown: its PID, an underscore and its command name.
pub fn process_pid_name(pid: u64, name: &str) -> (r: String)
    ensures
        r@ == decimal(pid as nat) + "_"@ + name@,
{
    let mut s = String::new();
    push_decimal(&mut s, pid);
    push_str(&mut s, "_");
    push_str(&mut s, name);
    s
}

// ------------------------------------------------------------------------------------------
// Snapshots of all processes
// ------------------------------------------------------------------------------------------

/// One process in a snapshot: the name it is shown under, the fields of its stat line, and
/// its user and kernel CPU times in clock ticks.
#[derive(Debug, Clone)]
pub struct ProcessSample {
    pub name: String,
    pub values: Vec<String>,
    pub utime: u64,
    pub stime: u64,
}

pub type SampleView = (Seq<char>, Seq<Seq<char>>, u64, u64);

pub open spec fn sample_view(s: ProcessSample) -> SampleView {
    (s.name@, s.values@.map_values(|v: String| v@), s.utime, s.stime)
}

/// The sample of one stat line: none for a skipped line or one without both CPU times.
pub open spec fn sample_of_line(line: Seq<char>) -> Result<Option<SampleView>, ProcStatLineError> {
    match proc_stat_line(line) {
        Err(e) => Err(e),
        Ok(None) => Ok(None),
        Ok(Some((pid, name, values))) => match (
            process_metric_value(ProcessMetric::UserSpaceTime, values, 1),
            process_metric_value(ProcessMetric::KernelSpaceTime, values, 1),
        ) {
            (Some(u), Some(s)) => Ok(Some((decimal(pid) + "_"@ + name, values, u as u64, s as u64))),
            _ => Ok(None),
        },
    }
}

/// The samples of the stat lines from the `k`-th on, after the samples `acc` of the lines
/// before; a line whose PID is not a number refuses the whole snapshot.
pub open spec fn samples_from(ls: Seq<Seq<char>>, k: nat, acc: Seq<SampleView>) -> Result<Seq<SampleView>, ProcStatLineError>
    decreases ls.len() - k,
{
    if k >= ls.len() {
        Ok(acc)
    } else {
        match sample_of_line(ls[k as int]) {
            Err(e) => Err(e),
            Ok(None) => samples_from(ls, k + 1, acc),
            Ok(Some(s)) => samples_from(ls, k + 1, acc.push(s)),
        }
    }
}

/// Reads a snapshot of the stat lines of all processes: the sample of each process, in the
/// order of the lines.
pub fn parse_processes_snapshot(data: &str) -> (r: Result<Vec<ProcessSample>, ProcStatLineError>)
    requires
        forall|i: int| 0 <= i < lines(data@).len() ==> is_parsable_stat_line(#[trigger] lines(data@)[i]),
    ensures
        match (r, samples_from(lines(data@), 0, Seq::<SampleView>::empty())) {
            (Ok(a), Ok(b)) => a@.map_values(|s: ProcessSample| sample_view(s)) == b,
            (Err(e), Err(f)) => e == f,
            _ => false,
        },
{
    let ls = lines_of(data);
    let ghost lv = lines(data@);
    let ghost goal = samples_from(lv, 0, Seq::<SampleView>::empty());
    let mut out: Vec<ProcessSample> = Vec::new();
    let mut i: usize = 0;
    assert(out@.map_values(|s: ProcessSample| sample_view(s)) =~= Seq::<SampleView>::empty());
    while i < ls.len()
        invariant
            strs_view(ls@) == lv,
            lv == lines(data@),
            forall|j: int| 0 <= j < lv.len() ==> is_parsable_stat_line(#[trigger] lv[j]),
            0 <= i <= ls@.len(),
            goal == samples_from(lv, 0, Seq::<SampleView>::empty()),
            goal == samples_from(lv, i as nat, out@.map_values(|s: ProcessSample| sample_view(s))),
        decreases ls.len() - i,
    {
        let line = ls[i].as_str();
        assert(line@ == lv[i as int]);
        assert(is_parsable_stat_line(lv[i as int]));
        match parse_proc_stat_line(line) {
            Err(e) => {
                return Err(e);
            },
            Ok(None) => {},
            Ok(Some(p)) => {
                let u = get_process_metric_value(ProcessMetric::UserSpaceTime, &p.values, 1);
                let st = get_process_metric_value(ProcessMetric::KernelSpaceTime, &p.values, 1);
                match (u, st) {
                    (Some(u), Some(st)) => {
                        let ghost before = out@.map_values(|s: ProcessSample| sample_view(s));
                        let ghost vv = p.values@.map_values(|v: String| v@);
                        assert(u <= u64::MAX && st <= u64::MAX);
                        let sample = ProcessSample {
                            name: process_pid_name(p.pid, p.name.as_str()),
                            values: p.values,
                            utime: u as u64,
                            stime: st as u64,
                        };
                        assert(sample_view(sample).1 == vv);
                        out.push(sample);
                        assert(out@.map_values(|s: ProcessSample| sample_view(s)) =~= before.push(
                            sample_view(sample),
                        ));
                    },
                    _ => {},
                }
            },
        }
        i = i + 1;
    }
    Ok(out)
}

/// The largest user and kernel CPU times seen of each process: (name, user, kernel).
pub type CpuTimesView = Seq<(Seq<char>, u64, u64)>;

pub open spec fn times_index(m: CpuTimesView, k: Seq<char>) -> int
    decreases m.len(),
{
    if m.len() == 0 {
        -1
    } else if m.last().0 == k {
        m.len() - 1
    } else {
        times_index(m.drop_last(), k)
    }
}

pub open spec fn max_u64(a: u64, b: u64) -> u64 {
    if a >= b {
        a
    } else {
        b
    }
}

/// The times after a sample: a known process keeps the larger of each time, a new one is
/// added with its times.
pub open spec fn times_update(m: CpuTimesView, s: SampleView) -> CpuTimesView {
    let i = times_index(m, s.0);
    if i >= 0 {
        m.update(i, (s.0, max_u64(m[i].1, s.2), max_u64(m[i].2, s.3)))
    } else {
        m.push((s.0, s.2, s.3))
    }
}

pub open spec fn times_after(m: CpuTimesView, ss: Seq<SampleView>) -> CpuTimesView
    decreases ss.len(),
{
    if ss.len() == 0 {
        m
    } else {
        times_update(times_after(m, ss.drop_last()), ss.last())
    }
}

pub open spec fn times_view(v: Seq<(String, u64, u64)>) -> CpuTimesView {
    v.map_values(|e: (String, u64, u64)| (e.0@, e.1, e.2))
}

proof fn lemma_times_index(m: CpuTimesView, k: Seq<char>)
    ensures
        -1 <= times_index(m, k) < m.len(),
        times_index(m, k) >= 0 ==> m[times_index(m, k)].0 == k,
        times_index(m, k) < 0 ==> forall|j: int| 0 <= j < m.len() ==> (#[trigger] m[j]).0 != k,
        forall|j: int| times_index(m, k) < j < m.len() ==> (#[trigger] m[j]).0 != k,
    decreases m.len(),
{
    if m.len() > 0 {
        lemma_times_index(m.drop_last(), k);
        assert forall|j: int| 0 <= j < m.len() - 1 implies m.drop_last()[j] == m[j] by {}
    }
}

proof fn lemma_times_index_at(m: CpuTimesView, k: Seq<char>, i: int)
    requires
        0 <= i < m.len(),
        m[i].0 == k,
        forall|j: int| i < j < m.len() ==> (#[trigger] m[j]).0 != k,
    ensures
        times_index(m, k) == i,
    decreases m.len(),
{
    if i < m.len() - 1 {
        let t = m.drop_last();
        assert forall|j: int| i < j < t.len() implies (#[trigger] t[j]).0 != k by {
            assert(t[j] == m[j]);
        }
        lemma_times_index_at(t, k, i);
    }
}

proof fn lemma_times_index_none(m: CpuTimesView, k: Seq<char>)
    requires
        forall|j: int| 0 <= j < m.len() ==> (#[trigger] m[j]).0 != k,
    ensures
        times_index(m, k) == -1,
    decreases m.len(),
{
    if m.len() > 0 {
        let t = m.drop_last();
        assert forall|j: int| 0 <= j < t.len() implies (#[trigger] t[j]).0 != k by {
            assert(t[j] == m[j]);
        }
        lemma_times_index_none(t, k);
    }
}

fn update_one(times: &mut Vec<(String, u64, u64)>, s: &ProcessSample)
    ensures
        times_view(final(times)@) == times_update(times_view(old(times)@), sample_view(*s)),
{
    let ghost mv = times_view(times@);
    let mut i = times.len();
    while i > 0
        invariant
            mv == times_view(times@),
            mv == times_view(old(times)@),
            i <= times@.len(),
            forall|j: int| i <= j < mv.len() ==> (#[trigger] mv[j]).0 != s.name@,
        decreases i,
    {
        assert(mv[i - 1].0 == times@[i - 1].0@);
        if str_eq(times[i - 1].0.as_str(), s.name.as_str()) {
            proof {
                lemma_times_index_at(mv, s.name@, i - 1);
            }
            let name = times[i - 1].0.clone();
            let u = times[i - 1].1;
            let st = times[i - 1].2;
            let nu = if u >= s.utime { u } else { s.utime };
            let ns = if st >= s.stime { st } else { s.stime };
            let ghost nv = name@;
            times.set(i - 1, (name, nu, ns));
            assert(times_view(times@) =~= mv.update(i - 1, (nv, nu, ns)));
            return;
        }
        i = i - 1;
    }
    proof {
        lemma_times_index_none(mv, s.name@);
    }
    let ghost nv = s.name@;
    times.push((s.name.clone(), s.utime, s.stime));
    assert(times_view(times@) =~= mv.push((nv, s.utime, s.stime)));
}

/// Takes in the samples of a snapshot: each process's largest user and kernel CPU times so
/// far, in order of first appearance.
pub fn update_cpu_times(times: &mut Vec<(String, u64, u64)>, samples: &Vec<ProcessSample>)
    ensures
        times_view(final(times)@) == times_after(
            times_view(old(times)@),
            samples@.map_values(|s: ProcessSample| sample_view(s)),
        ),
{
    let ghost ss = samples@.map_values(|s: ProcessSample| sample_view(s));
    let ghost start = times_view(times@);
    let mut k: usize = 0;
    assert(ss.take(0) =~= Seq::<SampleView>::empty());
    while k < samples.len()
        invariant
            ss == samples@.map_values(|s: ProcessSample| sample_view(s)),
            start == times_view(old(times)@),
            0 <= k <= samples@.len(),
            times_view(times@) == times_after(start, ss.take(k as int)),
        decreases samples.len() - k,
    {
        assert(ss.take(k + 1).drop_last() =~= ss.take(k as int));
        assert(ss.take(k + 1).last() == sample_view(samples@[k as int]));
        update_one(times, &samples[k]);
        k = k + 1;
    }
    assert(ss.take(samples@.len() as int) =~= ss);
}

/// The CPU times kept of the processes only grow: every process listed before keeps its
/// place and name with times no smaller than before, and every process of the samples is
/// listed with times no smaller than those of each of its samples.
pub proof fn lemma_cpu_times_grow(m: CpuTimesView, ss: Seq<SampleView>)
    ensures
        times_after(m, ss).len() >= m.len(),
        forall|k: int|
            0 <= k < m.len() ==> (#[trigger] times_after(m, ss)[k]).0 == m[k].0 && times_after(m, ss)[k].1
                >= m[k].1 && times_after(m, ss)[k].2 >= m[k].2,
        forall|j: int|
            0 <= j < ss.len() ==> exists|k: int|
                0 <= k < times_after(m, ss).len() && (#[trigger] times_after(m, ss)[k]).0 == (#[trigger] ss[j]).0
                    && times_after(m, ss)[k].1 >= ss[j].2 && times_after(m, ss)[k].2 >= ss[j].3,
    decreases ss.len(),
{
    if ss.len() > 0 {
        let prev = times_after(m, ss.drop_last());
        let s = ss.last();
        lemma_cpu_times_grow(m, ss.drop_last());
        lemma_times_index(prev, s.0);
        let r = times_after(m, ss);
        assert(r == times_update(prev, s));
        assert forall|k: int| 0 <= k < prev.len() implies (#[trigger] r[k]).0 == prev[k].0 && r[k].1 >= prev[k].1
            && r[k].2 >= prev[k].2 by {}
        assert forall|j: int| 0 <= j < ss.len() implies exists|k: int|
            0 <= k < r.len() && (#[trigger] r[k]).0 == (#[trigger] ss[j]).0 && r[k].1 >= ss[j].2 && r[k].2 >= ss[j].3 by {
            if j == ss.len() - 1 {
                let i = times_index(prev, s.0);
                if i >= 0 {
                    assert(r[i].0 == ss[j].0);
                } else {
                    assert(r[prev.len() as int].0 == ss[j].0);
                }
            } else {
                assert(ss.drop_last()[j] == ss[j]);
                let k = choose|k: int|
                    0 <= k < prev.len() && (#[trigger] prev[k]).0 == ss.drop_last()[j].0 && prev[k].1 >= ss.drop_last()[j].2
                        && prev[k].2 >= ss.drop_last()[j].3;
                assert(r[k].0 == ss[j].0);
            }
        }
    }
}

/// The total CPU time of a process.
pub open spec fn total_time(e: (Seq<char>, u64, u64)) -> int {
    e.1 + e.2
}

/// Process `a` ranks before process `b`: more total CPU time, or as much and listed first.
pub open spec fn ranks_before(t: CpuTimesView, a: int, b: int) -> bool {
    total_time(t[a]) > total_time(t[b]) || (total_time(t[a]) == total_time(t[b]) && a < b)
}

/// `order` ranks all processes (each index once, most CPU time first, ties in list order),
/// and `names` are the names of its first processes.
pub open spec fn is_top_ranking(order: Seq<usize>, t: CpuTimesView, names: Seq<Seq<char>>) -> bool {
    &&& order.len() == t.len()
    &&& forall|a: int| 0 <= a < order.len() ==> (#[trigger] order[a]) < t.len()
    &&& forall|x: int, y: int|
        0 <= x < y < order.len() ==> ranks_before(t, #[trigger] order[x] as int, #[trigger] order[y] as int)
    &&& names.len() <= order.len()
    &&& forall|a: int| 0 <= a < names.len() ==> #[trigger] names[a] == t[order[a] as int].0
}

/// The processes with the most CPU time, most first, at most `limit` of them (processes
/// with equal times in the order they are listed): the first names of the ranking of all
/// processes.
pub fn top_processes(times: &Vec<(String, u64, u64)>, limit: usize) -> (r: Vec<String>)
    ensures
        r@.len() == (if times@.len() < limit {
            times@.len() as int
        } else {
            limit as int
        }),
        exists|order: Seq<usize>| #[trigger] is_top_ranking(order, times_view(times@), strs_view(r@)),
{
    let ghost tv = times_view(times@);
    let mut order: Vec<usize> = Vec::new();
    let mut i: usize = 0;
    while i < times.len()
        invariant
            tv == times_view(times@),
            0 <= i <= times@.len(),
            order@.len() == i,
            forall|a: int| 0 <= a < order@.len() ==> (#[trigger] order@[a]) < i,
            forall|x: int, y: int|
                0 <= x < y < order@.len() ==> ranks_before(tv, #[trigger] order@[x] as int, #[trigger] order@[y] as int),
        decreases times.len() - i,
    {
        let total: u128 = times[i].1 as u128 + times[i].2 as u128;
        assert(tv[i as int] == (times@[i as int].0@, times@[i as int].1, times@[i as int].2));
        let mut k: usize = 0;
        while k < order.len() && (times[order[k]].1 as u128 + times[order[k]].2 as u128) >= total
            invariant
                tv == times_view(times@),
                0 <= k <= order@.len(),
                i < times@.len(),
                total == total_time(tv[i as int]),
                forall|a: int| 0 <= a < order@.len() ==> (#[trigger] order@[a]) < i,
                forall|a: int| 0 <= a < k ==> total_time(tv[#[trigger] order@[a] as int]) >= total,
            decreases order.len() - k,
        {
            assert(tv[order@[k as int] as int] == (
                times@[order@[k as int] as int].0@,
                times@[order@[k as int] as int].1,
                times@[order@[k as int] as int].2,
            ));
            k = k + 1;
        }
        if k < order.len() {
            assert(tv[order@[k as int] as int] == (
                times@[order@[k as int] as int].0@,
                times@[order@[k as int] as int].1,
                times@[order@[k as int] as int].2,
            ));
        }
        let ghost before = order@;
        order.insert(k, i);
        proof {
            assert forall|a: int| 0 <= a < order@.len() implies #[trigger] order@[a] == (if a < k {
                before[a]
            } else if a == k {
                i
            } else {
                before[a - 1]
            }) by {}
            assert forall|x: int, y: int| 0 <= x < y < order@.len() implies ranks_before(
                tv,
                #[trigger] order@[x] as int,
                #[trigger] order@[y] as int,
            ) by {
                if y < k {
                    assert(ranks_before(tv, before[x] as int, before[y] as int));
                } else if y == k {
                    assert(total_time(tv[before[x] as int]) >= total);
                } else if x == k {
                    assert(total_time(tv[before[k as int] as int]) < total);
                    if y - 1 > k {
                        assert(ranks_before(tv, before[k as int] as int, before[y - 1] as int));
                    }
                } else if x < k {
                    assert(ranks_before(tv, before[x] as int, before[y - 1] as int));
                } else {
                    assert(ranks_before(tv, before[x - 1] as int, before[y - 1] as int));
                }
            }
        }
        i = i + 1;
    }
    let n = if times.len() < limit {
        times.len()
    } else {
        limit
    };
    let mut out: Vec<String> = Vec::new();
    let mut j: usize = 0;
    while j < n
        invariant
            0 <= j <= n,
            n <= order@.len(),
            order@.len() == times@.len(),
            forall|a: int| 0 <= a < order@.len() ==> (#[trigger] order@[a]) < times@.len(),
            out@.len() == j,
            forall|a: int| 0 <= a < j ==> (#[trigger] out@[a])@ == times@[order@[a] as int].0@,
        decreases n - j,
    {
        out.push(times[order[j]].0.clone());
        j = j + 1;
    }
    proof {
        assert forall|a: int| 0 <= a < out@.len() implies #[trigger] strs_view(out@)[a] == tv[order@[a] as int].0 by {}
        assert(is_top_ranking(order@, tv, strs_view(out@)));
    }
    out
}

/// The prefix of the names of the processes of a PID: the PID and '_'.
pub open spec fn pid_prefix(pid: u32) -> Seq<char> {
    decimal(pid as nat) + "_"@
}

/// A process of one of the PIDs: a listed process whose name starts with the PID and '_'.
pub open spec fn is_process_of_pids(name: Seq<char>, pids: Seq<u32>, t: CpuTimesView) -> bool {
    exists|q: int, k: int|
        0 <= q < pids.len() && 0 <= k < t.len() && name == t[k].0 && #[trigger] pid_prefix(
            pids[q],
        ).is_prefix_of(#[trigger] t[k].0)
}

/// Some listed process belongs to the PID.
pub open spec fn lists_process_of_pid(t: CpuTimesView, pid: u32) -> bool {
    exists|k: int| 0 <= k < t.len() && pid_prefix(pid).is_prefix_of(#[trigger] t[k].0)
}

/// Some selected name is that of a listed process of the PID.
pub open spec fn selects_process_of_pid(sel: Seq<Seq<char>>, t: CpuTimesView, pid: u32) -> bool {
    exists|a: int, k: int|
        0 <= a < sel.len() && 0 <= k < t.len() && #[trigger] sel[a] == #[trigger] t[k].0
            && pid_prefix(pid).is_prefix_of(t[k].0)
}

/// Adds to the selected processes, for each PID of the recording's own processes, a listed
/// process whose name starts with that PID and '_', unless one is selected already: after
/// the call a process of each such PID that has one listed is selected, and only new names
/// of processes of the PIDs were added, each once. Which of several processes of one PID is
/// taken is left open.
pub fn include_processes_of_pids(selected: &mut Vec<String>, times: &Vec<(String, u64, u64)>, pids: &Vec<u32>)
    ensures
        final(selected)@.len() >= old(selected)@.len(),
        final(selected)@.subrange(0, old(selected)@.len() as int) == old(selected)@,
        final(selected)@.len() <= old(selected)@.len() + pids@.len(),
        forall|a: int|
            old(selected)@.len() <= a < final(selected)@.len() ==> is_process_of_pids(
                #[trigger] final(selected)@[a]@,
                pids@,
                times_view(times@),
            ),
        forall|a: int, b: int|
            0 <= b < a < final(selected)@.len() && old(selected)@.len() <= a
                ==> #[trigger] final(selected)@[b]@ != #[trigger] final(selected)@[a]@,
        forall|q: int|
            0 <= q < pids@.len() && lists_process_of_pid(times_view(times@), #[trigger] pids@[q])
                ==> selects_process_of_pid(strs_view(final(selected)@), times_view(times@), pids@[q]),
{
    let ghost start = selected@;
    let ghost tv = times_view(times@);
    let mut p: usize = 0;
    while p < pids.len()
        invariant
            tv == times_view(times@),
            0 <= p <= pids@.len(),
            selected@.len() >= start.len(),
            selected@.len() <= start.len() + p,
            selected@.subrange(0, start.len() as int) == start,
            start == old(selected)@,
            forall|a: int|
                start.len() <= a < selected@.len() ==> is_process_of_pids(
                    #[trigger] selected@[a]@,
                    pids@,
                    tv,
                ),
            forall|a: int, b: int|
                0 <= b < a < selected@.len() && start.len() <= a ==> #[trigger] selected@[b]@
                    != #[trigger] selected@[a]@,
            forall|q: int|
                0 <= q < p && lists_process_of_pid(tv, #[trigger] pids@[q]) ==> selects_process_of_pid(
                    strs_view(selected@),
                    tv,
                    pids@[q],
                ),
        decreases pids.len() - p,
    {
        let mut prefix = String::new();
        push_decimal(&mut prefix, pids[p] as u64);
        push_str(&mut prefix, "_");
        assert(prefix@ == pid_prefix(pids@[p as int]));
        let mut t: usize = 0;
        let mut found: Option<usize> = None;
        while t < times.len() && found.is_none()
            invariant
                tv == times_view(times@),
                0 <= t <= times@.len(),
                found matches Some(f) ==> f < times@.len() && prefix@.is_prefix_of(times@[f as int].0@),
                found is None ==> forall|k: int| 0 <= k < t ==> !prefix@.is_prefix_of(#[trigger] tv[k].0),
            decreases times.len() - t + (if found is Some {
                0int
            } else {
                1int
            }),
        {
            assert(tv[t as int].0 == times@[t as int].0@);
            if str_starts_with(times[t].0.as_str(), prefix.as_str()) {
                found = Some(t);
            } else {
                t = t + 1;
            }
        }
        let ghost before_all = selected@;
        match found {
            Some(f) => {
                let name = &times[f].0;
                assert(tv[f as int].0 == name@);
                let mut already = false;
                let mut k: usize = 0;
                while k < selected.len()
                    invariant
                        0 <= k <= selected@.len(),
                        already ==> exists|b: int| 0 <= b < k && #[trigger] selected@[b]@ == name@,
                        !already ==> forall|b: int| 0 <= b < k ==> #[trigger] selected@[b]@ != name@,
                    decreases selected.len() - k,
                {
                    if str_eq(selected[k].as_str(), name.as_str()) {
                        already = true;
                    }
                    k = k + 1;
                }
                if !already {
                    let ghost before = selected@;
                    selected.push(name.clone());
                    proof {
                        assert(selected@.subrange(0, start.len() as int) =~= before.subrange(
                            0,
                            start.len() as int,
                        ));
                        assert(pid_prefix(pids@[p as int]).is_prefix_of(tv[f as int].0));
                        assert(is_process_of_pids(times@[f as int].0@, pids@, tv));
                        assert forall|a: int| start.len() <= a < selected@.len() implies is_process_of_pids(
                            #[trigger] selected@[a]@,
                            pids@,
                            tv,
                        ) by {
                            if a < before.len() {
                                assert(selected@[a] == before[a]);
                            }
                        }
                        assert forall|a: int, b: int|
                            0 <= b < a < selected@.len() && start.len() <= a implies #[trigger] selected@[b]@
                            != #[trigger] selected@[a]@ by {
                            if a < before.len() {
                                assert(selected@[a] == before[a]);
                                assert(selected@[b] == before[b]);
                            } else {
                                assert(selected@[b] == before[b]);
                            }
                        }
                        assert forall|q: int|
                            0 <= q <= p && lists_process_of_pid(tv, #[trigger] pids@[q]) implies selects_process_of_pid(
                            strs_view(selected@),
                            tv,
                            pids@[q],
                        ) by {
                            if q < p {
                                let (a, kk) = choose|a: int, kk: int|
                                    0 <= a < strs_view(before).len() && 0 <= kk < tv.len()
                                        && #[trigger] strs_view(before)[a] == #[trigger] tv[kk].0
                                        && pid_prefix(pids@[q]).is_prefix_of(tv[kk].0);
                                assert(strs_view(selected@)[a] == strs_view(before)[a]);
                            } else {
                                let a = (selected@.len() - 1) as int;
                                assert(strs_view(selected@)[a] == tv[f as int].0);
                            }
                        }
                    }
                } else {
                    proof {
                        let b = choose|b: int| 0 <= b < selected@.len() && #[trigger] selected@[b]@ == name@;
                        assert(strs_view(selected@)[b] == tv[f as int].0);
                        assert(pid_prefix(pids@[p as int]).is_prefix_of(tv[f as int].0));
                    }
                }
            },
            None => {
                proof {
                    assert forall|k: int| 0 <= k < tv.len() implies !pid_prefix(pids@[p as int]).is_prefix_of(
                        #[trigger] tv[k].0,
                    ) by {}
                }
            },
        }
        p = p + 1;
    }
}

} // verus!

//! CPU utilization: the CPU time counters of /proc/stat, for all CPUs together and for each
//! CPU, and the states among which the time is divided.
use crate::text::{
    chars_of, line_ranges, lines, parse_unsigned, parse_unsigned_range, pieces, range_eq,
    range_starts_with, ranges_within, word_ranges, words,
};
use vstd::prelude::*;

verus! {

/// The data type of CPU utilization.
#[derive(Debug, Clone)]
pub struct CpuUtilization;

impl CpuUtilization {
    pub fn new() -> Self {
        CpuUtilization
    }
}

/// A counter of /proc/stat: `u64::from_str`, or 0 when the text is not a `u64`.
pub open spec fn counter_value(s: Seq<char>) -> u64 {
    match parse_unsigned(s, u64::MAX as nat) {
        Some(n) => n as u64,
        None => 0,
    }
}

/// The snapshot of /proc/stat read so far, line by line: the counters of the "cpu" line
/// (all CPUs together) and those of each "cpu<n>" line in order. A line with fewer than 9
/// words is not a CPU line.
pub open spec fn kernel_stat_fold(ls: Seq<Seq<char>>) -> (Seq<u64>, Seq<Seq<u64>>)
    decreases ls.len(),
{
    if ls.len() == 0 {
        (Seq::<u64>::empty(), Seq::<Seq<u64>>::empty())
    } else {
        let (total, per_cpu) = kernel_stat_fold(ls.drop_last());
        let w = words(ls.last());
        if w.len() < 9 {
            (total, per_cpu)
        } else {
            let stat = w.drop_first().map_values(|s: Seq<char>| counter_value(s));
            if w[0] == "cpu"@ {
                (stat, per_cpu)
            } else if "cpu"@.is_prefix_of(w[0]) {
                (total, per_cpu.push(stat))
            } else {
                (total, per_cpu)
            }
        }
    }
}

/// The per-CPU counters of two runs of lines one after the other are those of the first
/// followed by those of the second, each "cpu<n>" line adding its own; the counters of all
/// CPUs together are those of the last "cpu" line of the second run, or, if it has none, of
/// the first.
pub proof fn lemma_kernel_stat_concat(a: Seq<Seq<char>>, b: Seq<Seq<char>>)
    ensures
        kernel_stat_fold(a + b).1 == kernel_stat_fold(a).1 + kernel_stat_fold(b).1,
        kernel_stat_fold(b).0.len() > 0 ==> kernel_stat_fold(a + b).0 == kernel_stat_fold(b).0,
        kernel_stat_fold(b).0.len() == 0 ==> kernel_stat_fold(a + b).0 == kernel_stat_fold(a).0,
    decreases b.len(),
{
    if b.len() == 0 {
        assert(a + b =~= a);
        assert(kernel_stat_fold(a).1 + kernel_stat_fold(b).1 =~= kernel_stat_fold(a).1);
    } else {
        lemma_kernel_stat_concat(a, b.drop_last());
        assert((a + b).drop_last() =~= a + b.drop_last());
        assert((a + b).last() == b.last());
        let w = words(b.last());
        if w.len() >= 9 && w[0] != "cpu"@ && "cpu"@.is_prefix_of(w[0]) {
            let stat = w.drop_first().map_values(|s: Seq<char>| counter_value(s));
            assert(kernel_stat_fold(a).1 + kernel_stat_fold(b).1 =~= (kernel_stat_fold(a).1
                + kernel_stat_fold(b.drop_last()).1).push(stat));
        }
    }
}

/// A CPU line with at least nine words holds the counters of its states after its label, in
/// order: the line "cpu ..." gives the counters of all CPUs together (one per word after the
/// label), and a line "cpu<n> ..." adds one CPU's counters after those of earlier lines.
pub proof fn lemma_kernel_stat_line(ls: Seq<Seq<char>>, line: Seq<char>)
    ensures
        ({
            let w = words(line);
            let stat = w.drop_first().map_values(|s: Seq<char>| counter_value(s));
            &&& w.len() >= 9 && w[0] == "cpu"@ ==> kernel_stat_fold(ls.push(line)).0 == stat
                && stat.len() == w.len() - 1
                && forall|k: int| 0 <= k < stat.len() ==> #[trigger] stat[k] == counter_value(w[k + 1])
            &&& w.len() >= 9 && w[0] != "cpu"@ && "cpu"@.is_prefix_of(w[0]) ==> kernel_stat_fold(
                ls.push(line),
            ).1 == kernel_stat_fold(ls).1.push(stat)
            &&& w.len() < 9 ==> kernel_stat_fold(ls.push(line)) == kernel_stat_fold(ls)
        }),
{
    assert(ls.push(line).drop_last() =~= ls);
    assert(ls.push(line).last() == line);
}

/// One snapshot of /proc/stat: the CPU time counters of all CPUs together and of each CPU.
#[derive(Debug, Clone)]
pub struct ProcKernelStat {
    pub total: Vec<u64>,
    pub per_cpu: Vec<Vec<u64>>,
}

impl ProcKernelStat {
    /// Reads the CPU lines of a snapshot of /proc/stat.
    pub fn from_raw_data(raw_data: &String) -> (r: Self)
        ensures
            (r.total@, r.per_cpu@.map_values(|v: Vec<u64>| v@)) == kernel_stat_fold(
                lines(raw_data@),
            ),
    {
        let v = chars_of(raw_data.as_str());
        assert(v@.subrange(0, v@.len() as int) =~= v@);
        let ls = line_ranges(&v, 0, v.len());
        let ghost lsv = lines(raw_data@);
        let cpu = chars_of("cpu");
        let mut total: Vec<u64> = Vec::new();
        let mut per_cpu: Vec<Vec<u64>> = Vec::new();
        let mut i: usize = 0;
        assert(lsv.take(0) =~= Seq::<Seq<char>>::empty());
        assert(per_cpu@.map_values(|v: Vec<u64>| v@) =~= Seq::<Seq<u64>>::empty());
        while i < ls.len()
            invariant
                lsv == pieces(v@, ls@),
                lsv == lines(raw_data@),
                ranges_within(ls@, 0, v@.len() as int),
                0 <= i <= ls@.len(),
                cpu@ == "cpu"@,
                (total@, per_cpu@.map_values(|v: Vec<u64>| v@)) == kernel_stat_fold(
                    lsv.take(i as int),
                ),
            decreases ls.len() - i,
        {
            let (a, b) = ls[i];
            assert(ls@[i as int] == (a, b));
            assert(lsv[i as int] == v@.subrange(a as int, b as int));
            assert(lsv.take(i + 1).drop_last() =~= lsv.take(i as int));
            assert(lsv.take(i + 1).last() == lsv[i as int]);
            let ws = word_ranges(&v, a, b);
            let ghost w = words(v@.subrange(a as int, b as int));
            if ws.len() >= 9 {
                let mut stat: Vec<u64> = Vec::new();
                let mut k: usize = 1;
                while k < ws.len()
                    invariant
                        pieces(v@, ws@) == w,
                        ranges_within(ws@, a as int, b as int),
                        b <= v@.len(),
                        1 <= k <= ws@.len(),
                        stat@ == w.drop_first().take(k - 1).map_values(
                            |s: Seq<char>| counter_value(s),
                        ),
                    decreases ws.len() - k,
                {
                    let (c, d) = ws[k];
                    assert(ws@[k as int] == (c, d));
                    assert(w[k as int] == v@.subrange(c as int, d as int));
                    let x = match parse_unsigned_range(&v, c, d, u64::MAX) {
                        Some(n) => n,
                        None => 0,
                    };
                    let ghost before = stat@;
                    stat.push(x);
                    assert(stat@ =~= w.drop_first().take(k as int).map_values(
                        |s: Seq<char>| counter_value(s),
                    )) by {
                        assert(stat@ == before.push(x));
                        assert(w.drop_first()[k - 1] == w[k as int]);
                    }
                    k = k + 1;
                }
                assert(w.drop_first().take(ws@.len() - 1) =~= w.drop_first());
                let (c, d) = ws[0];
                assert(ws@[0] == (c, d));
                assert(w[0] == v@.subrange(c as int, d as int));
                if range_eq(&v, c, d, &cpu) {
                    total = stat;
                } else if range_starts_with(&v, c, d, &cpu) {
                    let ghost before = per_cpu@.map_values(|v: Vec<u64>| v@);
                    let ghost sv = stat@;
                    per_cpu.push(stat);
                    assert(per_cpu@.map_values(|v: Vec<u64>| v@) =~= before.push(sv));
                }
            }
            i = i + 1;
        }
        assert(lsv.take(ls@.len() as int) =~= lsv);
        ProcKernelStat { total, per_cpu }
    }
}

/// The states among which /proc/stat divides CPU time, in the order of its columns.
#[derive(Debug, Clone, Copy, PartialEq, Eq, Hash, Structural)]
pub enum CpuState {
    USER,
    NICE,
    SYSTEM,
    IDLE,
    IOWAIT,
    IRQ,
    SOFTIRQ,
    STEAL,
}

/// The column of a state in a CPU line of /proc/stat (after the label).
pub open spec fn cpu_state_index(s: CpuState) -> int {
    match s {
        CpuState::USER => 0,
        CpuState::NICE => 1,
        CpuState::SYSTEM => 2,
        CpuState::IDLE => 3,
        CpuState::IOWAIT => 4,
        CpuState::IRQ => 5,
        CpuState::SOFTIRQ => 6,
        CpuState::STEAL => 7,
    }
}

pub open spec fn cpu_state_name(s: CpuState) -> Seq<char> {
    match s {
        CpuState::USER => "user"@,
        CpuState::NICE => "nice"@,
        CpuState::SYSTEM => "system"@,
        CpuState::IDLE => "idle"@,
        CpuState::IOWAIT => "iowait"@,
        CpuState::IRQ => "irq"@,
        CpuState::SOFTIRQ => "softirq"@,
        CpuState::STEAL => "steal"@,
    }
}

impl CpuState {
    /// The lowercase name of the state, which names its metric.
    pub fn as_str(&self) -> (r: &'static str)
        ensures
            r@ == cpu_state_name(*self),
    {
        match self {
            CpuState::USER => "user",
            CpuState::NICE => "nice",
            CpuState::SYSTEM => "system",
            CpuState::IDLE => "idle",
            CpuState::IOWAIT => "iowait",
            CpuState::IRQ => "irq",
            CpuState::SOFTIRQ => "softirq",
            CpuState::STEAL => "steal",
        }
    }

    /// All states, in the order of the columns of /proc/stat.
    pub fn all() -> (r: Vec<CpuState>)
        ensures
            r@.len() == 8,
            forall|i: int| 0 <= i < 8 ==> cpu_state_index(#[trigger] r@[i]) == i,
            r@ == seq![
                CpuState::USER,
                CpuState::NICE,
                CpuState::SYSTEM,
                CpuState::IDLE,
                CpuState::IOWAIT,
                CpuState::IRQ,
                CpuState::SOFTIRQ,
                CpuState::STEAL,
            ],
    {
        vec![
            CpuState::USER,
            CpuState::NICE,
            CpuState::SYSTEM,
            CpuState::IDLE,
            CpuState::IOWAIT,
            CpuState::IRQ,
            CpuState::SOFTIRQ,
            CpuState::STEAL,
        ]
    }
}

/// The columns of a CPU line of /proc/stat after its label, in the order in which the kernel
/// documents them: user, nice, system, idle, iowait, irq, softirq, steal.
pub open spec fn kernel_cpu_stat_columns() -> Seq<Seq<char>> {
    seq![
        "user"@,
        "nice"@,
        "system"@,
        "idle"@,
        "iowait"@,
        "irq"@,
        "softirq"@,
        "steal"@,
    ]
}

/// Each state's time is read from the column that the kernel documents for it: user time
/// first, nice second, system third, and so on; the column of a state is its position in
/// the documented order, and no two states share a column.
pub proof fn lemma_cpu_state_columns()
    ensures
        cpu_state_index(CpuState::USER) == 0,
        cpu_state_index(CpuState::NICE) == 1,
        cpu_state_index(CpuState::SYSTEM) == 2,
        cpu_state_index(CpuState::IDLE) == 3,
        cpu_state_index(CpuState::IOWAIT) == 4,
        cpu_state_index(CpuState::IRQ) == 5,
        cpu_state_index(CpuState::SOFTIRQ) == 6,
        cpu_state_index(CpuState::STEAL) == 7,
        forall|s: CpuState|
            0 <= #[trigger] cpu_state_index(s) < kernel_cpu_stat_columns().len()
                && kernel_cpu_stat_columns()[cpu_state_index(s)] == cpu_state_name(s),
        forall|a: CpuState, b: CpuState|
            #[trigger] cpu_state_index(a) == #[trigger] cpu_state_index(b) ==> a == b,
{
    assert forall|s: CpuState|
        0 <= #[trigger] cpu_state_index(s) < kernel_cpu_stat_columns().len()
            && kernel_cpu_stat_columns()[cpu_state_index(s)] == cpu_state_name(s) by {
        match s {
            CpuState::USER => {},
            CpuState::NICE => {},
            CpuState::SYSTEM => {},
            CpuState::IDLE => {},
            CpuState::IOWAIT => {},
            CpuState::IRQ => {},
            CpuState::SOFTIRQ => {},
            CpuState::STEAL => {},
        }
    }
}

/// The time that a CPU spent in a state: the counter in the state's column, or 0 when the
/// line has no such column.
pub fn get_cpu_time(cpu_state: &CpuState, cpu_time: &Vec<u64>) -> (r: u64)
    ensures
        r == if cpu_state_index(*cpu_state) < cpu_time@.len() {
            cpu_time@[cpu_state_index(*cpu_state)]
        } else {
            0
        },
{
    let index: usize = match cpu_state {
        CpuState::USER => 0,
        CpuState::NICE => 1,
        CpuState::SYSTEM => 2,
        CpuState::IDLE => 3,
        CpuState::IOWAIT => 4,
        CpuState::IRQ => 5,
        CpuState::SOFTIRQ => 6,
        CpuState::STEAL => 7,
    };
    if index < cpu_time.len() {
        cpu_time[index]
    } else {
        0
    }
}

} // verus!

//! Hotline profiles: the conditions the system must meet for hotline to run, the reports
//! that hotline writes as CSV files, and which of them a run holds.
use crate::data::sysctl::{contains_text, str_contains};
use crate::text::{
    chars_of, decimal, parse_unsigned, parse_unsigned_range, push_decimal, push_str, strs_view, trim, trim_bounds,
};
use vstd::prelude::*;

verus! {

/// The base name of hotline's files.
pub const HOTLINE_FILE_NAME: &'static str = "hotline_profile";

/// A report of hotline: the id of its table in the report and the CSV file that holds it.
#[derive(Debug, Clone, Copy)]
pub struct ReportConfig<'a> {
    pub table_id: &'a str,
    pub filename: &'a str,
}

/// The (table id, file name) pairs of hotline's reports, in order.
pub open spec fn report_config_names() -> Seq<(Seq<char>, Seq<char>)> {
    seq![
        ("completion_node"@, "hotline_lat_map_completion_report.csv"@),
        ("execution_latency"@, "hotline_lat_map_exec_report.csv"@),
        ("issue_latency"@, "hotline_lat_map_issue_report.csv"@),
        ("translation_latency"@, "hotline_lat_map_translation_report.csv"@),
        ("branch"@, "hotline_bmiss_map.csv"@),
    ]
}

/// Hotline's reports, in order.
pub fn report_configs() -> (r: [ReportConfig<'static>; 5])
    ensures
        forall|i: int|
            0 <= i < 5 ==> ((#[trigger] r@[i]).table_id@, r@[i].filename@) == report_config_names()[i],
{
    [
        ReportConfig {
            table_id: "completion_node",
            filename: "hotline_lat_map_completion_report.csv",
        },
        ReportConfig {
            table_id: "execution_latency",
            filename: "hotline_lat_map_exec_report.csv",
        },
        ReportConfig { table_id: "issue_latency", filename: "hotline_lat_map_issue_report.csv" },
        ReportConfig {
            table_id: "translation_latency",
            filename: "hotline_lat_map_translation_report.csv",
        },
        ReportConfig { table_id: "branch", filename: "hotline_bmiss_map.csv" },
    ]
}

/// The state of the hotline profiler of a recording: the process that runs it, and whether
/// it was launched.
#[derive(Debug, Clone)]
pub struct HotlineRaw {
    pub pid: i32,
    pub launched: bool,
}

impl HotlineRaw {
    pub fn new() -> (r: Self)
        ensures
            r.pid == 0,
            !r.launched,
    {
        HotlineRaw { pid: 0, launched: false }
    }
}

/// The processed hotline data: the table ids of the reports that the run holds.
#[derive(Debug, Clone)]
pub struct Hotline {
    pub generated_files: Vec<String>,
}

/// The table ids of the reports whose file exists, in the order of the reports.
pub open spec fn present_table_ids(exists: Seq<bool>, k: int) -> Seq<Seq<char>>
    decreases k,
{
    if k <= 0 {
        Seq::<Seq<char>>::empty()
    } else {
        let before = present_table_ids(exists, k - 1);
        if exists[k - 1] {
            before.push(report_config_names()[k - 1].0)
        } else {
            before
        }
    }
}

/// Everything the reports of several runs list, run after run.
pub open spec fn all_generated_files(hs: Seq<Seq<Seq<char>>>) -> Seq<Seq<char>>
    decreases hs.len(),
{
    if hs.len() == 0 {
        Seq::<Seq<char>>::empty()
    } else {
        all_generated_files(hs.drop_last()) + hs.last()
    }
}

impl Hotline {
    pub fn new() -> (r: Self)
        ensures
            r.generated_files@.len() == 0,
    {
        Hotline { generated_files: vec![] }
    }

    /// The reports of a run, given whether each report's file exists (in the order of
    /// `report_configs`).
    pub fn from_report_files(exists: [bool; 5]) -> (r: Self)
        ensures
            r.generated_files@.map_values(|s: String| s@) == present_table_ids(exists@, 5),
    {
        let configs = report_configs();
        let mut files: Vec<String> = Vec::new();
        let mut i: usize = 0;
        while i < 5
            invariant
                0 <= i <= 5,
                forall|j: int|
                    0 <= j < 5 ==> ((#[trigger] configs@[j]).table_id@, configs@[j].filename@)
                        == report_config_names()[j],
                files@.map_values(|s: String| s@) == present_table_ids(exists@, i as int),
            decreases 5 - i,
        {
            if exists[i] {
                let mut s = String::new();
                push_str(&mut s, configs[i].table_id);
                let ghost before = files@;
                files.push(s);
                assert(files@.map_values(|s: String| s@) =~= before.map_values(|s: String| s@).push(
                    s@,
                ));
            }
            i = i + 1;
        }
        Hotline { generated_files: files }
    }

    /// What the report asks of hotline data.
    pub fn get_calls(&self) -> (r: Vec<String>)
        ensures
            r@.len() == 1,
            r@[0]@ == "values"@,
    {
        let mut s = String::new();
        push_str(&mut s, "values");
        vec![s]
    }
}

/// The table ids of all runs' reports, run after run: what the report lists as hotline
/// values.
pub fn hotline_values(runs: &Vec<Hotline>) -> (r: Vec<String>)
    ensures
        r@.map_values(|s: String| s@) == all_generated_files(
            runs@.map_values(|h: Hotline| h.generated_files@.map_values(|s: String| s@)),
        ),
{
    let ghost hs = runs@.map_values(|h: Hotline| h.generated_files@.map_values(|s: String| s@));
    let mut out: Vec<String> = Vec::new();
    let mut i: usize = 0;
    assert(hs.take(0) =~= Seq::<Seq<Seq<char>>>::empty());
    while i < runs.len()
        invariant
            hs == runs@.map_values(|h: Hotline| h.generated_files@.map_values(|s: String| s@)),
            0 <= i <= runs@.len(),
            out@.map_values(|s: String| s@) == all_generated_files(hs.take(i as int)),
        decreases runs.len() - i,
    {
        let files = &runs[i].generated_files;
        let mut k: usize = 0;
        let ghost start = out@.map_values(|s: String| s@);
        assert(hs[i as int] == files@.map_values(|s: String| s@));
        while k < files.len()
            invariant
                0 <= k <= files@.len(),
                out@.map_values(|s: String| s@) == start + files@.map_values(|s: String| s@).take(
                    k as int,
                ),
            decreases files.len() - k,
        {
            let ghost before = out@;
            let c = files[k].clone();
            out.push(c);
            assert(out@.map_values(|s: String| s@) =~= start + files@.map_values(|s: String| s@).take(
                k + 1,
            )) by {
                let fv = files@.map_values(|s: String| s@);
                assert(out@ == before.push(c));
                assert(out@.map_values(|s: String| s@) =~= before.map_values(|s: String| s@).push(c@));
                assert(fv.take(k + 1) =~= fv.take(k as int).push(fv[k as int]));
                assert(fv[k as int] == c@);
                assert(start + fv.take(k as int).push(c@) =~= (start + fv.take(k as int)).push(c@));
            }
            k = k + 1;
        }
        assert(hs.take(i + 1).drop_last() =~= hs.take(i as int));
        assert(files@.map_values(|s: String| s@).take(files@.len() as int) =~= files@.map_values(|s: String| s@));
        i = i + 1;
    }
    assert(hs.take(runs@.len() as int) =~= hs);
    out
}


// ------------------------------------------------------------------------------------------
// Preconditions
// ------------------------------------------------------------------------------------------

/// A condition that hotline needs and that the system may not meet.
#[derive(Debug, Clone, Copy, PartialEq, Eq, Structural)]
pub enum HotlinePrecondition {
    /// The recording runs as root.
    RootPrivileges,
    /// The kernel command line holds "kpti=off".
    KptiDisabled,
    /// /proc/sys/kernel/kptr_restrict is 0.
    KptrRestrictZero,
    /// /proc/sys/kernel/perf_event_paranoid is -1.
    PerfEventParanoidAll,
    /// /proc/kallsyms can be read.
    KallsymsReadable,
}

/// `i32::from_str`: an optional sign, then one or more ASCII digits, within the range of
/// `i32`.
pub open spec fn parse_i32(s: Seq<char>) -> Option<int> {
    if s.len() > 0 && s[0] == '-' {
        match parse_unsigned(s.drop_first(), 0x8000_0000) {
            Some(n) => if s.drop_first().len() > 0 && s.drop_first()[0] == '+' {
                None
            } else {
                Some(-n)
            },
            None => None,
        }
    } else {
        match parse_unsigned(s, i32::MAX as nat) {
            Some(n) => Some(n as int),
            None => None,
        }
    }
}

/// The value of a kernel setting file: its trimmed text as an `i32`, or `default`.
pub open spec fn setting_value(text: Seq<char>, default: int) -> int {
    match parse_i32(trim(text)) {
        Some(v) => v,
        None => default,
    }
}

/// The conditions that are not met, in the order they are checked: root privileges, "kpti=off"
/// on the kernel command line, kptr_restrict 0 (an unreadable value counts as -1),
/// perf_event_paranoid -1 (an unreadable value counts as 4), and a readable /proc/kallsyms.
pub open spec fn unmet_preconditions(
    is_root: bool,
    cmdline: Seq<char>,
    kptr_restrict: Seq<char>,
    perf_event_paranoid: Seq<char>,
    kallsyms_readable: bool,
) -> Seq<HotlinePrecondition> {
    (if is_root { Seq::empty() } else { seq![HotlinePrecondition::RootPrivileges] })
        + (if contains_text(cmdline, "kpti=off"@) { Seq::empty() } else { seq![HotlinePrecondition::KptiDisabled] })
        + (if setting_value(kptr_restrict, -1) == 0 { Seq::empty() } else { seq![HotlinePrecondition::KptrRestrictZero] })
        + (if setting_value(perf_event_paranoid, 4) == -1 {
        Seq::empty()
    } else {
        seq![HotlinePrecondition::PerfEventParanoidAll]
    }) + (if kallsyms_readable { Seq::empty() } else { seq![HotlinePrecondition::KallsymsReadable] })
}

/// The value of a kernel setting file (see `setting_value`).
pub(crate) fn setting_value_of(text: &str, default: i32) -> (r: i32)
    ensures
        r == setting_value(text@, default as int),
{
    let v = chars_of(text);
    let (lo, hi) = trim_bounds(&v, 0, v.len());
    assert(v@.subrange(0, v@.len() as int) =~= v@);
    let ghost t = trim(text@);
    assert(v@.subrange(lo as int, hi as int) == t);
    if lo < hi && v[lo] == '-' {
        assert(v@.subrange(lo + 1, hi as int) =~= t.drop_first());
        if hi - lo > 1 && v[lo + 1] == '+' {
            return default;
        }
        match parse_unsigned_range(&v, lo + 1, hi, 0x8000_0000) {
            Some(x) => if x == 0x8000_0000 {
                i32::MIN
            } else {
                -(x as i32)
            },
            None => default,
        }
    } else {
        match parse_unsigned_range(&v, lo, hi, i32::MAX as u64) {
            Some(x) => x as i32,
            None => default,
        }
    }
}

/// The conditions for running hotline that the system does not meet (see
/// `unmet_preconditions`); hotline starts only when there are none.
pub fn hotline_unmet_preconditions(
    is_root: bool,
    cmdline: &str,
    kptr_restrict: &str,
    perf_event_paranoid: &str,
    kallsyms_readable: bool,
) -> (r: Vec<HotlinePrecondition>)
    ensures
        r@ == unmet_preconditions(is_root, cmdline@, kptr_restrict@, perf_event_paranoid@, kallsyms_readable),
{
    let mut r: Vec<HotlinePrecondition> = Vec::new();
    if !is_root {
        r.push(HotlinePrecondition::RootPrivileges);
    }
    if !str_contains(cmdline, "kpti=off") {
        r.push(HotlinePrecondition::KptiDisabled);
    }
    if setting_value_of(kptr_restrict, -1) != 0 {
        r.push(HotlinePrecondition::KptrRestrictZero);
    }
    if setting_value_of(perf_event_paranoid, 4) != -1 {
        r.push(HotlinePrecondition::PerfEventParanoidAll);
    }
    if !kallsyms_readable {
        r.push(HotlinePrecondition::KallsymsReadable);
    }
    assert(r@ =~= unmet_preconditions(is_root, cmdline@, kptr_restrict@, perf_event_paranoid@, kallsyms_readable));
    r
}


// ------------------------------------------------------------------------------------------
// Running hotline
// ------------------------------------------------------------------------------------------

fn decimal_string(n: u64) -> (r: String)
    ensures
        r@ == decimal(n as nat),
{
    let mut s = String::new();
    push_decimal(&mut s, n);
    s
}

/// The arguments of a hotline run: it wakes up every `interval` seconds, samples
/// `hotline_frequency` times a second, stops after `collection_time` seconds, and writes its
/// maps to `data_dir`.
pub fn hotline_args(interval: u64, hotline_frequency: u32, collection_time: u64, data_dir: &str) -> (r: Vec<String>)
    ensures
        strs_view(r@) == seq![
            "hotline"@, "--wakeup_period"@, decimal(interval as nat), "--hotline_frequency"@,
            decimal(hotline_frequency as nat), "--timeout"@, decimal(collection_time as nat), "--data_dir"@, data_dir@,
        ],
{
    let r = vec![
        "hotline".to_string(), "--wakeup_period".to_string(), decimal_string(interval),
        "--hotline_frequency".to_string(), decimal_string(hotline_frequency as u64), "--timeout".to_string(),
        decimal_string(collection_time), "--data_dir".to_string(), data_dir.to_string(),
    ];
    assert(strs_view(r@) =~= seq![
        "hotline"@, "--wakeup_period"@, decimal(interval as nat), "--hotline_frequency"@,
        decimal(hotline_frequency as nat), "--timeout"@, decimal(collection_time as nat), "--data_dir"@, data_dir@,
    ]);
    r
}

/// The arguments with which hotline's maps are turned into its reports: the `num_to_report`
/// hottest entries of each, from the maps in `data_dir`.
pub fn hotline_report_args(num_to_report: u32, data_dir: &str) -> (r: Vec<String>)
    ensures
        strs_view(r@) == seq!["hotline"@, "--num_to_report"@, decimal(num_to_report as nat), "--data_dir"@, data_dir@],
{
    let r = vec![
        "hotline".to_string(), "--num_to_report".to_string(), decimal_string(num_to_report as u64),
        "--data_dir".to_string(), data_dir.to_string(),
    ];
    assert(strs_view(r@) =~= seq!["hotline"@, "--num_to_report"@, decimal(num_to_report as nat), "--data_dir"@, data_dir@]);
    r
}

} // verus!

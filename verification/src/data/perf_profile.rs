//! Perf profiles of a run: the settings warned about before recording, the arguments of
//! `perf record`, and where the raw data and processed data are kept.
use crate::data::hotline::{setting_value, setting_value_of};
use crate::text::{decimal, push_decimal, push_str, strs_view};
use crate::{joined_path, path_join};
use std::path::PathBuf;
use vstd::prelude::*;

verus! {

/// Raw data kept only so that the data types keep their order in raw files; flamegraphs
/// are now made from perf profiles.
#[derive(Debug, Clone)]
pub struct FlamegraphRaw {
    pub data: String,
}

impl FlamegraphRaw {
    pub fn new() -> (r: Self)
        ensures
            r.data@ == Seq::<char>::empty(),
    {
        FlamegraphRaw { data: String::new() }
    }
}

/// The raw data of perf profiles, which hold their content in files of their own.
#[derive(Debug, Clone)]
pub struct PerfProfileRaw {
    pub data: String,
}

impl PerfProfileRaw {
    pub fn new() -> (r: Self)
        ensures
            r.data@ == Seq::<char>::empty(),
    {
        PerfProfileRaw { data: String::new() }
    }
}

/// The data type of perf profiles.
#[derive(Debug, Clone)]
pub struct PerfProfile;

impl PerfProfile {
    pub fn new() -> Self {
        PerfProfile
    }
}

/// The file of the raw perf profile of one type (such as "cpu").
pub fn raw_perf_profile_file_name(profile_type: &str) -> (r: String)
    ensures
        r@ == "raw_perf_"@ + profile_type@ + "_profile"@,
{
    let mut s = String::new();
    push_str(&mut s, "raw_perf_");
    push_str(&mut s, profile_type);
    push_str(&mut s, "_profile");
    s
}

/// The raw perf profile of one type within a run's data directory.
pub fn raw_perf_profile_path(run_data_dir: &PathBuf, profile_type: &str) -> (r: PathBuf)
    ensures
        r == joined_path(*run_data_dir, "raw_perf_"@ + profile_type@ + "_profile"@),
{
    let name = raw_perf_profile_file_name(profile_type);
    path_join(run_data_dir, name.as_str())
}

/// The raw on-CPU perf profile within a run's data directory.
pub fn raw_perf_on_cpu_profile_path(run_data_dir: &PathBuf) -> (r: PathBuf)
    ensures
        r == joined_path(*run_data_dir, "raw_perf_cpu_profile"@),
{
    proof {
        reveal_strlit("raw_perf_");
        reveal_strlit("cpu");
        reveal_strlit("_profile");
        reveal_strlit("raw_perf_cpu_profile");
        assert("raw_perf_"@ + "cpu"@ + "_profile"@ =~= "raw_perf_cpu_profile"@);
    }
    raw_perf_profile_path(run_data_dir, "cpu")
}

/// The file of the profiler data made from the perf profile.
pub fn perf_profiler_data_file_name() -> (r: &'static str)
    ensures
        r@ == "perf_profiler_data.json"@,
{
    "perf_profiler_data.json"
}

/// The profiler data made from the perf profile within a run's data directory.
pub fn perf_profiler_data_path(run_data_dir: &PathBuf) -> (r: PathBuf)
    ensures
        r == joined_path(*run_data_dir, "perf_profiler_data.json"@),
{
    path_join(run_data_dir, perf_profiler_data_file_name())
}


/// A kernel setting that may keep `perf` from recording everything for a user other than
/// root.
#[derive(Debug, Clone, Copy, PartialEq, Eq, Structural)]
pub enum PerfProfileWarning {
    /// perf_event_paranoid is above 0, which disallows access to CPU event data.
    ParanoidAboveZero,
    /// kptr_restrict is above 0, which may hide kernel symbols.
    KptrRestricted,
}

/// The settings to warn about: none for root; otherwise perf_event_paranoid above 0 (an
/// unreadable value counts as 4), then kptr_restrict above 0 (an unreadable value counts as
/// -1).
pub open spec fn perf_profile_warning_list(is_root: bool, perf_event_paranoid: Seq<char>, kptr_restrict: Seq<char>) -> Seq<PerfProfileWarning> {
    if is_root {
        Seq::empty()
    } else {
        (if setting_value(perf_event_paranoid, 4) > 0 {
            seq![PerfProfileWarning::ParanoidAboveZero]
        } else {
            Seq::empty()
        }) + (if setting_value(kptr_restrict, -1) > 0 {
            seq![PerfProfileWarning::KptrRestricted]
        } else {
            Seq::empty()
        })
    }
}

/// The settings to warn about before recording a perf profile (see
/// `perf_profile_warning_list`).
pub fn perf_profile_warnings(is_root: bool, perf_event_paranoid: &str, kptr_restrict: &str) -> (r: Vec<PerfProfileWarning>)
    ensures
        r@ == perf_profile_warning_list(is_root, perf_event_paranoid@, kptr_restrict@),
{
    let mut r: Vec<PerfProfileWarning> = Vec::new();
    if !is_root {
        if setting_value_of(perf_event_paranoid, 4) > 0 {
            r.push(PerfProfileWarning::ParanoidAboveZero);
        }
        if setting_value_of(kptr_restrict, -1) > 0 {
            r.push(PerfProfileWarning::KptrRestricted);
        }
    }
    assert(r@ =~= perf_profile_warning_list(is_root, perf_event_paranoid@, kptr_restrict@));
    r
}

/// The arguments of `perf record` for a profile of all CPUs with call graphs, sampled
/// `frequency` times a second on the CPU clock, written to `output`, for `duration_secs`
/// seconds.
pub open spec fn perf_record_arg_list(frequency: nat, output: Seq<char>, duration_secs: nat) -> Seq<Seq<char>> {
    seq![
        "record"@, "-a"@, "-q"@, "-g"@, "-k"@, "1"@, "-F"@, decimal(frequency), "-e"@, "cpu-clock:pppH"@,
        "-o"@, output, "--"@, "sleep"@, decimal(duration_secs),
    ]
}

/// The arguments of `perf record` (see `perf_record_arg_list`).
pub fn perf_record_args(perf_frequency: u32, output_path: &str, duration_secs: u64) -> (r: Vec<String>)
    ensures
        strs_view(r@) == perf_record_arg_list(perf_frequency as nat, output_path@, duration_secs as nat),
{
    let mut f = String::new();
    push_decimal(&mut f, perf_frequency as u64);
    let mut d = String::new();
    push_decimal(&mut d, duration_secs);
    let r = vec![
        "record".to_string(), "-a".to_string(), "-q".to_string(), "-g".to_string(), "-k".to_string(),
        "1".to_string(), "-F".to_string(), f, "-e".to_string(), "cpu-clock:pppH".to_string(), "-o".to_string(),
        output_path.to_string(), "--".to_string(), "sleep".to_string(), d,
    ];
    assert(strs_view(r@) =~= perf_record_arg_list(perf_frequency as nat, output_path@, duration_secs as nat));
    r
}


/// The arguments of `perf inject` that adds the symbols of JIT-compiled code to a profile.
pub fn perf_inject_args(input_path: &str, output_path: &str) -> (r: Vec<String>)
    ensures
        strs_view(r@) == seq!["inject"@, "-j"@, "-i"@, input_path@, "-o"@, output_path@],
{
    let r = vec![
        "inject".to_string(), "-j".to_string(), "-i".to_string(), input_path.to_string(), "-o".to_string(),
        output_path.to_string(),
    ];
    assert(strs_view(r@) =~= seq!["inject"@, "-j"@, "-i"@, input_path@, "-o"@, output_path@]);
    r
}

/// The arguments of `perf script` that prints the samples of a profile with all fields.
pub fn perf_script_args(input_path: &str) -> (r: Vec<String>)
    ensures
        strs_view(r@) == seq!["script"@, "-f"@, "-i"@, input_path@],
{
    let r = vec!["script".to_string(), "-f".to_string(), "-i".to_string(), input_path.to_string()];
    assert(strs_view(r@) =~= seq!["script"@, "-f"@, "-i"@, input_path@]);
    r
}

} // verus!

//! Performance data of a Linux system: recording system metrics into raw data, and
//! processing raw data into the data formats of a report. This library holds the parsing,
//! ordering and naming rules of the data, each with a contract proved by Verus.
pub mod data;
pub mod data_collection;
pub mod data_processing;
pub mod pmu;
pub mod regex_match;
pub mod text;

use crate::regex_match::{compile_pattern, pattern_is_match, spec_regex_compiles, spec_regex_is_match};
use crate::text::{
    chars_of, push_str, range_ends_with, range_eq, split_pair,
    split_pair_ranges, string_of,
};
use std::collections::HashSet;
use std::path::PathBuf;
use vstd::prelude::*;

verus! {

#[verifier::external_type_specification]
#[verifier::external_body]
pub struct ExPathBuf(std::path::PathBuf);

/// The file extension of raw data files.
pub const APERF_FILE_FORMAT: &'static str = "bin";

/// The directory of temporary files.
pub const APERF_TMP: &'static str = "/tmp";

pub const GROUPED_PMU_MODE: &'static str = "grouped";

pub const UNGROUPED_PMU_MODE: &'static str = "ungrouped";

/// The errors of recording and reporting.
#[derive(Debug)]
pub enum PDError {
    CollectorLineNameError,
    CollectorLineValueError,
    RunNotFound(PathBuf),
    DuplicateRunPath(PathBuf),
    ReportExists(String),
    InvalidDirectory(PathBuf),
    InvalidArchive(PathBuf),
    InvalidVerboseOption,
    InvalidRunTimeRangeOption(String),
    NetworkInterfaceDetectionFailure(String),
    EthToolSocketCreationFailure,
    InvalidRunData,
    DependencyError(String),
    IgnoredDataPreparationError(String),
}

/// The metrics of a process.
#[derive(Clone, Copy, Debug, PartialEq, Eq, Hash, Structural)]
pub enum ProcessMetric {
    UserSpaceTime,
    KernelSpaceTime,
    NumberThreads,
    VirtualMemorySize,
    ResidentSetSize,
    ResidentSetSizeBytes,
    NumberProcesses,
}

pub open spec fn process_metric_name(m: ProcessMetric) -> Seq<char> {
    match m {
        ProcessMetric::UserSpaceTime => "user_space_time"@,
        ProcessMetric::KernelSpaceTime => "kernel_space_time"@,
        ProcessMetric::NumberThreads => "number_threads"@,
        ProcessMetric::VirtualMemorySize => "virtual_memory_size"@,
        ProcessMetric::ResidentSetSize => "resident_set_size"@,
        ProcessMetric::ResidentSetSizeBytes => "resident_set_size_bytes"@,
        ProcessMetric::NumberProcesses => "number_processes"@,
    }
}

impl ProcessMetric {
    /// The snake-case name of the metric.
    pub fn as_str(&self) -> (r: &'static str)
        ensures
            r@ == process_metric_name(*self),
    {
        match self {
            ProcessMetric::UserSpaceTime => "user_space_time",
            ProcessMetric::KernelSpaceTime => "kernel_space_time",
            ProcessMetric::NumberThreads => "number_threads",
            ProcessMetric::VirtualMemorySize => "virtual_memory_size",
            ProcessMetric::ResidentSetSize => "resident_set_size",
            ProcessMetric::ResidentSetSizeBytes => "resident_set_size_bytes",
            ProcessMetric::NumberProcesses => "number_processes",
        }
    }

    /// The name of the metric among the statistics of the recording process itself.
    pub fn to_aperf_stat_metric_name(&self) -> (r: String)
        ensures
            r@ == "process_"@ + process_metric_name(*self),
    {
        let mut s = String::new();
        push_str(&mut s, "process_");
        push_str(&mut s, self.as_str());
        s
    }

    /// All process metrics, in declaration order.
    pub fn all() -> (r: Vec<ProcessMetric>)
        ensures
            r@ == seq![
                ProcessMetric::UserSpaceTime,
                ProcessMetric::KernelSpaceTime,
                ProcessMetric::NumberThreads,
                ProcessMetric::VirtualMemorySize,
                ProcessMetric::ResidentSetSize,
                ProcessMetric::ResidentSetSizeBytes,
                ProcessMetric::NumberProcesses,
            ],
    {
        let r = vec![
            ProcessMetric::UserSpaceTime,
            ProcessMetric::KernelSpaceTime,
            ProcessMetric::NumberThreads,
            ProcessMetric::VirtualMemorySize,
            ProcessMetric::ResidentSetSize,
            ProcessMetric::ResidentSetSizeBytes,
            ProcessMetric::NumberProcesses,
        ];
        assert(r@ =~= seq![
            ProcessMetric::UserSpaceTime,
            ProcessMetric::KernelSpaceTime,
            ProcessMetric::NumberThreads,
            ProcessMetric::VirtualMemorySize,
            ProcessMetric::ResidentSetSize,
            ProcessMetric::ResidentSetSizeBytes,
            ProcessMetric::NumberProcesses,
        ]);
        r
    }
}

// ------------------------------------------------------------------------------------------
// Data names and file names
// ------------------------------------------------------------------------------------------

/// The component right after the first "data" component of a `::`-separated path.
pub open spec fn data_name_in(parts: Seq<Seq<char>>) -> Option<Seq<char>>
    decreases parts.len(),
{
    if parts.len() < 2 {
        None
    } else if parts[0] == "data"@ {
        Some(parts[1])
    } else {
        data_name_in(parts.drop_first())
    }
}

/// The name of a data type in a full type name such as "aperf::data::cpu_utilization::X":
/// the module right under `data`.
pub open spec fn type_data_name(full_type_path: Seq<char>) -> Option<Seq<char>> {
    data_name_in(split_pair(full_type_path, ':'))
}

/// The data name within a full type name: the module name right under `data`, which is
/// the unique identifier of a data type.
pub fn data_name_from_full_type_path(full_type_path: &str) -> (r: Option<String>)
    ensures
        match r {
            Some(n) => type_data_name(full_type_path@) == Some(n@),
            None => type_data_name(full_type_path@) is None,
        },
{
    let v = chars_of(full_type_path);
    assert(v@.subrange(0, v@.len() as int) =~= v@);
    let parts = split_pair_ranges(&v, 0, v.len(), ':');
    let ghost ps = split_pair(full_type_path@, ':');
    let lit = chars_of("data");
    let mut j: usize = 1;
    assert(ps.skip(0) =~= ps);
    while j < parts.len()
        invariant
            ps == crate::text::pieces(v@, parts@),
            ps == split_pair(full_type_path@, ':'),
            crate::text::ranges_within(parts@, 0, v@.len() as int),
            lit@ == "data"@,
            1 <= j,
            j <= parts@.len() || parts@.len() == 0,
            data_name_in(ps) == data_name_in(ps.skip(j - 1)),
        decreases parts.len() - j,
    {
        let (a, b) = parts[j - 1];
        let (c, d) = parts[j];
        assert(parts@[j - 1] == (a, b) && parts@[j as int] == (c, d));
        assert(ps.skip(j - 1)[0] == ps[j - 1] && ps.skip(j - 1)[1] == ps[j as int]);
        assert(ps[j - 1] == v@.subrange(a as int, b as int));
        assert(ps[j as int] == v@.subrange(c as int, d as int));
        assert(ps.skip(j - 1).len() >= 2);
        if range_eq(&v, a, b, &lit) {
            let r = string_of(&v, c, d);
            assert(data_name_in(ps.skip(j - 1)) == Some(r@));
            return Some(r);
        }
        assert(ps.skip(j - 1).drop_first() =~= ps.skip(j as int));
        j = j + 1;
    }
    None
}

/// The last component of a path as `Path::file_name` gives it (none where the path ends in
/// `..` or is a root), converted lossily to text.
pub uninterp spec fn path_file_name_of(path: PathBuf) -> Option<Seq<char>>;

/// The path that `Path::join` makes of a path and one more component.
pub uninterp spec fn joined_path(base: PathBuf, name: Seq<char>) -> PathBuf;

/// `Path::file_name`, converted lossily to a `String`: the result is `path_file_name_of` the
/// path. Which component that is follows the platform's path rules, which are not stated.
#[verifier::external_body]
pub(crate) fn path_file_name(path: &PathBuf) -> (r: Option<String>)
    ensures
        match r {
            Some(s) => path_file_name_of(*path) == Some(s@),
            None => path_file_name_of(*path) is None,
        },
{
    path.file_name().map(|n| n.to_string_lossy().into_owned())
}

/// `Path::join`: the result is `joined_path` of the path and the component. How the
/// component is joined follows the platform's path rules, which are not stated.
#[verifier::external_body]
pub(crate) fn path_join(path: &PathBuf, name: &str) -> (r: PathBuf)
    ensures
        r == joined_path(*path, name@),
{
    path.join(name)
}

/// A file name without its ".tar.gz" suffix, if it has one.
pub open spec fn tar_gz_stem(file_name: Seq<char>) -> Seq<char> {
    if ".tar.gz"@.is_suffix_of(file_name) {
        file_name.subrange(0, file_name.len() - 7)
    } else {
        file_name
    }
}

/// The file name of a path without the ".tar.gz" suffix of an archive, if the path has a
/// file name (see `path_file_name_of`).
pub open spec fn no_tar_gz_name_of(path: PathBuf) -> Option<Seq<char>> {
    match path_file_name_of(path) {
        Some(n) => Some(tar_gz_stem(n)),
        None => None,
    }
}

/// The file name of a path (if it has one), without the ".tar.gz" suffix of an archive.
pub fn no_tar_gz_file_name(path: &PathBuf) -> (r: Option<String>)
    ensures
        match r {
            Some(s) => no_tar_gz_name_of(*path) == Some(s@),
            None => no_tar_gz_name_of(*path) is None,
        },
{
    match path_file_name(path) {
        Some(name) => Some(strip_tar_gz_suffix(name.as_str())),
        None => None,
    }
}

/// The raw data file of a data type within a run's data directory.
pub fn data_file_path(data_name: &str, run_data_dir: &PathBuf) -> (r: PathBuf)
    ensures
        r == joined_path(*run_data_dir, data_name@ + "."@ + APERF_FILE_FORMAT@),
{
    let name = data_file_name(data_name);
    path_join(run_data_dir, name.as_str())
}

/// The file name of the run log: the data name of the run log data type.
pub fn aperf_runlog_file_name() -> (r: &'static str)
    ensures
        r@ == "aperf_runlog"@,
{
    "aperf_runlog"
}

/// The run log file within a run's data directory.
pub fn aperf_runlog_file_path(run_data_dir: &PathBuf) -> (r: PathBuf)
    ensures
        r == joined_path(*run_data_dir, "aperf_runlog"@),
{
    path_join(run_data_dir, aperf_runlog_file_name())
}

/// A file name without its ".tar.gz" suffix, if it has one.
pub fn strip_tar_gz_suffix(file_name: &str) -> (r: String)
    ensures
        r@ == tar_gz_stem(file_name@),
{
    let v = chars_of(file_name);
    let suffix = chars_of(".tar.gz");
    assert(v@.subrange(0, v@.len() as int) =~= v@);
    assert(".tar.gz"@.len() == 7) by {
        reveal_strlit(".tar.gz");
    }
    if range_ends_with(&v, 0, v.len(), &suffix) {
        string_of(&v, 0, v.len() - 7)
    } else {
        string_of(&v, 0, v.len())
    }
}

/// The file name of a data type's raw data: its name with the raw data extension.
pub fn data_file_name(data_name: &str) -> (r: String)
    ensures
        r@ == data_name@ + "."@ + APERF_FILE_FORMAT@,
{
    let mut s = String::new();
    push_str(&mut s, data_name);
    push_str(&mut s, ".");
    push_str(&mut s, APERF_FILE_FORMAT);
    s
}

// ------------------------------------------------------------------------------------------
// Finding a file by pattern
// ------------------------------------------------------------------------------------------

/// Why no file name was selected.
#[derive(Clone, Copy, Debug, PartialEq, Eq, Structural)]
pub enum FindFileError {
    /// The pattern is not a valid regular expression.
    InvalidPattern,
    /// The exclude pattern is not a valid regular expression.
    InvalidExcludePattern,
    /// No name matches the pattern without matching the exclude pattern.
    NotFound,
}

/// A name matches the pattern and does not match the exclude pattern.
pub open spec fn is_selected_file(name: Seq<char>, pattern: Seq<char>, exclude: Option<Seq<char>>) -> bool {
    spec_regex_is_match(pattern, name) && !(exclude matches Some(e) && spec_regex_is_match(e, name))
}

pub open spec fn opt_str_view(o: Option<&str>) -> Option<Seq<char>> {
    match o {
        Some(s) => Some(s@),
        None => None,
    }
}

/// The first of the file names (in the order given) that matches `pattern` and does not
/// match `exclude_pattern`.
pub fn select_matching_file(file_names: &Vec<String>, pattern: &str, exclude_pattern: Option<&str>) -> (r:
    Result<String, FindFileError>)
    ensures
        (r == Err::<String, FindFileError>(FindFileError::InvalidPattern)) <==> !spec_regex_compiles(
            pattern@,
        ),
        (r == Err::<String, FindFileError>(FindFileError::InvalidExcludePattern)) <==> (
        spec_regex_compiles(pattern@) && (exclude_pattern matches Some(e) && !spec_regex_compiles(
            e@,
        ))),
        r == Err::<String, FindFileError>(FindFileError::NotFound) ==> forall|k: int|
            0 <= k < file_names@.len() ==> !is_selected_file(
                file_names@[k]@,
                pattern@,
                opt_str_view(exclude_pattern),
            ),
        r matches Ok(name) ==> exists|k: int|
            0 <= k < file_names@.len() && file_names@[k]@ == name@ && is_selected_file(
                file_names@[k]@,
                pattern@,
                opt_str_view(exclude_pattern),
            ) && forall|j: int|
                0 <= j < k ==> !is_selected_file(
                    #[trigger] file_names@[j]@,
                    pattern@,
                    opt_str_view(exclude_pattern),
                ),
{
    let re = match compile_pattern(pattern) {
        Some(re) => re,
        None => {
            return Err(FindFileError::InvalidPattern);
        },
    };
    let exclude = match exclude_pattern {
        Some(e) => match compile_pattern(e) {
            Some(c) => Some(c),
            None => {
                return Err(FindFileError::InvalidExcludePattern);
            },
        },
        None => None,
    };
    let ghost ex = opt_str_view(exclude_pattern);
    let mut k: usize = 0;
    while k < file_names.len()
        invariant
            re.pattern() == pattern@,
            spec_regex_compiles(pattern@),
            exclude_pattern matches Some(e) ==> spec_regex_compiles(e@),
            exclude is Some <==> exclude_pattern is Some,
            exclude matches Some(c) ==> ex == Some(c.pattern()),
            ex == opt_str_view(exclude_pattern),
            0 <= k <= file_names@.len(),
            forall|j: int| 0 <= j < k ==> !is_selected_file(#[trigger] file_names@[j]@, pattern@, ex),
        decreases file_names.len() - k,
    {
        let name = file_names[k].as_str();
        if pattern_is_match(&re, name) {
            let excluded = match &exclude {
                Some(c) => pattern_is_match(c, name),
                None => false,
            };
            if !excluded {
                return Ok(file_names[k].clone());
            }
        }
        k = k + 1;
    }
    Err(FindFileError::NotFound)
}

// ------------------------------------------------------------------------------------------
// Subprocesses
// ------------------------------------------------------------------------------------------

/// Records the PID of a subprocess that a recording launched, among those recorded so far.
pub fn register_sub_process_pid(pids: &mut HashSet<u32>, pid: u32)
    ensures
        final(pids)@ == old(pids)@.insert(pid),
{
    broadcast use vstd::std_specs::hash::group_hash_axioms;

    pids.insert(pid);
}

} // verus!

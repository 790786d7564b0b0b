//! The statistics of the recording process itself: the names under which the statistics of
//! older recordings are shown, and the order of the metrics.
use crate::text::{chars_of, split, split_ranges, str_eq, string_of};
use crate::{process_metric_name, ProcessMetric};
use vstd::prelude::*;

verus! {

/// The data and statistic names of a key "data-stat" of an older recording: the text before
/// the first '-', and the text between the first and the second '-' (the data name where
/// there is no '-'); the statistic "print" is now called "write".
pub open spec fn legacy_stat_names(key: Seq<char>) -> (Seq<char>, Seq<char>) {
    let parts = split(key, '-');
    let data = parts[0];
    let stat = if parts.len() > 1 {
        parts[1]
    } else {
        data
    };
    (data, if stat == "print"@ {
        "write"@
    } else {
        stat
    })
}

/// The data and statistic names of a key of an older recording (see `legacy_stat_names`).
pub fn legacy_stat_key_names(key: &str) -> (r: (String, String))
    ensures
        (r.0@, r.1@) == legacy_stat_names(key@),
{
    let v = chars_of(key);
    let rs = split_ranges(&v, 0, v.len(), '-');
    assert(v@.subrange(0, v@.len() as int) =~= v@);
    assert(rs@[0] == rs[0]);
    let data = string_of(&v, rs[0].0, rs[0].1);
    let stat = if rs.len() > 1 {
        string_of(&v, rs[1].0, rs[1].1)
    } else {
        string_of(&v, rs[0].0, rs[0].1)
    };
    if str_eq(stat.as_str(), "print") {
        (data, "write".to_string())
    } else {
        (data, stat)
    }
}

/// The order of the metrics of the recording's own statistics: the process metrics, then
/// the preparation, the finishing and the recording process's own statistics.
pub open spec fn aperf_stats_metric_order() -> Seq<Seq<char>> {
    seq![
        "process_"@ + process_metric_name(ProcessMetric::UserSpaceTime),
        "process_"@ + process_metric_name(ProcessMetric::KernelSpaceTime),
        "process_"@ + process_metric_name(ProcessMetric::NumberThreads),
        "process_"@ + process_metric_name(ProcessMetric::VirtualMemorySize),
        "process_"@ + process_metric_name(ProcessMetric::ResidentSetSize),
        "process_"@ + process_metric_name(ProcessMetric::ResidentSetSizeBytes),
        "process_"@ + process_metric_name(ProcessMetric::NumberProcesses),
        "prepare"@,
        "finish"@,
        "aperf"@,
    ]
}

/// The statistics of the recording process itself.
#[derive(Debug, Clone)]
pub struct AperfStats;

impl AperfStats {
    /// The names of the raw data files this data type reads.
    pub fn compatible_filenames() -> (r: Vec<&'static str>)
        ensures
            r@.len() == 1,
            r@[0]@ == "aperf_run_stats"@,
    {
        vec!["aperf_run_stats"]
    }

    /// The order in which the metrics are shown (see `aperf_stats_metric_order`).
    pub fn metric_name_order() -> (r: Vec<String>)
        ensures
            r@.map_values(|s: String| s@) == aperf_stats_metric_order(),
    {
        let metrics = ProcessMetric::all();
        let mut r: Vec<String> = Vec::new();
        let mut i: usize = 0;
        while i < metrics.len()
            invariant
                metrics@ == seq![
                    ProcessMetric::UserSpaceTime,
                    ProcessMetric::KernelSpaceTime,
                    ProcessMetric::NumberThreads,
                    ProcessMetric::VirtualMemorySize,
                    ProcessMetric::ResidentSetSize,
                    ProcessMetric::ResidentSetSizeBytes,
                    ProcessMetric::NumberProcesses,
                ],
                i <= metrics@.len(),
                r@.len() == i,
                forall|k: int| 0 <= k < i ==> (#[trigger] r@[k])@ == aperf_stats_metric_order()[k],
            decreases metrics.len() - i,
        {
            r.push(metrics[i].to_aperf_stat_metric_name());
            i = i + 1;
        }
        r.push("prepare".to_string());
        r.push("finish".to_string());
        r.push("aperf".to_string());
        assert(r@.map_values(|s: String| s@) =~= aperf_stats_metric_order());
        r
    }
}

} // verus!

//! Disk statistics: the fields of a device's line of /proc/diskstats and the statistic each
//! field holds.
use crate::data::cpu_utilization::counter_value;
use crate::text::{chars_of, parse_unsigned_range, strs_view, words, words_of};
use vstd::prelude::*;

verus! {

/// The data type of disk statistics.
#[derive(Debug, Clone)]
pub struct Diskstats;

impl Diskstats {
    pub fn new() -> Self {
        Diskstats
    }
}

/// One device's line of /proc/diskstats: the device name and its statistics.
#[derive(Debug, Clone)]
pub struct ProcDiskStats {
    pub device_name: String,
    pub disk_stats: Vec<u64>,
}

/// Why a line of /proc/diskstats was refused.
#[derive(Debug, Clone, Copy, PartialEq, Eq, Structural)]
pub enum DiskStatsError {
    /// The line has fewer than 14 fields.
    TooFewFields,
}

/// A line of /proc/diskstats "<major> <minor> <device> <stat> <stat> ...": with at least 14
/// words, the third word is the device and the words after it are the statistics (0 for
/// one that is not a `u64`).
pub open spec fn disk_stats_of(line: Seq<char>) -> Result<(Seq<char>, Seq<u64>), DiskStatsError> {
    let w = words(line);
    if w.len() < 14 {
        Err(DiskStatsError::TooFewFields)
    } else {
        Ok((w[2], w.skip(3).map_values(|s: Seq<char>| counter_value(s))))
    }
}

impl ProcDiskStats {
    /// Reads one device's line of /proc/diskstats.
    pub fn from_raw_data(raw_data: &str) -> (r: Result<Self, DiskStatsError>)
        ensures
            match (r, disk_stats_of(raw_data@)) {
                (Ok(d), Ok((name, stats))) => d.device_name@ == name && d.disk_stats@ == stats,
                (Err(e), Err(f)) => e == f,
                _ => false,
            },
    {
        let w = words_of(raw_data);
        let ghost wv = words(raw_data@);
        if w.len() < 14 {
            return Err(DiskStatsError::TooFewFields);
        }
        let device_name = w[2].clone();
        let mut disk_stats: Vec<u64> = Vec::new();
        let mut k: usize = 3;
        while k < w.len()
            invariant
                strs_view(w@) == wv,
                3 <= k <= w@.len(),
                disk_stats@ == wv.skip(3).take(k - 3).map_values(|s: Seq<char>| counter_value(s)),
            decreases w.len() - k,
        {
            let v = chars_of(w[k].as_str());
            assert(v@.subrange(0, v@.len() as int) =~= v@);
            assert(w@[k as int]@ == wv[k as int]);
            let x = match parse_unsigned_range(&v, 0, v.len(), u64::MAX) {
                Some(n) => n,
                None => 0,
            };
            let ghost before = disk_stats@;
            disk_stats.push(x);
            assert(disk_stats@ =~= wv.skip(3).take(k - 2).map_values(|s: Seq<char>| counter_value(s))) by {
                assert(disk_stats@ == before.push(x));
                assert(wv.skip(3)[k - 3] == wv[k as int]);
            }
            k = k + 1;
        }
        assert(wv.skip(3).take(w@.len() - 3) =~= wv.skip(3));
        assert(w@[2]@ == wv[2]);
        Ok(ProcDiskStats { device_name, disk_stats })
    }
}

/// The statistics of /proc/diskstats, in the order of its fields.
#[derive(Debug, Clone, Copy, PartialEq, Eq, Hash, Structural)]
pub enum DiskStatKey {
    Reads,
    Merged,
    SectorsRead,
    TimeReading,
    Writes,
    WritesMerged,
    SectorsWritten,
    TimeWriting,
    InProgress,
    TimeInProgress,
    WeightedTimeInProgress,
    Discards,
    DiscardsMerged,
    SectorsDiscarded,
    TimeDiscarding,
    Flushes,
    TimeFlushing,
}

/// The field of a statistic among a device's statistics.
pub open spec fn disk_stat_index(k: DiskStatKey) -> int {
    match k {
        DiskStatKey::Reads => 0,
        DiskStatKey::Merged => 1,
        DiskStatKey::SectorsRead => 2,
        DiskStatKey::TimeReading => 3,
        DiskStatKey::Writes => 4,
        DiskStatKey::WritesMerged => 5,
        DiskStatKey::SectorsWritten => 6,
        DiskStatKey::TimeWriting => 7,
        DiskStatKey::InProgress => 8,
        DiskStatKey::TimeInProgress => 9,
        DiskStatKey::WeightedTimeInProgress => 10,
        DiskStatKey::Discards => 11,
        DiskStatKey::DiscardsMerged => 12,
        DiskStatKey::SectorsDiscarded => 13,
        DiskStatKey::TimeDiscarding => 14,
        DiskStatKey::Flushes => 15,
        DiskStatKey::TimeFlushing => 16,
    }
}

pub open spec fn disk_stat_name(k: DiskStatKey) -> Seq<char> {
    match k {
        DiskStatKey::Reads => "reads"@,
        DiskStatKey::Merged => "merged"@,
        DiskStatKey::SectorsRead => "sectors_read"@,
        DiskStatKey::TimeReading => "time_reading"@,
        DiskStatKey::Writes => "writes"@,
        DiskStatKey::WritesMerged => "writes_merged"@,
        DiskStatKey::SectorsWritten => "sectors_written"@,
        DiskStatKey::TimeWriting => "time_writing"@,
        DiskStatKey::InProgress => "in_progress"@,
        DiskStatKey::TimeInProgress => "time_in_progress"@,
        DiskStatKey::WeightedTimeInProgress => "weighted_time_in_progress"@,
        DiskStatKey::Discards => "discards"@,
        DiskStatKey::DiscardsMerged => "discards_merged"@,
        DiskStatKey::SectorsDiscarded => "sectors_discarded"@,
        DiskStatKey::TimeDiscarding => "time_discarding"@,
        DiskStatKey::Flushes => "flushes"@,
        DiskStatKey::TimeFlushing => "time_flushing"@,
    }
}

impl DiskStatKey {
    /// The snake-case name of the statistic, which names its metric.
    pub fn as_str(&self) -> (r: &'static str)
        ensures
            r@ == disk_stat_name(*self),
    {
        match self {
            DiskStatKey::Reads => "reads",
            DiskStatKey::Merged => "merged",
            DiskStatKey::SectorsRead => "sectors_read",
            DiskStatKey::TimeReading => "time_reading",
            DiskStatKey::Writes => "writes",
            DiskStatKey::WritesMerged => "writes_merged",
            DiskStatKey::SectorsWritten => "sectors_written",
            DiskStatKey::TimeWriting => "time_writing",
            DiskStatKey::InProgress => "in_progress",
            DiskStatKey::TimeInProgress => "time_in_progress",
            DiskStatKey::WeightedTimeInProgress => "weighted_time_in_progress",
            DiskStatKey::Discards => "discards",
            DiskStatKey::DiscardsMerged => "discards_merged",
            DiskStatKey::SectorsDiscarded => "sectors_discarded",
            DiskStatKey::TimeDiscarding => "time_discarding",
            DiskStatKey::Flushes => "flushes",
            DiskStatKey::TimeFlushing => "time_flushing",
        }
    }
}

/// The statistics of a device in /proc/diskstats after its name, in the order in which the
/// kernel documents their fields: reads completed, reads merged, sectors read, time reading,
/// writes completed, writes merged, sectors written, time writing, I/Os in progress, time
/// doing I/O, weighted time doing I/O, discards completed, discards merged, sectors
/// discarded, time discarding, flush requests completed, time flushing.
pub open spec fn kernel_diskstats_fields() -> Seq<Seq<char>> {
    seq![
        "reads"@,
        "merged"@,
        "sectors_read"@,
        "time_reading"@,
        "writes"@,
        "writes_merged"@,
        "sectors_written"@,
        "time_writing"@,
        "in_progress"@,
        "time_in_progress"@,
        "weighted_time_in_progress"@,
        "discards"@,
        "discards_merged"@,
        "sectors_discarded"@,
        "time_discarding"@,
        "flushes"@,
        "time_flushing"@,
    ]
}

/// Each statistic is read from the field that the kernel documents for it: the field of a
/// statistic is its position in the documented order (reads completed first, writes
/// completed fifth, sectors written seventh, ...), and no two statistics share a field.
pub proof fn lemma_disk_stat_fields()
    ensures
        disk_stat_index(DiskStatKey::Reads) == 0,
        disk_stat_index(DiskStatKey::Merged) == 1,
        disk_stat_index(DiskStatKey::SectorsRead) == 2,
        disk_stat_index(DiskStatKey::TimeReading) == 3,
        disk_stat_index(DiskStatKey::Writes) == 4,
        disk_stat_index(DiskStatKey::WritesMerged) == 5,
        disk_stat_index(DiskStatKey::SectorsWritten) == 6,
        disk_stat_index(DiskStatKey::TimeWriting) == 7,
        disk_stat_index(DiskStatKey::InProgress) == 8,
        disk_stat_index(DiskStatKey::TimeInProgress) == 9,
        disk_stat_index(DiskStatKey::WeightedTimeInProgress) == 10,
        disk_stat_index(DiskStatKey::Discards) == 11,
        disk_stat_index(DiskStatKey::DiscardsMerged) == 12,
        disk_stat_index(DiskStatKey::SectorsDiscarded) == 13,
        disk_stat_index(DiskStatKey::TimeDiscarding) == 14,
        disk_stat_index(DiskStatKey::Flushes) == 15,
        disk_stat_index(DiskStatKey::TimeFlushing) == 16,
        forall|k: DiskStatKey|
            0 <= #[trigger] disk_stat_index(k) < kernel_diskstats_fields().len()
                && kernel_diskstats_fields()[disk_stat_index(k)] == disk_stat_name(k),
        forall|a: DiskStatKey, b: DiskStatKey|
            #[trigger] disk_stat_index(a) == #[trigger] disk_stat_index(b) ==> a == b,
{
    assert forall|k: DiskStatKey|
        0 <= #[trigger] disk_stat_index(k) < kernel_diskstats_fields().len()
            && kernel_diskstats_fields()[disk_stat_index(k)] == disk_stat_name(k) by {
        match k {
            DiskStatKey::Reads => {},
            DiskStatKey::Merged => {},
            DiskStatKey::SectorsRead => {},
            DiskStatKey::TimeReading => {},
            DiskStatKey::Writes => {},
            DiskStatKey::WritesMerged => {},
            DiskStatKey::SectorsWritten => {},
            DiskStatKey::TimeWriting => {},
            DiskStatKey::InProgress => {},
            DiskStatKey::TimeInProgress => {},
            DiskStatKey::WeightedTimeInProgress => {},
            DiskStatKey::Discards => {},
            DiskStatKey::DiscardsMerged => {},
            DiskStatKey::SectorsDiscarded => {},
            DiskStatKey::TimeDiscarding => {},
            DiskStatKey::Flushes => {},
            DiskStatKey::TimeFlushing => {},
        }
    }
}

/// On a device's line of /proc/diskstats, "<major> <minor> <device> <fields...>", the
/// statistic of each key is the word of the line at its documented field, counted after the
/// device name: writes completed is the eighth word, sectors written the tenth, and so on.
pub proof fn lemma_disk_stat_words(line: Seq<char>, k: DiskStatKey)
    requires
        disk_stats_of(line) is Ok,
        disk_stat_index(k) < words(line).len() - 3,
    ensures
        ({
            let stats = disk_stats_of(line)->Ok_0.1;
            &&& disk_stat_index(k) < stats.len()
            &&& stats[disk_stat_index(k)] == counter_value(words(line)[3 + disk_stat_index(k)])
            &&& k == DiskStatKey::Writes ==> stats[disk_stat_index(k)] == counter_value(words(line)[7])
            &&& k == DiskStatKey::SectorsWritten ==> stats[disk_stat_index(k)] == counter_value(
                words(line)[9],
            )
            &&& k == DiskStatKey::Reads ==> stats[disk_stat_index(k)] == counter_value(words(line)[3])
        }),
{
    let w = words(line);
    assert(w.skip(3)[disk_stat_index(k)] == w[3 + disk_stat_index(k)]);
}

/// A device's statistic: the value of its field, or 0 when the line has no such field.
pub fn get_device_disk_stat(disk_stat_key: DiskStatKey, device_disk_stat: &Vec<u64>) -> (r: u64)
    ensures
        r == if disk_stat_index(disk_stat_key) < device_disk_stat@.len() {
            device_disk_stat@[disk_stat_index(disk_stat_key)]
        } else {
            0
        },
{
    let index: usize = match disk_stat_key {
        DiskStatKey::Reads => 0,
        DiskStatKey::Merged => 1,
        DiskStatKey::SectorsRead => 2,
        DiskStatKey::TimeReading => 3,
        DiskStatKey::Writes => 4,
        DiskStatKey::WritesMerged => 5,
        DiskStatKey::SectorsWritten => 6,
        DiskStatKey::TimeWriting => 7,
        DiskStatKey::InProgress => 8,
        DiskStatKey::TimeInProgress => 9,
        DiskStatKey::WeightedTimeInProgress => 10,
        DiskStatKey::Discards => 11,
        DiskStatKey::DiscardsMerged => 12,
        DiskStatKey::SectorsDiscarded => 13,
        DiskStatKey::TimeDiscarding => 14,
        DiskStatKey::Flushes => 15,
        DiskStatKey::TimeFlushing => 16,
    };
    if index < device_disk_stat.len() {
        device_disk_stat[index]
    } else {
        0
    }
}

} // verus!

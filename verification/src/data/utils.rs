//! Helpers of the older data types: the vendor and model of the CPU, series names, the file
//! name of an archive, ordering metric names and combining value ranges.
use crate::data::common::utils::{
    has_list_cycle, is_merged_order, min_of_mins, max_of_maxes, TopologicalSortError,
};
use crate::text::{
    chars_of, decimal, line_ranges, lines, pieces, push_decimal, push_str, range_eq, ranges_within,
    split, split_ranges, string_of, trim, trim_bounds,
};
use crate::{strip_tar_gz_suffix, tar_gz_stem};
use std::path::PathBuf;
use vstd::prelude::*;

verus! {

/// The vendor and the model name of the CPU, as /proc/cpuinfo names them.
#[derive(Clone, Debug)]
pub struct CpuInfo {
    pub vendor: String,
    pub model_name: String,
}

/// The effect of one line of /proc/cpuinfo on (vendor, model name): the line is split at
/// every colon, a line with fewer than two pieces is ignored, and the value is the trimmed
/// second piece.
pub open spec fn vendor_model_apply(info: (Seq<char>, Seq<char>), line: Seq<char>) -> (
    Seq<char>,
    Seq<char>,
) {
    let parts = split(line, ':');
    if parts.len() < 2 {
        info
    } else if trim(parts[0]) == "vendor_id"@ {
        (trim(parts[1]), info.1)
    } else if trim(parts[0]) == "model name"@ {
        (info.0, trim(parts[1]))
    } else {
        info
    }
}

pub open spec fn vendor_model_fold(ls: Seq<Seq<char>>) -> (Seq<char>, Seq<char>)
    decreases ls.len(),
{
    if ls.len() == 0 {
        (Seq::<char>::empty(), Seq::<char>::empty())
    } else {
        vendor_model_apply(vendor_model_fold(ls.drop_last()), ls.last())
    }
}

/// The index of the first empty line, or the number of lines if none is empty.
pub open spec fn first_empty_line(ls: Seq<Seq<char>>) -> int
    decreases ls.len(),
{
    if ls.len() == 0 {
        0
    } else if ls[0].len() == 0 {
        0
    } else {
        1 + first_empty_line(ls.drop_first())
    }
}

/// (vendor, model name) in the text of /proc/cpuinfo: the lines before the first empty
/// line, applied in order.
pub open spec fn vendor_model_of(text: Seq<char>) -> (Seq<char>, Seq<char>) {
    let ls = lines(text);
    vendor_model_fold(ls.take(first_empty_line(ls)))
}

proof fn lemma_first_empty_line(ls: Seq<Seq<char>>, k: int)
    requires
        0 <= k <= ls.len(),
        forall|j: int| 0 <= j < k ==> (#[trigger] ls[j]).len() > 0,
        k == ls.len() || ls[k].len() == 0,
    ensures
        first_empty_line(ls) == k,
    decreases ls.len(),
{
    if ls.len() > 0 && k > 0 {
        let t = ls.drop_first();
        assert forall|j: int| 0 <= j < k - 1 implies (#[trigger] t[j]).len() > 0 by {
            assert(t[j] == ls[j + 1]);
        }
        if k < ls.len() {
            assert(t[k - 1] == ls[k]);
        }
        lemma_first_empty_line(t, k - 1);
    }
}

impl CpuInfo {
    /// An empty vendor and model name.
    pub fn new() -> (r: CpuInfo)
        ensures
            r.vendor@ == Seq::<char>::empty(),
            r.model_name@ == Seq::<char>::empty(),
    {
        CpuInfo { vendor: String::new(), model_name: String::new() }
    }
}

/// Reads the vendor and model name from the text of /proc/cpuinfo.
pub fn get_cpu_info_from_text(text: &str) -> (r: CpuInfo)
    ensures
        (r.vendor@, r.model_name@) == vendor_model_of(text@),
{
    let v = chars_of(text);
    let ls = line_ranges(&v, 0, v.len());
    let ghost lsv = lines(text@);
    assert(v@.subrange(0, v@.len() as int) =~= v@);
    let mut info = CpuInfo::new();
    let lit_vendor = chars_of("vendor_id");
    let lit_model_name = chars_of("model name");
    let mut i: usize = 0;
    let mut stop = false;
    assert(lsv.take(0) =~= Seq::<Seq<char>>::empty());
    while i < ls.len() && !stop
        invariant
            stop ==> i < lsv.len() && lsv[i as int].len() == 0,
            lsv == lines(text@),
            lsv == pieces(v@, ls@),
            ranges_within(ls@, 0, v@.len() as int),
            0 <= i <= ls@.len(),
            forall|j: int| 0 <= j < i ==> (#[trigger] lsv[j]).len() > 0,
            (info.vendor@, info.model_name@) == vendor_model_fold(lsv.take(i as int)),
            lit_vendor@ == "vendor_id"@,
            lit_model_name@ == "model name"@,
        decreases ls.len() - i + (if stop {
            0int
        } else {
            1int
        }),
    {
        let (a, b) = ls[i];
        assert(ls@[i as int] == (a, b));
        let ghost line = v@.subrange(a as int, b as int);
        assert(lsv[i as int] == line);
        if a == b {
            stop = true;
            continue;
        }
        let parts = split_ranges(&v, a, b, ':');
        let ghost ps = split(line, ':');
        assert(lsv.take(i + 1).drop_last() =~= lsv.take(i as int));
        assert(lsv.take(i + 1).last() == line);
        if parts.len() >= 2 {
            let (k0, k1) = parts[0];
            let (v0, v1) = parts[1];
            assert(parts@[0] == (k0, k1) && parts@[1] == (v0, v1));
            assert(ps[0] == v@.subrange(k0 as int, k1 as int));
            assert(ps[1] == v@.subrange(v0 as int, v1 as int));
            let (ka, kb) = trim_bounds(&v, k0, k1);
            let (va, vb) = trim_bounds(&v, v0, v1);
            if range_eq(&v, ka, kb, &lit_vendor) {
                info.vendor = string_of(&v, va, vb);
            } else if range_eq(&v, ka, kb, &lit_model_name) {
                info.model_name = string_of(&v, va, vb);
            }
        }
        i = i + 1;
    }
    proof {
        lemma_first_empty_line(lsv, i as int);
    }
    info
}

/// The last component of a path as `Path::file_name` gives it, as text where it is valid
/// UTF-8 (`OsStr::to_str`): none where the path has no file name or the name is not UTF-8.
pub uninterp spec fn path_utf8_file_name_of(path: PathBuf) -> Option<Seq<char>>;

/// `Path::file_name` followed by `OsStr::to_str`: the result is `path_utf8_file_name_of` the
/// path. Which component that is, and which names are valid UTF-8, follow the platform's
/// path rules, which are not stated.
#[verifier::external_body]
fn path_utf8_file_name(path: &PathBuf) -> (r: Option<String>)
    ensures
        match r {
            Some(s) => path_utf8_file_name_of(*path) == Some(s@),
            None => path_utf8_file_name_of(*path) is None,
        },
{
    path.file_name().and_then(|n| n.to_str()).map(|n| n.to_string())
}

/// The UTF-8 file name of a path without the ".tar.gz" suffix of an archive, if the path has
/// a file name that is valid UTF-8 (see `path_utf8_file_name_of`).
pub open spec fn no_tar_gz_utf8_name_of(path: PathBuf) -> Option<Seq<char>> {
    match path_utf8_file_name_of(path) {
        Some(n) => Some(tar_gz_stem(n)),
        None => None,
    }
}

/// The file name of a path (if it has one and it is valid UTF-8), without the ".tar.gz"
/// suffix of an archive.
pub fn no_tar_gz_file_name(path: &PathBuf) -> (r: Option<String>)
    ensures
        match r {
            Some(s) => no_tar_gz_utf8_name_of(*path) == Some(s@),
            None => no_tar_gz_utf8_name_of(*path) is None,
        },
{
    match path_utf8_file_name(path) {
        Some(name) => Some(strip_tar_gz_suffix(name.as_str())),
        None => None,
    }
}

/// The name of the series of one CPU: "CPU" and its number (always present).
pub fn get_cpu_series_name(cpu: usize) -> (r: Option<String>)
    ensures
        r matches Some(n) && n@ == "CPU"@ + decimal(cpu as nat),
{
    let mut s = String::new();
    push_str(&mut s, "CPU");
    push_decimal(&mut s, cpu as u64);
    Some(s)
}

/// The name of the aggregate series (always present).
pub fn get_aggregate_series_name() -> (r: Option<String>)
    ensures
        r matches Some(n) && n@ == "Aggregate"@,
{
    let mut s = String::new();
    push_str(&mut s, "Aggregate");
    Some(s)
}

/// Merges several orders of items into one order of all their items that respects each
/// of them. Fails if and only if the orders contradict each other.
pub fn topological_sort(inputs: &Vec<&Vec<String>>) -> (r: Result<Vec<String>, TopologicalSortError>)
    ensures
        match r {
            Ok(order) => is_merged_order(order@.map_values(|s: String| s@), inputs.deep_view()),
            Err(_) => forall|order: Seq<Seq<char>>| !is_merged_order(order, inputs.deep_view()),
        },
        r is Ok <==> !has_list_cycle(inputs.deep_view()),
{
    crate::data::common::utils::topological_sort(inputs)
}

/// Combines value ranges into one: the minimum of all minimums and the maximum of all
/// maximums, or (0, 0) for no range.
pub fn combine_value_ranges(value_ranges: Vec<(u64, u64)>) -> (r: (u64, u64))
    ensures
        value_ranges@.len() == 0 ==> r == (0u64, 0u64),
        value_ranges@.len() > 0 ==> r == (min_of_mins(value_ranges@), max_of_maxes(
            value_ranges@,
        )),
{
    crate::data::common::utils::combine_value_ranges(value_ranges)
}

} // verus!

//! Access to processed data within a time range: the range of a series' points that fall
//! within the range, and the metric names that match a pattern.
use crate::regex_match::{compile_pattern, pattern_is_match, spec_regex_compiles, spec_regex_is_match};
use vstd::prelude::*;

verus! {

pub open spec fn is_sorted(s: Seq<u64>) -> bool {
    forall|i: int, j: int| 0 <= i <= j < s.len() ==> s[i] <= s[j]
}

/// The first index whose value is at least `bound` (`inclusive == false`), or greater than
/// `bound` (`inclusive == true`), by binary search. On a sorted slice every value before
/// it passes the test and every value from it on fails it.
fn partition_point(s: &[u64], bound: u64, inclusive: bool) -> (r: usize)
    ensures
        r <= s@.len(),
        is_sorted(s@) ==> forall|k: int|
            0 <= k < r ==> (if inclusive {
                s@[k] <= bound
            } else {
                s@[k] < bound
            }),
        is_sorted(s@) ==> forall|k: int|
            r <= k < s@.len() ==> !(if inclusive {
                s@[k] <= bound
            } else {
                s@[k] < bound
            }),
{
    let mut lo: usize = 0;
    let mut hi: usize = s.len();
    while lo < hi
        invariant
            0 <= lo <= hi <= s@.len(),
            is_sorted(s@) ==> forall|k: int|
                0 <= k < lo ==> (if inclusive {
                    s@[k] <= bound
                } else {
                    s@[k] < bound
                }),
            is_sorted(s@) ==> forall|k: int|
                hi <= k < s@.len() ==> !(if inclusive {
                    s@[k] <= bound
                } else {
                    s@[k] < bound
                }),
        decreases hi - lo,
    {
        let mid = lo + (hi - lo) / 2;
        let below = if inclusive {
            s[mid] <= bound
        } else {
            s[mid] < bound
        };
        if below {
            lo = mid + 1;
        } else {
            hi = mid;
        }
    }
    lo
}

/// Locates the start and end index of a series' points within the time range: the start is
/// the first point at or after `from_time` and the end is the first point after `to_time`
/// (the whole series when a bound is absent). `time_diff` is expected to be ascending, as
/// the points of a series are; on an unsorted slice only the bounds are promised.
pub fn compute_time_diff_index(time_diff: &[u64], from_time: Option<u64>, to_time: Option<
    u64,
>) -> (r: (usize, usize))
    ensures
        r.0 <= time_diff@.len(),
        r.1 <= time_diff@.len(),
        from_time is None ==> r.0 == 0,
        to_time is None ==> r.1 == time_diff@.len(),
        is_sorted(time_diff@) ==> (from_time matches Some(from) ==> (forall|k: int|
            0 <= k < r.0 ==> time_diff@[k] < from) && (forall|k: int|
            r.0 <= k < time_diff@.len() ==> time_diff@[k] >= from)),
        is_sorted(time_diff@) ==> (to_time matches Some(to) ==> (forall|k: int|
            0 <= k < r.1 ==> time_diff@[k] <= to) && (forall|k: int|
            r.1 <= k < time_diff@.len() ==> time_diff@[k] > to)),
{
    let start_idx = match from_time {
        Some(from) => partition_point(time_diff, from, false),
        None => 0,
    };
    let end_idx = match to_time {
        Some(to) => partition_point(time_diff, to, true),
        None => time_diff.len(),
    };
    (start_idx, end_idx)
}

/// The metric names that match a regular expression, in the given order; none when the
/// pattern does not compile.
pub fn matched_metric_names(metric_names: &Vec<String>, pattern: &str) -> (r: Vec<String>)
    ensures
        !spec_regex_compiles(pattern@) ==> r@.len() == 0,
        spec_regex_compiles(pattern@) ==> r@.map_values(|s: String| s@) == metric_names@.map_values(
            |s: String| s@,
        ).filter(|name: Seq<char>| spec_regex_is_match(pattern@, name)),
{
    let mut out: Vec<String> = Vec::new();
    let compiled = match compile_pattern(pattern) {
        Some(c) => c,
        None => {
            return out;
        },
    };
    let ghost names = metric_names@.map_values(|s: String| s@);
    let ghost pred = |name: Seq<char>| spec_regex_is_match(pattern@, name);
    let mut i: usize = 0;
    assert(names.take(0).filter(pred) =~= Seq::<Seq<char>>::empty());
    while i < metric_names.len()
        invariant
            spec_regex_compiles(pattern@),
            compiled.pattern() == pattern@,
            names == metric_names@.map_values(|s: String| s@),
            pred == (|name: Seq<char>| spec_regex_is_match(pattern@, name)),
            0 <= i <= metric_names@.len(),
            out@.map_values(|s: String| s@) == names.take(i as int).filter(pred),
        decreases metric_names.len() - i,
    {
        let ghost before = out@.map_values(|s: String| s@);
        assert(names.take(i + 1).drop_last() =~= names.take(i as int));
        reveal_with_fuel(Seq::filter, 1);
        if pattern_is_match(&compiled, metric_names[i].as_str()) {
            out.push(metric_names[i].clone());
            assert(out@.map_values(|s: String| s@) =~= before.push(metric_names@[i as int]@));
        } else {
            assert(out@.map_values(|s: String| s@) =~= before);
        }
        i = i + 1;
    }
    assert(names.take(metric_names@.len() as int) =~= names);
    out
}

} // verus!

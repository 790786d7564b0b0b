//! What the processing of raw data decides across runs: the order of metric names shared
//! by all runs, the value range that every run's graph of a metric uses, and the names of
//! the recording process's own metrics.
use crate::data::common::utils::{
    is_merged_order, lemma_combined_range_bounds, max_of_maxes, min_of_mins, topological_sort,
};
use crate::text::{decimal, push_decimal, push_str, str_eq};
use vstd::prelude::*;

verus! {

// ------------------------------------------------------------------------------------------
// Metric names across runs
// ------------------------------------------------------------------------------------------

/// The items of several lists in order of first appearance: list after list, each item
/// the first time it occurs.
pub open spec fn first_appearance(lists: Seq<Seq<Seq<char>>>) -> Seq<Seq<char>>
    decreases lists.len(),
{
    if lists.len() == 0 {
        Seq::<Seq<char>>::empty()
    } else {
        append_new(first_appearance(lists.drop_last()), lists.last())
    }
}

/// `acc` followed by the items of `l` that are not in it yet, each once.
pub open spec fn append_new(acc: Seq<Seq<char>>, l: Seq<Seq<char>>) -> Seq<Seq<char>>
    decreases l.len(),
{
    if l.len() == 0 {
        acc
    } else {
        let a = append_new(acc, l.drop_last());
        if a.contains(l.last()) {
            a
        } else {
            a.push(l.last())
        }
    }
}

/// The metric names of all runs in one order: an order that respects the order of every
/// run, if there is one, and otherwise the names in order of first appearance.
pub open spec fn is_cross_run_order(order: Seq<Seq<char>>, runs: Seq<Seq<Seq<char>>>) -> bool {
    if exists|o: Seq<Seq<char>>| is_merged_order(o, runs) {
        is_merged_order(order, runs)
    } else {
        order == first_appearance(runs)
    }
}

fn contains_string(v: &Vec<String>, x: &String) -> (r: bool)
    ensures
        r == v@.map_values(|s: String| s@).contains(x@),
{
    let ghost vs = v@.map_values(|s: String| s@);
    let mut i: usize = 0;
    while i < v.len()
        invariant
            vs == v@.map_values(|s: String| s@),
            0 <= i <= v@.len(),
            forall|j: int| 0 <= j < i ==> vs[j] != x@,
        decreases v.len() - i,
    {
        if str_eq(v[i].as_str(), x.as_str()) {
            assert(vs[i as int] == x@);
            return true;
        }
        i = i + 1;
    }
    false
}

/// The names of all runs in order of first appearance.
pub fn first_appearance_names(lists: &Vec<&Vec<String>>) -> (r: Vec<String>)
    ensures
        r@.map_values(|s: String| s@) == first_appearance(lists.deep_view()),
{
    let ghost ls = lists.deep_view();
    let mut out: Vec<String> = Vec::new();
    let mut i: usize = 0;
    assert(ls.take(0) =~= Seq::<Seq<Seq<char>>>::empty());
    while i < lists.len()
        invariant
            ls == lists.deep_view(),
            0 <= i <= lists@.len(),
            out@.map_values(|s: String| s@) == first_appearance(ls.take(i as int)),
        decreases lists.len() - i,
    {
        let l = lists[i];
        let ghost lv = l@.map_values(|s: String| s@);
        assert(ls[i as int] == lv);
        let ghost start = out@.map_values(|s: String| s@);
        let mut k: usize = 0;
        assert(lv.take(0) =~= Seq::<Seq<char>>::empty());
        while k < l.len()
            invariant
                lv == l@.map_values(|s: String| s@),
                0 <= k <= l@.len(),
                out@.map_values(|s: String| s@) == append_new(start, lv.take(k as int)),
            decreases l.len() - k,
        {
            assert(lv.take(k + 1).drop_last() =~= lv.take(k as int));
            assert(lv.take(k + 1).last() == l@[k as int]@);
            if !contains_string(&out, &l[k]) {
                let ghost before = out@;
                let c = l[k].clone();
                out.push(c);
                assert(out@.map_values(|s: String| s@) =~= before.map_values(|s: String| s@).push(
                    c@,
                ));
            }
            k = k + 1;
        }
        assert(lv.take(l@.len() as int) =~= lv);
        assert(ls.take(i + 1).drop_last() =~= ls.take(i as int));
        assert(ls.take(i + 1).last() == lv);
        i = i + 1;
    }
    assert(ls.take(lists@.len() as int) =~= ls);
    out
}

/// The order of the metric names of all runs of a data type: the merged order of the runs'
/// orders, or, where the runs' orders contradict each other, all names in order of first
/// appearance.
pub fn cross_run_metric_names(per_run_sorted_metric_names: &Vec<&Vec<String>>) -> (r: Vec<String>)
    ensures
        is_cross_run_order(r@.map_values(|s: String| s@), per_run_sorted_metric_names.deep_view()),
{
    match topological_sort(per_run_sorted_metric_names) {
        Ok(order) => order,
        Err(_) => first_appearance_names(per_run_sorted_metric_names),
    }
}

// ------------------------------------------------------------------------------------------
// Value ranges across runs
// ------------------------------------------------------------------------------------------

/// The value ranges of the metrics of several runs: for each run, (metric name, range).
pub type RunRanges = Seq<Seq<(Seq<char>, (u64, u64))>>;

/// The ranges of the metric `name` within one run, in order.
pub open spec fn ranges_in(run: Seq<(Seq<char>, (u64, u64))>, name: Seq<char>) -> Seq<(u64, u64)>
    decreases run.len(),
{
    if run.len() == 0 {
        Seq::<(u64, u64)>::empty()
    } else {
        let b = ranges_in(run.drop_last(), name);
        if run.last().0 == name {
            b.push(run.last().1)
        } else {
            b
        }
    }
}

/// The ranges of the metric `name` in all runs, run after run.
pub open spec fn ranges_named(runs: RunRanges, name: Seq<char>) -> Seq<(u64, u64)>
    decreases runs.len(),
{
    if runs.len() == 0 {
        Seq::<(u64, u64)>::empty()
    } else {
        ranges_named(runs.drop_last(), name) + ranges_in(runs.last(), name)
    }
}

/// The range that every run's graph of metric `name` uses: the smallest minimum and the
/// largest maximum among the runs' ranges of that metric.
pub open spec fn combined_range(runs: RunRanges, name: Seq<char>) -> (u64, u64) {
    let rs = ranges_named(runs, name);
    (min_of_mins(rs), max_of_maxes(rs))
}

pub open spec fn run_ranges_view(runs: Seq<Vec<(String, (u64, u64))>>) -> RunRanges {
    runs.map_values(
        |r: Vec<(String, (u64, u64))>| r@.map_values(|e: (String, (u64, u64))| (e.0@, e.1)),
    )
}

proof fn lemma_ranges_in_contains(run: Seq<(Seq<char>, (u64, u64))>, j: int)
    requires
        0 <= j < run.len(),
    ensures
        ranges_in(run, run[j].0).contains(run[j].1),
    decreases run.len(),
{
    let name = run[j].0;
    if j == run.len() - 1 {
        assert(ranges_in(run, name).last() == run[j].1);
    } else {
        lemma_ranges_in_contains(run.drop_last(), j);
        let b = ranges_in(run.drop_last(), name);
        let k = choose|k: int| 0 <= k < b.len() && b[k] == run[j].1;
        if run.last().0 == name {
            assert(ranges_in(run, name)[k] == run[j].1);
        }
    }
}

proof fn lemma_ranges_named_contains(runs: RunRanges, i: int, j: int)
    requires
        0 <= i < runs.len(),
        0 <= j < runs[i].len(),
    ensures
        ranges_named(runs, runs[i][j].0).contains(runs[i][j].1),
    decreases runs.len(),
{
    let name = runs[i][j].0;
    let a = ranges_named(runs.drop_last(), name);
    let b = ranges_in(runs.last(), name);
    if i == runs.len() - 1 {
        lemma_ranges_in_contains(runs[i], j);
        let k = choose|k: int| 0 <= k < b.len() && b[k] == runs[i][j].1;
        assert((a + b)[a.len() + k] == runs[i][j].1);
    } else {
        assert(runs.drop_last()[i] == runs[i]);
        lemma_ranges_named_contains(runs.drop_last(), i, j);
        let k = choose|k: int| 0 <= k < a.len() && a[k] == runs[i][j].1;
        assert((a + b)[k] == runs[i][j].1);
    }
}

/// The range of the metric `name` across all runs, given that at least one run has it.
fn combine_named(runs: &Vec<Vec<(String, (u64, u64))>>, name: &String) -> (r: (u64, u64))
    requires
        ranges_named(run_ranges_view(runs@), name@).len() > 0,
    ensures
        r == combined_range(run_ranges_view(runs@), name@),
{
    let ghost rv = run_ranges_view(runs@);
    let mut found = false;
    let mut lo: u64 = 0;
    let mut hi: u64 = 0;
    let mut k: usize = 0;
    assert(rv.take(0) =~= Seq::<Seq<(Seq<char>, (u64, u64))>>::empty());
    while k < runs.len()
        invariant
            rv == run_ranges_view(runs@),
            0 <= k <= runs@.len(),
            found == (ranges_named(rv.take(k as int), name@).len() > 0),
            found ==> lo == min_of_mins(ranges_named(rv.take(k as int), name@)) && hi
                == max_of_maxes(ranges_named(rv.take(k as int), name@)),
        decreases runs.len() - k,
    {
        let run = &runs[k];
        let ghost runv = run@.map_values(|e: (String, (u64, u64))| (e.0@, e.1));
        assert(rv[k as int] == runv);
        let ghost base = ranges_named(rv.take(k as int), name@);
        assert(rv.take(k + 1).drop_last() =~= rv.take(k as int));
        let mut l: usize = 0;
        assert(runv.take(0) =~= Seq::<(Seq<char>, (u64, u64))>::empty());
        assert(base + ranges_in(runv.take(0), name@) =~= base);
        while l < run.len()
            invariant
                runv == run@.map_values(|e: (String, (u64, u64))| (e.0@, e.1)),
                0 <= l <= run@.len(),
                found == ((base + ranges_in(runv.take(l as int), name@)).len() > 0),
                found ==> lo == min_of_mins(base + ranges_in(runv.take(l as int), name@)) && hi
                    == max_of_maxes(base + ranges_in(runv.take(l as int), name@)),
            decreases run.len() - l,
        {
            let ghost seen = base + ranges_in(runv.take(l as int), name@);
            assert(runv.take(l + 1).drop_last() =~= runv.take(l as int));
            assert(runv.take(l + 1).last() == (run@[l as int].0@, run@[l as int].1));
            let (a, b) = run[l].1;
            if str_eq(run[l].0.as_str(), name.as_str()) {
                assert(base + ranges_in(runv.take(l + 1), name@) =~= seen.push((a, b)));
                if !found {
                    assert(seen.len() == 0);
                    assert(seen.push((a, b)) =~= seq![(a, b)]);
                    lo = a;
                    hi = b;
                    found = true;
                } else {
                    assert(seen.push((a, b)).drop_last() =~= seen);
                    if a < lo {
                        lo = a;
                    }
                    if b > hi {
                        hi = b;
                    }
                }
            } else {
                assert(base + ranges_in(runv.take(l + 1), name@) =~= seen);
            }
            l = l + 1;
        }
        assert(runv.take(run@.len() as int) =~= runv);
        proof {
            lemma_ranges_named_step(rv, k as int, name@);
        }
        k = k + 1;
    }
    assert(rv.take(runs@.len() as int) =~= rv);
    (lo, hi)
}

proof fn lemma_ranges_named_step(rv: RunRanges, k: int, name: Seq<char>)
    requires
        0 <= k < rv.len(),
    ensures
        ranges_named(rv.take(k + 1), name) == ranges_named(rv.take(k), name) + ranges_in(
            rv[k],
            name,
        ),
{
    assert(rv.take(k + 1).drop_last() =~= rv.take(k));
    assert(rv.take(k + 1).last() == rv[k]);
}

/// The value range of every metric of every run, made common to all runs: for each run and
/// each of its metrics, the combined range of that metric's name across all runs.
pub fn combined_value_ranges(runs: &Vec<Vec<(String, (u64, u64))>>) -> (r: Vec<Vec<(u64, u64)>>)
    ensures
        r@.len() == runs@.len(),
        forall|i: int|
            0 <= i < runs@.len() ==> (#[trigger] r@[i])@.len() == runs@[i]@.len() && forall|j: int|
                0 <= j < runs@[i]@.len() ==> (#[trigger] r@[i]@[j]) == combined_range(
                    run_ranges_view(runs@),
                    runs@[i]@[j].0@,
                ),
{
    let ghost rv = run_ranges_view(runs@);
    let mut out: Vec<Vec<(u64, u64)>> = Vec::new();
    let mut i: usize = 0;
    while i < runs.len()
        invariant
            rv == run_ranges_view(runs@),
            0 <= i <= runs@.len(),
            out@.len() == i,
            forall|a: int|
                0 <= a < i ==> (#[trigger] out@[a])@.len() == runs@[a]@.len() && forall|j: int|
                    0 <= j < runs@[a]@.len() ==> (#[trigger] out@[a]@[j]) == combined_range(
                        rv,
                        runs@[a]@[j].0@,
                    ),
        decreases runs.len() - i,
    {
        let run = &runs[i];
        let mut cur: Vec<(u64, u64)> = Vec::new();
        let mut j: usize = 0;
        while j < run.len()
            invariant
                rv == run_ranges_view(runs@),
                0 <= i < runs@.len(),
                run@ == runs@[i as int]@,
                0 <= j <= run@.len(),
                cur@.len() == j,
                forall|b: int|
                    0 <= b < j ==> (#[trigger] cur@[b]) == combined_range(rv, run@[b].0@),
            decreases run.len() - j,
        {
            proof {
                assert(rv[i as int] == run@.map_values(|e: (String, (u64, u64))| (e.0@, e.1)));
                assert(rv[i as int][j as int] == (run@[j as int].0@, run@[j as int].1));
                lemma_ranges_named_contains(rv, i as int, j as int);
            }
            let c = combine_named(runs, &run[j].0);
            cur.push(c);
            j = j + 1;
        }
        out.push(cur);
        i = i + 1;
    }
    out
}

/// Every run's range of a metric lies within the combined range of that metric, and the
/// combined range is the same for every run that has the metric: the graphs of a metric in
/// all runs share one y-axis that shows all of their values.
pub proof fn lemma_combined_range_covers(runs: RunRanges, i: int, j: int)
    requires
        0 <= i < runs.len(),
        0 <= j < runs[i].len(),
    ensures
        combined_range(runs, runs[i][j].0).0 <= runs[i][j].1.0,
        runs[i][j].1.1 <= combined_range(runs, runs[i][j].0).1,
{
    let name = runs[i][j].0;
    let rs = ranges_named(runs, name);
    lemma_ranges_named_contains(runs, i, j);
    lemma_combined_range_bounds(rs);
    let k = choose|k: int| 0 <= k < rs.len() && rs[k] == runs[i][j].1;
    assert(min_of_mins(rs) <= rs[k].0 && rs[k].1 <= max_of_maxes(rs));
}

// ------------------------------------------------------------------------------------------
// The recording process's own metrics
// ------------------------------------------------------------------------------------------

/// The series of the recording process among the processes: its PID and "_aperf".
pub fn aperf_series_name(pid: u32) -> (r: String)
    ensures
        r@ == decimal(pid as nat) + "_aperf"@,
{
    let mut s = String::new();
    push_decimal(&mut s, pid as u64);
    push_str(&mut s, "_aperf");
    s
}

/// The name of a process metric among the statistics of the recording process.
pub fn aperf_process_metric_name(metric_name: &str) -> (r: String)
    ensures
        r@ == "process_"@ + metric_name@,
{
    let mut s = String::new();
    push_str(&mut s, "process_");
    push_str(&mut s, metric_name);
    s
}

/// Puts the recording process's metrics first, in their order, before the metrics already
/// listed.
pub fn put_metric_names_first(sorted_metric_names: &mut Vec<String>, first: Vec<String>)
    ensures
        final(sorted_metric_names)@ == first@ + old(sorted_metric_names)@,
{
    let mut insert_pos: usize = 0;
    let ghost start = sorted_metric_names@;
    while insert_pos < first.len()
        invariant
            0 <= insert_pos <= first@.len(),
            sorted_metric_names@ == first@.take(insert_pos as int) + start,
        decreases first.len() - insert_pos,
    {
        let name = first[insert_pos].clone();
        sorted_metric_names.insert(insert_pos, name);
        assert(sorted_metric_names@ =~= first@.take(insert_pos + 1) + start);
        insert_pos = insert_pos + 1;
    }
    assert(first@.take(first@.len() as int) =~= first@);
}

} // verus!

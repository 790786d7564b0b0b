//! The decisions of the time-series processor that do not depend on the data values: how
//! the aggregate series of a metric is produced and named, in which order metrics are
//! listed, and in which order the series of a metric are listed.
use crate::text::{push_str, str_eq, strs_view};
use vstd::prelude::*;

verus! {

/// How the aggregate series of every metric is computed.
#[derive(PartialEq, Eq, Debug, Clone, Copy, Structural)]
pub enum TimeSeriesDataAggregateMode {
    /// The average of all series at every timestamp.
    Average,
    /// The sum of all series at every timestamp.
    Sum,
    /// The series with the largest average, for series that cover a hierarchy.
    MaxSeries,
    /// An aggregate series added by the caller.
    Custom,
}

impl TimeSeriesDataAggregateMode {
    /// Whether the processor generates the aggregate series itself.
    pub fn is_auto_generated(&self) -> (r: bool)
        ensures
            r == (*self == TimeSeriesDataAggregateMode::Average || *self
                == TimeSeriesDataAggregateMode::Sum),
    {
        match self {
            TimeSeriesDataAggregateMode::Average | TimeSeriesDataAggregateMode::Sum => true,
            _ => false,
        }
    }
}

pub open spec fn default_aggregate_name(mode: TimeSeriesDataAggregateMode) -> Seq<char> {
    match mode {
        TimeSeriesDataAggregateMode::Average => "average"@,
        TimeSeriesDataAggregateMode::Sum => "sum"@,
        _ => "aggregate"@,
    }
}

/// The name of the generated aggregate series: the caller's name if one was set, else
/// "average" or "sum" after the mode.
pub fn aggregate_series_name(mode: TimeSeriesDataAggregateMode, name_override: Option<&str>) -> (r:
    String)
    ensures
        r@ == match name_override {
            Some(n) => n@,
            None => default_aggregate_name(mode),
        },
{
    let mut s = String::new();
    match name_override {
        Some(n) => push_str(&mut s, n),
        None => match mode {
            TimeSeriesDataAggregateMode::Average => push_str(&mut s, "average"),
            TimeSeriesDataAggregateMode::Sum => push_str(&mut s, "sum"),
            _ => push_str(&mut s, "aggregate"),
        },
    }
    s
}

/// The place of a metric name in an explicit order: the position of its first occurrence,
/// or the length of the order when it does not occur.
pub open spec fn order_key(order: Seq<Seq<char>>, name: Seq<char>) -> int
    decreases order.len(),
{
    if order.len() == 0 {
        0
    } else {
        let k = order_key(order.drop_last(), name);
        if k < order.len() - 1 {
            k
        } else if order.last() == name {
            order.len() - 1
        } else {
            order.len() as int
        }
    }
}

proof fn lemma_order_key(order: Seq<Seq<char>>, name: Seq<char>, k: int)
    requires
        0 <= k <= order.len(),
        forall|j: int| 0 <= j < k ==> order[j] != name,
        k == order.len() || order[k] == name,
    ensures
        order_key(order, name) == k,
    decreases order.len(),
{
    if order.len() > 0 {
        let t = order.drop_last();
        if k == order.len() {
            lemma_order_key(t, name, k - 1);
        } else {
            assert forall|j: int| 0 <= j < k implies t[j] != name by {
                assert(t[j] == order[j]);
            }
            if k < t.len() {
                assert(t[k] == order[k]);
                lemma_order_key(t, name, k);
            } else {
                lemma_order_key(t, name, k);
            }
        }
    }
}

/// The names whose key is below `k`, by key, and by their original position within a key:
/// a stable sort of the names by their place in the order.
pub open spec fn ordered_names(names: Seq<Seq<char>>, order: Seq<Seq<char>>, k: int) -> Seq<
    Seq<char>,
>
    decreases k,
{
    if k <= 0 {
        Seq::empty()
    } else {
        ordered_names(names, order, k - 1) + names.filter(|n: Seq<char>| order_key(order, n) == k - 1)
    }
}

/// Sorts metric names by their place in an explicit order; names outside the order come
/// last, and names with the same place keep their relative order.
pub fn order_metric_names(names: &Vec<String>, metric_name_order: &Vec<&str>) -> (r: Vec<String>)
    ensures
        r@.map_values(|s: String| s@) == ordered_names(
            names@.map_values(|s: String| s@),
            metric_name_order@.map_values(|s: &str| s@),
            metric_name_order@.len() + 1int,
        ),
{
    let ghost nv = names@.map_values(|s: String| s@);
    let ghost ov = metric_name_order@.map_values(|s: &str| s@);
    let mut keys: Vec<usize> = Vec::new();
    let mut i: usize = 0;
    while i < names.len()
        invariant
            nv == names@.map_values(|s: String| s@),
            ov == metric_name_order@.map_values(|s: &str| s@),
            0 <= i <= names@.len(),
            keys@.len() == i,
            forall|j: int| 0 <= j < i ==> #[trigger] keys@[j] as int == order_key(ov, nv[j]),
        decreases names.len() - i,
    {
        let mut k: usize = 0;
        while k < metric_name_order.len() && !str_eq(metric_name_order[k], names[i].as_str())
            invariant
                nv == names@.map_values(|s: String| s@),
                ov == metric_name_order@.map_values(|s: &str| s@),
                0 <= i < names@.len(),
                0 <= k <= metric_name_order@.len(),
                forall|j: int| 0 <= j < k ==> ov[j] != nv[i as int],
            decreases metric_name_order.len() - k,
        {
            k = k + 1;
        }
        proof {
            lemma_order_key(ov, nv[i as int], k as int);
        }
        keys.push(k);
        i = i + 1;
    }
    let mut out: Vec<String> = Vec::new();
    let mut k: usize = 0;
    let mut finished = false;
    while !finished
        invariant
            nv == names@.map_values(|s: String| s@),
            ov == metric_name_order@.map_values(|s: &str| s@),
            keys@.len() == names@.len(),
            forall|j: int| 0 <= j < keys@.len() ==> #[trigger] keys@[j] as int == order_key(ov, nv[j]),
            0 <= k <= metric_name_order@.len(),
            !finished ==> out@.map_values(|s: String| s@) == ordered_names(nv, ov, k as int),
            finished ==> k == metric_name_order@.len() && out@.map_values(|s: String| s@)
                == ordered_names(nv, ov, k + 1),
        decreases metric_name_order.len() - k + (if finished {
            0int
        } else {
            1int
        }),
    {
        let ghost pred = |n: Seq<char>| order_key(ov, n) == k;
        let ghost base = out@.map_values(|s: String| s@);
        let mut j: usize = 0;
        assert(nv.take(0).filter(pred) =~= Seq::<Seq<char>>::empty());
        assert(base + nv.take(0).filter(pred) =~= base);
        while j < names.len()
            invariant
                nv == names@.map_values(|s: String| s@),
                keys@.len() == names@.len(),
                forall|x: int| 0 <= x < keys@.len() ==> #[trigger] keys@[x] as int == order_key(ov, nv[x]),
                pred == (|n: Seq<char>| order_key(ov, n) == k),
                0 <= j <= names@.len(),
                out@.map_values(|s: String| s@) == base + nv.take(j as int).filter(pred),
            decreases names.len() - j,
        {
            assert(nv.take(j + 1).drop_last() =~= nv.take(j as int));
            reveal_with_fuel(Seq::filter, 1);
            let ghost before = out@.map_values(|s: String| s@);
            if keys[j] == k {
                out.push(names[j].clone());
                assert(out@.map_values(|s: String| s@) =~= before.push(nv[j as int]));
            } else {
                assert(out@.map_values(|s: String| s@) =~= before);
            }
            j = j + 1;
        }
        assert(nv.take(names@.len() as int) =~= nv);
        if k == metric_name_order.len() {
            finished = true;
        } else {
            k = k + 1;
        }
    }
    out
}

// ------------------------------------------------------------------------------------------
// Order of the series of a metric
// ------------------------------------------------------------------------------------------

/// The result of `numeric_sort::cmp` on two names, as -1 (less), 0 (equal) or 1 (greater).
pub uninterp spec fn numeric_order(a: Seq<char>, b: Seq<char>) -> int;

/// `numeric_sort::cmp`: compares two names segment by segment, numbers by their value and
/// other text by its characters. The result is stated as `numeric_order` of the two names,
/// and, as the comparison is an order (the `Ord` of its segments taken lexicographically),
/// swapping the names negates it and "not greater" is transitive through either name.
#[verifier::external_body]
fn numeric_compare(a: &str, b: &str) -> (r: i8)
    ensures
        numeric_order(a@, b@) == r,
        -1 <= r <= 1,
        numeric_order(b@, a@) == -r,
        forall|c: Seq<char>| #![trigger numeric_order(c, b@)]
            numeric_order(c, a@) <= 0 && r <= 0 ==> numeric_order(c, b@) <= 0,
        forall|c: Seq<char>| #![trigger numeric_order(a@, c)]
            r <= 0 && numeric_order(b@, c) <= 0 ==> numeric_order(a@, c) <= 0,
{
    match numeric_sort::cmp(a, b) {
        std::cmp::Ordering::Less => -1,
        std::cmp::Ordering::Equal => 0,
        std::cmp::Ordering::Greater => 1,
    }
}

/// `order` lists the indices of `names` once each, the names in numeric order
/// (`numeric_order`), names that compare equal in the order they are given.
pub open spec fn is_numeric_name_order(names: Seq<Seq<char>>, order: Seq<usize>) -> bool {
    &&& order.len() == names.len()
    &&& forall|i: int| 0 <= i < order.len() ==> (#[trigger] order[i]) < names.len()
    &&& forall|i: int, j: int| 0 <= i < j < order.len() ==> #[trigger] order[i] != #[trigger] order[j]
    &&& forall|i: int, j: int|
        0 <= i < j < order.len() ==> numeric_order(names[#[trigger] order[i] as int], names[#[trigger] order[j] as int]) <= 0
    &&& forall|i: int, j: int|
        0 <= i < j < order.len() && numeric_order(names[#[trigger] order[i] as int], names[#[trigger] order[j] as int]) == 0
            ==> order[i] < order[j]
}

/// The order in which the series of a metric are listed: by name, numbers in names compared
/// by value ("cpu2" before "cpu10"), series with names that compare equal in the order
/// given.
pub fn numeric_name_order(names: &Vec<String>) -> (r: Vec<usize>)
    ensures
        is_numeric_name_order(strs_view(names@), r@),
{
    let ghost nv = strs_view(names@);
    let mut order: Vec<usize> = Vec::new();
    let mut i: usize = 0;
    while i < names.len()
        invariant
            nv == strs_view(names@),
            nv.len() == names@.len(),
            i <= names@.len(),
            order@.len() == i,
            forall|a: int| 0 <= a < order@.len() ==> (#[trigger] order@[a]) < i,
            forall|a: int, b: int| 0 <= a < b < order@.len() ==> #[trigger] order@[a] != #[trigger] order@[b],
            forall|a: int, b: int|
                0 <= a < b < order@.len() ==> numeric_order(nv[#[trigger] order@[a] as int], nv[#[trigger] order@[b] as int]) <= 0,
            forall|a: int, b: int|
                0 <= a < b < order@.len() && numeric_order(nv[#[trigger] order@[a] as int], nv[#[trigger] order@[b] as int]) == 0
                    ==> order@[a] < order@[b],
        decreases names.len() - i,
    {
        let ghost x = nv[i as int];
        assert(names@[i as int]@ == x);
        let mut k = order.len();
        while k > 0 && numeric_compare(names[order[k - 1]].as_str(), names[i].as_str()) > 0
            invariant
                nv == strs_view(names@),
                nv.len() == names@.len(),
                i < names@.len(),
                x == nv[i as int],
                k <= order@.len(),
                forall|a: int| 0 <= a < order@.len() ==> (#[trigger] order@[a]) < i,
                forall|q: int| k <= q < order@.len() ==> numeric_order(nv[#[trigger] order@[q] as int], x) == 1
                    && numeric_order(x, nv[order@[q] as int]) == -1,
            decreases k,
        {
            assert(names@[order@[k - 1] as int]@ == nv[order@[k - 1] as int]);
            k = k - 1;
        }
        proof {
            if k > 0 {
                assert(names@[order@[k - 1] as int]@ == nv[order@[k - 1] as int]);
            }
        }
        let ghost before = order@;
        order.insert(k, i);
        proof {
            assert forall|a: int| 0 <= a < order@.len() implies #[trigger] order@[a] == (if a < k {
                before[a]
            } else if a == k {
                i
            } else {
                before[a - 1]
            }) by {}
            assert forall|a: int, b: int| 0 <= a < b < order@.len() implies numeric_order(
                nv[#[trigger] order@[a] as int],
                nv[#[trigger] order@[b] as int],
            ) <= 0 by {
                if b < k {
                    assert(numeric_order(nv[before[a] as int], nv[before[b] as int]) <= 0);
                } else if b == k {
                    if a < k - 1 {
                        assert(numeric_order(nv[before[a] as int], nv[before[k - 1] as int]) <= 0);
                    }
                } else if a == k {
                    assert(numeric_order(x, nv[before[b - 1] as int]) == -1);
                } else if a < k {
                    assert(numeric_order(nv[before[a] as int], nv[before[b - 1] as int]) <= 0);
                } else {
                    assert(numeric_order(nv[before[a - 1] as int], nv[before[b - 1] as int]) <= 0);
                }
            }
            assert forall|a: int, b: int|
                0 <= a < b < order@.len() && numeric_order(nv[#[trigger] order@[a] as int], nv[#[trigger] order@[b] as int])
                    == 0 implies order@[a] < order@[b] by {
                if b < k {
                } else if b == k {
                } else if a == k {
                    assert(numeric_order(x, nv[before[b - 1] as int]) == -1);
                } else if a < k {
                } else {
                }
            }
        }
        i = i + 1;
    }
    order
}

} // verus!

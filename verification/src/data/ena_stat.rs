//! ENA statistics: which network interfaces are read, and how the per-queue counters of an
//! interface become one metric with a series per queue.
use crate::text::{all_digits, chars_of, decimal, index_of_char, is_digit, lemma_decimal_digits, lemma_index_of_char, lemma_index_of_char_at, lemma_parse_decimal, find_char, parse_unsigned, parse_unsigned_range, push_range, push_str, range_eq, range_starts_with, string_of};
use vstd::prelude::*;

verus! {

/// The data type of ENA statistics.
#[derive(Debug, Clone)]
pub struct EnaStat;

impl EnaStat {
    pub fn new() -> Self {
        EnaStat
    }
}

/// The interfaces that are passed over without looking further: the loopback and the
/// common virtual interfaces.
pub open spec fn is_skipped_interface(name: Seq<char>) -> bool {
    ||| name == "lo"@
    ||| "docker"@.is_prefix_of(name)
    ||| "veth"@.is_prefix_of(name)
    ||| "br-"@.is_prefix_of(name)
    ||| "virbr"@.is_prefix_of(name)
}

/// Whether an interface is the loopback or a common virtual interface.
pub fn skip_interface(name: &str) -> (r: bool)
    ensures
        r == is_skipped_interface(name@),
{
    let v = chars_of(name);
    assert(v@.subrange(0, v@.len() as int) =~= v@);
    let n = v.len();
    range_eq(&v, 0, n, &chars_of("lo")) || range_starts_with(&v, 0, n, &chars_of("docker"))
        || range_starts_with(&v, 0, n, &chars_of("veth")) || range_starts_with(
        &v,
        0,
        n,
        &chars_of("br-"),
    ) || range_starts_with(&v, 0, n, &chars_of("virbr"))
}

/// The positions of the first and the second '_' of a name, if it has two.
pub open spec fn two_underscores(name: Seq<char>) -> Option<(int, int)> {
    let i = index_of_char(name, '_');
    if i < 0 {
        None
    } else {
        let k = index_of_char(name.subrange(i + 1, name.len() as int), '_');
        if k < 0 {
            None
        } else {
            Some((i, i + 1 + k))
        }
    }
}

/// The metric and series under which an ENA counter is shown. A per-queue counter
/// "queue_<n>_<rest>" (with <n> a `u64`) becomes the metric <rest> with the series
/// "<interface>_queue_<n>"; any other counter keeps its name, with the interface as the
/// series.
pub open spec fn ena_metric_series(metric: Seq<char>, interface: Seq<char>) -> (Seq<char>, Seq<char>) {
    match two_underscores(metric) {
        Some((i, j)) => if metric.subrange(0, i) == "queue"@ && parse_unsigned(
            metric.subrange(i + 1, j),
            u64::MAX as nat,
        ) is Some {
            (
                metric.subrange(j + 1, metric.len() as int),
                interface + "_queue_"@ + metric.subrange(i + 1, j),
            )
        } else {
            (metric, interface)
        },
        None => (metric, interface),
    }
}

/// A per-queue counter "queue_<n>_<rest>" of an interface becomes the metric <rest> with the
/// series "<interface>_queue_<n>", so that the counters of the queues of one kind share a
/// metric; a counter whose name does not start with "queue_" keeps its name, with the
/// interface as the series.
pub proof fn lemma_ena_queue_counters(n: nat, rest: Seq<char>, metric: Seq<char>, interface: Seq<char>)
    requires
        n <= u64::MAX,
    ensures
        ena_metric_series("queue_"@ + decimal(n) + "_"@ + rest, interface) == (
            rest,
            interface + "_queue_"@ + decimal(n),
        ),
        !"queue_"@.is_prefix_of(metric) ==> ena_metric_series(metric, interface) == (metric, interface),
{
    reveal_strlit("queue_");
    reveal_strlit("queue");
    reveal_strlit("_");
    let d = decimal(n);
    lemma_decimal_digits(n);
    lemma_parse_decimal(n, u64::MAX as nat);
    let m = "queue_"@ + d + "_"@ + rest;
    assert(m[5] == '_');
    lemma_index_of_char_at(m, '_', 5);
    let sub = m.subrange(6, m.len() as int);
    assert(sub[d.len() as int] == '_');
    assert forall|j: int| 0 <= j < sub.len() && j < d.len() implies sub[j] != '_' by {
        assert(sub[j] == d[j]);
        assert(is_digit(d[j]));
    }
    lemma_index_of_char_at(sub, '_', d.len() as int);
    let k: int = 6 + d.len() as int;
    assert(two_underscores(m) == Some((5int, k)));
    assert(m.subrange(0, 5) =~= "queue"@);
    assert(m.subrange(6, k) =~= d);
    assert(m.subrange(k + 1, m.len() as int) =~= rest);
    if !"queue_"@.is_prefix_of(metric) {
        match two_underscores(metric) {
            Some((i, j)) => {
                lemma_index_of_char(metric, '_');
                if metric.subrange(0, i) == "queue"@ {
                    assert(i == 5);
                    assert(metric[5] == '_');
                    assert(metric.subrange(0, 6) =~= "queue_"@) by {
                        assert(metric.subrange(0, 5)[0] == metric[0]);
                        assert(metric.subrange(0, 5)[1] == metric[1]);
                        assert(metric.subrange(0, 5)[2] == metric[2]);
                        assert(metric.subrange(0, 5)[3] == metric[3]);
                        assert(metric.subrange(0, 5)[4] == metric[4]);
                    }
                    assert("queue_"@.is_prefix_of(metric));
                }
            },
            None => {},
        }
    }
}

/// The metric name and series name of an ENA counter of an interface.
pub fn ena_metric_and_series(metric_name: &str, interface: &str) -> (r: (String, String))
    ensures
        (r.0@, r.1@) == ena_metric_series(metric_name@, interface@),
{
    let v = chars_of(metric_name);
    let n = v.len();
    assert(v@.subrange(0, n as int) =~= v@);
    proof {
        lemma_index_of_char(metric_name@, '_');
    }
    let keep = (string_of(&v, 0, n), {
        let mut s = String::new();
        push_str(&mut s, interface);
        s
    });
    let i = match find_char(&v, 0, n, '_') {
        Some(i) => i,
        None => {
            return keep;
        },
    };
    let j = match find_char(&v, i + 1, n, '_') {
        Some(j) => j,
        None => {
            return keep;
        },
    };
    assert(v@.subrange(0, i as int) == metric_name@.subrange(0, i as int));
    if !range_eq(&v, 0, i, &chars_of("queue")) {
        return keep;
    }
    if parse_unsigned_range(&v, i + 1, j, u64::MAX).is_none() {
        return keep;
    }
    let metric = string_of(&v, j + 1, n);
    let mut series = String::new();
    push_str(&mut series, interface);
    push_str(&mut series, "_queue_");
    push_range(&mut series, &v, i + 1, j);
    (metric, series)
}

} // verus!

//! Virtual memory statistics: the lines of /proc/vmstat, and which of its counters are
//! levels and which accumulate.
use crate::text::{chars_of, decimal, is_digit, lemma_decimal_digits, lemma_parse_decimal, parse_unsigned, parse_unsigned_range, str_eq, str_starts_with, words, words_of};
use vstd::prelude::*;

verus! {

/// The data type of virtual memory statistics.
#[derive(Debug, Clone)]
pub struct Vmstat;

impl Vmstat {
    pub fn new() -> Self {
        Vmstat
    }
}

/// The "nr_" counters of /proc/vmstat that accumulate, unlike the other "nr_" counters,
/// which are levels.
pub open spec fn cumulative_nr_metrics() -> Seq<Seq<char>> {
    seq![
        "nr_dirtied"@,
        "nr_foll_pin_acquired"@,
        "nr_foll_pin_released"@,
        "nr_throttled_written"@,
        "nr_tlb_local_flush_all"@,
        "nr_tlb_local_flush_one"@,
        "nr_tlb_remote_flush"@,
        "nr_tlb_remote_flush_received"@,
        "nr_vmscan_immediate_reclaim"@,
        "nr_vmscan_write"@,
        "nr_written"@,
    ]
}

/// A level, as opposed to an accumulating counter: a "nr_" counter that is not among the
/// cumulative ones.
pub open spec fn is_level_metric(name: Seq<char>) -> bool {
    "nr_"@.is_prefix_of(name) && !cumulative_nr_metrics().contains(name)
}

/// The accumulating "nr_" counters of /proc/vmstat (nr_dirtied, nr_written and the others
/// listed) are never levels: their differences are shown. Any other counter is a level
/// exactly when its name starts with "nr_".
pub proof fn lemma_cumulative_counters_not_levels(name: Seq<char>)
    ensures
        !is_level_metric("nr_dirtied"@),
        !is_level_metric("nr_foll_pin_acquired"@),
        !is_level_metric("nr_foll_pin_released"@),
        !is_level_metric("nr_throttled_written"@),
        !is_level_metric("nr_tlb_local_flush_all"@),
        !is_level_metric("nr_tlb_local_flush_one"@),
        !is_level_metric("nr_tlb_remote_flush"@),
        !is_level_metric("nr_tlb_remote_flush_received"@),
        !is_level_metric("nr_vmscan_immediate_reclaim"@),
        !is_level_metric("nr_vmscan_write"@),
        !is_level_metric("nr_written"@),
        forall|i: int| 0 <= i < 11 ==> !is_level_metric(#[trigger] cumulative_nr_metrics()[i]),
        (forall|i: int| 0 <= i < 11 ==> cumulative_nr_metrics()[i] != name) ==> (is_level_metric(
            name,
        ) <==> "nr_"@.is_prefix_of(name)),
{
    let l = cumulative_nr_metrics();
    assert(l.len() == 11);
    assert(l[0] == "nr_dirtied"@);
    assert(l[1] == "nr_foll_pin_acquired"@);
    assert(l[2] == "nr_foll_pin_released"@);
    assert(l[3] == "nr_throttled_written"@);
    assert(l[4] == "nr_tlb_local_flush_all"@);
    assert(l[5] == "nr_tlb_local_flush_one"@);
    assert(l[6] == "nr_tlb_remote_flush"@);
    assert(l[7] == "nr_tlb_remote_flush_received"@);
    assert(l[8] == "nr_vmscan_immediate_reclaim"@);
    assert(l[9] == "nr_vmscan_write"@);
    assert(l[10] == "nr_written"@);
    assert forall|i: int| 0 <= i < 11 implies !is_level_metric(#[trigger] cumulative_nr_metrics()[i]) by {
        assert(l.contains(l[i]));
    }
    if forall|i: int| 0 <= i < 11 ==> cumulative_nr_metrics()[i] != name {
        assert(!l.contains(name));
    }
}

/// Whether a counter of /proc/vmstat is a level (its values are shown as they are) rather
/// than an accumulating counter (whose differences are shown).
pub fn is_level_vmstat_metric(name: &str) -> (r: bool)
    ensures
        r == is_level_metric(name@),
{
    if !str_starts_with(name, "nr_") {
        return false;
    }
    let list = [
        "nr_dirtied",
        "nr_foll_pin_acquired",
        "nr_foll_pin_released",
        "nr_throttled_written",
        "nr_tlb_local_flush_all",
        "nr_tlb_local_flush_one",
        "nr_tlb_remote_flush",
        "nr_tlb_remote_flush_received",
        "nr_vmscan_immediate_reclaim",
        "nr_vmscan_write",
        "nr_written",
    ];
    assert(list@.map_values(|s: &str| s@) =~= cumulative_nr_metrics());
    let mut i: usize = 0;
    while i < 11
        invariant
            0 <= i <= 11,
            list@.map_values(|s: &str| s@) == cumulative_nr_metrics(),
            forall|j: int| 0 <= j < i ==> cumulative_nr_metrics()[j] != name@,
        decreases 11 - i,
    {
        assert(list@.map_values(|s: &str| s@)[i as int] == list@[i as int]@);
        if str_eq(list[i], name) {
            assert(cumulative_nr_metrics()[i as int] == name@);
            return false;
        }
        i = i + 1;
    }
    true
}

/// `i64::from_str`: an optional sign, then one or more ASCII digits, within the range of
/// `i64`.
pub open spec fn parse_i64(s: Seq<char>) -> Option<int> {
    if s.len() > 0 && s[0] == '-' {
        match parse_unsigned(s.drop_first(), 0x8000_0000_0000_0000) {
            Some(n) => if s.drop_first().len() > 0 && s.drop_first()[0] == '+' {
                None
            } else {
                Some(-n)
            },
            None => None,
        }
    } else {
        match parse_unsigned(s, i64::MAX as nat) {
            Some(n) => Some(n as int),
            None => None,
        }
    }
}

/// The counter of a line of /proc/vmstat, "<name> <value>": `None` without two words or
/// when the value is not an `i64`.
pub open spec fn vmstat_line(line: Seq<char>) -> Option<(Seq<char>, int)> {
    let w = words(line);
    if w.len() < 2 {
        None
    } else {
        match parse_i64(w[1]) {
            Some(v) => Some((w[0], v)),
            None => None,
        }
    }
}

/// A counter of /proc/vmstat is read as the signed number it is written as: "<n>" is `n` and
/// "-<n>" is `-n`, within the range of `i64`.
pub proof fn lemma_parse_i64_decimal(n: nat)
    ensures
        n <= i64::MAX ==> parse_i64(decimal(n)) == Some(n as int),
        n <= 0x8000_0000_0000_0000 ==> parse_i64(seq!['-'] + decimal(n)) == Some(-(n as int)),
{
    lemma_decimal_digits(n);
    if n <= i64::MAX {
        lemma_parse_decimal(n, i64::MAX as nat);
        assert(is_digit(decimal(n)[0]));
    }
    if n <= 0x8000_0000_0000_0000 {
        let s = seq!['-'] + decimal(n);
        assert(s.drop_first() =~= decimal(n));
        lemma_parse_decimal(n, 0x8000_0000_0000_0000);
        assert(is_digit(decimal(n)[0]));
    }
}

/// Reads one line of /proc/vmstat.
pub fn parse_vmstat_line(line: &str) -> (r: Option<(String, i64)>)
    ensures
        match r {
            Some((name, v)) => vmstat_line(line@) == Some((name@, v as int)),
            None => vmstat_line(line@) is None,
        },
{
    let w = words_of(line);
    let ghost wv = words(line@);
    if w.len() < 2 {
        return None;
    }
    assert(w@[0]@ == wv[0] && w@[1]@ == wv[1]);
    let v = chars_of(w[1].as_str());
    let n = v.len();
    assert(v@.subrange(0, n as int) =~= v@);
    if n > 0 && v[0] == '-' {
        assert(v@.subrange(1, n as int) =~= wv[1].drop_first());
        if n > 1 && v[1] == '+' {
            return None;
        }
        match parse_unsigned_range(&v, 1, n, 0x8000_0000_0000_0000) {
            Some(x) => {
                let value: i64 = if x == 0x8000_0000_0000_0000 {
                    i64::MIN
                } else {
                    -(x as i64)
                };
                Some((w[0].clone(), value))
            },
            None => None,
        }
    } else {
        match parse_unsigned_range(&v, 0, n, i64::MAX as u64) {
            Some(x) => Some((w[0].clone(), x as i64)),
            None => None,
        }
    }
}

} // verus!

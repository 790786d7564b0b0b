//! NUMA statistics, read in the common raw format: the order in which their metrics are
//! shown.
use vstd::prelude::*;

verus! {

/// The data type of NUMA statistics.
#[derive(Debug, Clone)]
pub struct Numastat;

impl Numastat {
    pub fn new() -> Self {
        Numastat
    }
}

/// The metrics of NUMA statistics in the order numastat shows them.
pub open spec fn numastat_order() -> Seq<Seq<char>> {
    seq!["numa_hit"@, "numa_miss"@, "numa_foreign"@, "interleave_hit"@, "local_node"@, "other_node"@]
}

/// The metrics of NUMA statistics in the order numastat shows them, which the report
/// follows.
pub fn numastat_metric_order() -> (r: Vec<&'static str>)
    ensures
        r@.map_values(|s: &str| s@) == numastat_order(),
{
    let r = vec!["numa_hit", "numa_miss", "numa_foreign", "interleave_hit", "local_node", "other_node"];
    assert(r@.map_values(|s: &str| s@) =~= numastat_order());
    r
}

} // verus!

//! EFA statistics: which counters count work requests or their bytes, and the name of the
//! average bytes per work request derived from them, and the name of a port's counters.
use crate::text::{chars_of, push_str, range_ends_with, range_eq, string_of};
use vstd::prelude::*;

verus! {

/// The data type of EFA statistics.
#[derive(Debug, Clone)]
pub struct EfaStat;

impl EfaStat {
    pub fn new() -> Self {
        EfaStat
    }
}

/// The kinds of work request whose bytes per request are computed.
pub open spec fn is_known_work_request(t: Seq<char>) -> bool {
    t == "send"@ || t == "recv"@ || t == "rdma_write"@ || t == "rdma_read"@
}

/// The work request type that an EFA counter speaks of, and whether it counts bytes (rather
/// than requests). A name ending in "wrs" names its requests by the text before "_wrs" (the
/// empty text if it does not end in "_wrs"); one ending in "_bytes" names their bytes by the
/// text before "_bytes". Only the known types count.
pub open spec fn efa_work_request(name: Seq<char>) -> Option<(Seq<char>, bool)> {
    let (t, bytes) = if "wrs"@.is_suffix_of(name) {
        (
            if "_wrs"@.is_suffix_of(name) {
                name.subrange(0, name.len() - 4)
            } else {
                Seq::<char>::empty()
            },
            false,
        )
    } else if "_bytes"@.is_suffix_of(name) {
        (name.subrange(0, name.len() - 6), true)
    } else {
        (Seq::<char>::empty(), false)
    };
    if is_known_work_request(t) {
        Some((t, bytes))
    } else {
        None
    }
}

/// The counters of a work request type are "<type>_wrs" (its requests) and "<type>_bytes"
/// (their bytes): each such name of a known type is recognized as that type, counting
/// requests or bytes, a name of an unknown type is not, and every recognized name is one of
/// these two names of a known type.
pub proof fn lemma_efa_work_request_names(t: Seq<char>, name: Seq<char>)
    ensures
        efa_work_request(t + "_wrs"@) == (if is_known_work_request(t) {
            Some((t, false))
        } else {
            None
        }),
        efa_work_request(t + "_bytes"@) == (if is_known_work_request(t) {
            Some((t, true))
        } else {
            None
        }),
        efa_work_request(name) matches Some((u, b)) ==> is_known_work_request(u) && name == u + (if b {
            "_bytes"@
        } else {
            "_wrs"@
        }),
{
    reveal_strlit("wrs");
    reveal_strlit("_wrs");
    reveal_strlit("_bytes");
    let a = t + "_wrs"@;
    assert("wrs"@ =~= a.subrange(a.len() - 3, a.len() as int));
    assert("_wrs"@ =~= a.subrange(a.len() - 4, a.len() as int));
    assert(a.subrange(0, a.len() - 4) =~= t);
    let b = t + "_bytes"@;
    assert(b[b.len() - 2] == 'e');
    assert("wrs"@[1] == 'r');
    assert(!"wrs"@.is_suffix_of(b)) by {
        if "wrs"@.is_suffix_of(b) {
            assert(b.subrange(b.len() - 3, b.len() as int) =~= "wrs"@);
            assert(b.subrange(b.len() - 3, b.len() as int)[1] == b[b.len() - 2]);
        }
    }
    assert("_bytes"@ =~= b.subrange(b.len() - 6, b.len() as int));
    assert(b.subrange(0, b.len() - 6) =~= t);
    match efa_work_request(name) {
        Some((u, bytes)) => {
            if "wrs"@.is_suffix_of(name) {
                if "_wrs"@.is_suffix_of(name) {
                    assert(name =~= name.subrange(0, name.len() - 4) + "_wrs"@);
                } else {
                    reveal_strlit("send");
                    reveal_strlit("recv");
                    reveal_strlit("rdma_write");
                    reveal_strlit("rdma_read");
                    assert(u.len() == 0);
                }
            } else if "_bytes"@.is_suffix_of(name) {
                assert(name =~= name.subrange(0, name.len() - 6) + "_bytes"@);
            } else {
                reveal_strlit("send");
                reveal_strlit("recv");
                reveal_strlit("rdma_write");
                reveal_strlit("rdma_read");
                assert(u.len() == 0);
            }
        },
        None => {},
    }
}

/// The work request type of an EFA counter and whether it counts bytes, if it is a counter
/// of a known work request type.
pub fn efa_work_request_of(metric_name: &str) -> (r: Option<(String, bool)>)
    ensures
        match r {
            Some((t, b)) => efa_work_request(metric_name@) == Some((t@, b)),
            None => efa_work_request(metric_name@) is None,
        },
{
    let v = chars_of(metric_name);
    let n = v.len();
    assert(v@.subrange(0, n as int) =~= v@);
    proof {
        reveal_strlit("_wrs");
        reveal_strlit("_bytes");
    }
    let (lo, hi, bytes): (usize, usize, bool) = if range_ends_with(&v, 0, n, &chars_of("wrs")) {
        if range_ends_with(&v, 0, n, &chars_of("_wrs")) {
            (0, n - 4, false)
        } else {
            (0, 0, false)
        }
    } else if range_ends_with(&v, 0, n, &chars_of("_bytes")) {
        (0, n - 6, true)
    } else {
        (0, 0, false)
    };
    assert(v@.subrange(0, 0) =~= Seq::<char>::empty());
    if range_eq(&v, lo, hi, &chars_of("send")) || range_eq(&v, lo, hi, &chars_of("recv"))
        || range_eq(&v, lo, hi, &chars_of("rdma_write")) || range_eq(
        &v,
        lo,
        hi,
        &chars_of("rdma_read"),
    ) {
        Some((string_of(&v, lo, hi), bytes))
    } else {
        None
    }
}

/// The metric of the average bytes per work request of a type.
pub fn avg_bytes_per_wr_metric_name(wr_type: &str) -> (r: String)
    ensures
        r@ == "avg_bytes_per_"@ + wr_type@ + "_wr"@,
{
    let mut s = String::new();
    push_str(&mut s, "avg_bytes_per_");
    push_str(&mut s, wr_type);
    push_str(&mut s, "_wr");
    s
}

/// The name under which the counters of a port of an EFA device are kept: the device's
/// name, '/', and the port's.
pub fn efa_port_counters_name(hardware_name: &str, port: &str) -> (r: String)
    ensures
        r@ == hardware_name@ + "/"@ + port@,
{
    let mut s = String::new();
    push_str(&mut s, hardware_name);
    push_str(&mut s, "/");
    push_str(&mut s, port);
    s
}

} // verus!

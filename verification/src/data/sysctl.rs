//! Kernel parameters: which of them are recorded.
use crate::text::{chars_of, range_eq};
use vstd::prelude::*;

verus! {

/// Whether `p` occurs in `s`.
pub open spec fn contains_text(s: Seq<char>, p: Seq<char>) -> bool {
    exists|i: int| 0 <= i && i + p.len() <= s.len() && #[trigger] s.subrange(i, i + p.len()) == p
}

/// Whether `p` occurs in `s` (`str::contains`).
pub fn str_contains(s: &str, p: &str) -> (r: bool)
    ensures
        r == contains_text(s@, p@),
{
    let v = chars_of(s);
    let pv = chars_of(p);
    let mut i: usize = 0;
    while pv.len() <= v.len() - i
        invariant
            v@ == s@,
            pv@ == p@,
            i <= v@.len(),
            forall|j: int| 0 <= j < i ==> #[trigger] v@.subrange(j, j + pv@.len()) != pv@,
        decreases v.len() - i,
    {
        if range_eq(&v, i, i + pv.len(), &pv) {
            return true;
        }
        proof {
            if pv@.len() == 0 {
                assert(v@.subrange(i as int, i as int) =~= pv@);
            }
        }
        i = i + 1;
    }
    assert forall|j: int| 0 <= j && j + p@.len() <= s@.len() implies #[trigger] s@.subrange(j, j + p@.len())
        != p@ by {
        assert(j < i);
    }
    false
}

/// Whether a kernel parameter is recorded: those whose name holds "rss_key" are not.
pub fn can_collect(name: &str) -> (r: bool)
    ensures
        r == !contains_text(name@, "rss_key"@),
{
    !str_contains(name, "rss_key")
}

} // verus!

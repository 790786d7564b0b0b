//! Memory settings: the group under which each setting file is shown.
use crate::text::{chars_of, index_of_char, lemma_index_of_char, find_char, push_range, range_eq, range_starts_with};
use vstd::prelude::*;

verus! {

/// The data type of memory settings.
#[derive(Debug, Clone)]
pub struct MemSettings;

impl MemSettings {
    pub fn new() -> Self {
        MemSettings
    }
}

/// The group and key of a setting file: under /sys/kernel/mm/ the key is the path after
/// that directory, in group "THP" when its first component is "transparent_hugepage" and
/// "HugeTLB" when it is "hugepages" (else the empty group); any other path is its own key
/// in the empty group.
pub open spec fn setting_group_and_key(raw_key: Seq<char>) -> (Seq<char>, Seq<char>) {
    if "/sys/kernel/mm/"@.is_prefix_of(raw_key) {
        let key = raw_key.skip(15);
        let i = index_of_char(key, '/');
        let first = if i < 0 {
            key
        } else {
            key.subrange(0, i)
        };
        let group = if first == "transparent_hugepage"@ {
            "THP"@
        } else if first == "hugepages"@ {
            "HugeTLB"@
        } else {
            Seq::<char>::empty()
        };
        (group, key)
    } else {
        (Seq::<char>::empty(), raw_key)
    }
}

/// The group and key under which a setting file is shown.
pub fn group_and_key(raw_key: &str) -> (r: (String, String))
    ensures
        (r.0@, r.1@) == setting_group_and_key(raw_key@),
{
    let v = chars_of(raw_key);
    let n = v.len();
    assert(v@.subrange(0, n as int) =~= v@);
    proof {
        reveal_strlit("/sys/kernel/mm/");
    }
    if !range_starts_with(&v, 0, n, &chars_of("/sys/kernel/mm/")) {
        let mut key = String::new();
        push_range(&mut key, &v, 0, n);
        return (String::new(), key);
    }
    let ghost key_view = raw_key@.skip(15);
    assert(v@.subrange(15, n as int) =~= key_view);
    proof {
        lemma_index_of_char(key_view, '/');
    }
    let end = match find_char(&v, 15, n, '/') {
        Some(i) => i,
        None => n,
    };
    assert(v@.subrange(15, end as int) =~= (if index_of_char(key_view, '/') < 0 {
        key_view
    } else {
        key_view.subrange(0, index_of_char(key_view, '/'))
    }));
    let group = if range_eq(&v, 15, end, &chars_of("transparent_hugepage")) {
        let mut g = String::new();
        crate::text::push_str(&mut g, "THP");
        g
    } else if range_eq(&v, 15, end, &chars_of("hugepages")) {
        let mut g = String::new();
        crate::text::push_str(&mut g, "HugeTLB");
        g
    } else {
        String::new()
    };
    let mut key = String::new();
    push_range(&mut key, &v, 15, n);
    (group, key)
}

} // verus!

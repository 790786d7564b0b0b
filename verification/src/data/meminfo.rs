//! Memory information: the values of /proc/meminfo in bytes, in the order the file lists
//! them, and the expression of the derived metric of unused HugeTLB memory.
use crate::text::{
    chars_of, decimal, lines, lines_of, parse_unsigned, parse_unsigned_range, push_decimal,
    push_range, push_str, range_ends_with, range_starts_with, str_eq, strs_view, words,
    words_of,
};
use indexmap::IndexMap;
use vstd::prelude::*;

verus! {

/// The data type of memory information.
#[derive(Debug, Clone)]
pub struct MeminfoData;

impl MeminfoData {
    pub fn new() -> Self {
        MeminfoData
    }
}

/// The factor of a unit of /proc/meminfo: KiB, MiB and GiB (and their spellings) in bytes;
/// anything else counts as bytes.
pub open spec fn unit_factor(unit: Seq<char>) -> nat {
    if unit == "KiB"@ || unit == "kiB"@ || unit == "kB"@ || unit == "KB"@ {
        1024
    } else if unit == "MiB"@ || unit == "miB"@ || unit == "MB"@ || unit == "mB"@ {
        1024 * 1024
    } else if unit == "GiB"@ || unit == "giB"@ || unit == "GB"@ || unit == "gB"@ {
        1024 * 1024 * 1024
    } else {
        1
    }
}

/// The entry of one line of /proc/meminfo, "Name:  <value> [unit]": the name (the first
/// word without its last character, the colon) and the value times the unit's factor.
/// Lines with fewer than two words, or whose value is not a `u64`, have none.
pub open spec fn meminfo_line(line: Seq<char>) -> Option<(Seq<char>, nat)> {
    let w = words(line);
    if w.len() < 2 {
        None
    } else {
        match parse_unsigned(w[1], u64::MAX as nat) {
            None => None,
            Some(v) => Some(
                (
                    w[0].drop_last(),
                    v * unit_factor(
                        if w.len() > 2 {
                            w[2]
                        } else {
                            Seq::<char>::empty()
                        },
                    ),
                ),
            ),
        }
    }
}

/// The lines that are read without overflow: the value in bytes fits a `u64`, and the
/// first word ends with an ASCII character (the colon), which is dropped.
pub open spec fn meminfo_line_ok(line: Seq<char>) -> bool {
    &&& words(line).len() >= 2 ==> (words(line)[0].last() as u32) < 128
    &&& match meminfo_line(line) {
        Some((_, x)) => x <= u64::MAX,
        None => true,
    }
}

/// The position of key `k` among the entries, or -1.
pub open spec fn entry_index(m: Seq<(Seq<char>, u64)>, k: Seq<char>) -> int
    decreases m.len(),
{
    if m.len() == 0 {
        -1
    } else if m.last().0 == k {
        m.len() - 1
    } else {
        entry_index(m.drop_last(), k)
    }
}

/// The entries after inserting into an insertion-ordered map: an existing key keeps its
/// place and takes the new value; a new key comes last.
pub open spec fn ordered_insert(m: Seq<(Seq<char>, u64)>, k: Seq<char>, v: u64) -> Seq<(Seq<char>, u64)> {
    let i = entry_index(m, k);
    if i >= 0 {
        m.update(i, (k, v))
    } else {
        m.push((k, v))
    }
}

/// The entries of the lines of /proc/meminfo, in order of first appearance, each name with
/// its last value.
pub open spec fn meminfo_entries(ls: Seq<Seq<char>>) -> Seq<(Seq<char>, u64)>
    decreases ls.len(),
{
    if ls.len() == 0 {
        Seq::<(Seq<char>, u64)>::empty()
    } else {
        let m = meminfo_entries(ls.drop_last());
        match meminfo_line(ls.last()) {
            Some((name, x)) => ordered_insert(m, name, x as u64),
            None => m,
        }
    }
}

proof fn lemma_entry_index(m: Seq<(Seq<char>, u64)>, k: Seq<char>)
    ensures
        -1 <= entry_index(m, k) < m.len(),
        entry_index(m, k) >= 0 ==> m[entry_index(m, k)].0 == k,
        entry_index(m, k) < 0 ==> forall|j: int| 0 <= j < m.len() ==> (#[trigger] m[j]).0 != k,
        forall|j: int| entry_index(m, k) < j < m.len() ==> (#[trigger] m[j]).0 != k,
    decreases m.len(),
{
    if m.len() > 0 {
        lemma_entry_index(m.drop_last(), k);
        assert forall|j: int| 0 <= j < m.len() - 1 implies m.drop_last()[j] == m[j] by {}
    }
}

/// The units of /proc/meminfo scale by powers of 1024: a value in kB (KiB) is that many
/// times 1024 bytes, in MB (MiB) times 1024², in GB (GiB) times 1024³; a value without a
/// known unit is in bytes.
pub proof fn lemma_meminfo_units()
    ensures
        unit_factor("kB"@) == 1024,
        unit_factor("KiB"@) == 1024,
        unit_factor("MB"@) == 1048576,
        unit_factor("MiB"@) == 1048576,
        unit_factor("GB"@) == 1073741824,
        unit_factor("GiB"@) == 1073741824,
        unit_factor(Seq::<char>::empty()) == 1,
{
    reveal_strlit("kB");
    reveal_strlit("KiB");
    reveal_strlit("kiB");
    reveal_strlit("KB");
    reveal_strlit("MB");
    reveal_strlit("MiB");
    reveal_strlit("miB");
    reveal_strlit("mB");
    reveal_strlit("GB");
    reveal_strlit("GiB");
    reveal_strlit("giB");
    reveal_strlit("gB");
    assert("MB"@.len() != "KiB"@.len());
    assert("MB"@.len() != "kiB"@.len());
    assert("MB"@[0] != "kB"@[0]);
    assert("MB"@[0] != "KB"@[0]);
    assert("MiB"@[0] != "KiB"@[0]);
    assert("MiB"@[0] != "kiB"@[0]);
    assert("MiB"@.len() != "kB"@.len());
    assert("MiB"@.len() != "KB"@.len());
    assert("GB"@.len() != "KiB"@.len());
    assert("GB"@.len() != "kiB"@.len());
    assert("GB"@[0] != "kB"@[0]);
    assert("GB"@[0] != "KB"@[0]);
    assert("GB"@.len() != "MiB"@.len());
    assert("GB"@.len() != "miB"@.len());
    assert("GB"@[0] != "MB"@[0]);
    assert("GB"@[0] != "mB"@[0]);
    assert("GiB"@[0] != "KiB"@[0]);
    assert("GiB"@[0] != "kiB"@[0]);
    assert("GiB"@.len() != "kB"@.len());
    assert("GiB"@.len() != "KB"@.len());
    assert("GiB"@[0] != "MiB"@[0]);
    assert("GiB"@[0] != "miB"@[0]);
    assert("GiB"@.len() != "MB"@.len());
    assert("GiB"@.len() != "mB"@.len());
    assert(Seq::<char>::empty().len() != "KiB"@.len());
    assert(Seq::<char>::empty().len() != "kiB"@.len());
    assert(Seq::<char>::empty().len() != "kB"@.len());
    assert(Seq::<char>::empty().len() != "KB"@.len());
    assert(Seq::<char>::empty().len() != "MiB"@.len());
    assert(Seq::<char>::empty().len() != "miB"@.len());
    assert(Seq::<char>::empty().len() != "MB"@.len());
    assert(Seq::<char>::empty().len() != "mB"@.len());
    assert(Seq::<char>::empty().len() != "GiB"@.len());
    assert(Seq::<char>::empty().len() != "giB"@.len());
    assert(Seq::<char>::empty().len() != "GB"@.len());
    assert(Seq::<char>::empty().len() != "gB"@.len());
}

/// Every name that a line of /proc/meminfo gives is among the entries with the value of the
/// last line that gives it: a line's value is kept unless a later line names the same.
pub proof fn lemma_meminfo_last_value(ls: Seq<Seq<char>>, i: int)
    requires
        0 <= i < ls.len(),
        meminfo_line(ls[i]) is Some,
        forall|j: int|
            i < j < ls.len() ==> !(#[trigger] meminfo_line(ls[j]) matches Some((n, _)) && n
                == meminfo_line(ls[i]).unwrap().0),
    ensures
        exists|k: int|
            0 <= k < meminfo_entries(ls).len() && #[trigger] meminfo_entries(ls)[k] == (
                meminfo_line(ls[i]).unwrap().0,
                meminfo_line(ls[i]).unwrap().1 as u64,
            ),
    decreases ls.len(),
{
    let name = meminfo_line(ls[i]).unwrap().0;
    let x = meminfo_line(ls[i]).unwrap().1;
    let m = meminfo_entries(ls.drop_last());
    if i == ls.len() - 1 {
        lemma_entry_index(m, name);
        let idx = entry_index(m, name);
        if idx >= 0 {
            assert(meminfo_entries(ls)[idx] == (name, x as u64));
        } else {
            assert(meminfo_entries(ls)[m.len() as int] == (name, x as u64));
        }
    } else {
        let sub = ls.drop_last();
        assert forall|j: int| i < j < sub.len() implies !(#[trigger] meminfo_line(sub[j]) matches Some(
            (n, _),
        ) && n == meminfo_line(sub[i]).unwrap().0) by {
            assert(sub[j] == ls[j]);
            assert(meminfo_line(ls[j]) == meminfo_line(ls[j]));
        }
        assert(sub[i] == ls[i]);
        lemma_meminfo_last_value(sub, i);
        let k = choose|k: int| 0 <= k < m.len() && #[trigger] m[k] == (name, x as u64);
        assert(ls.last() == ls[ls.len() - 1]);
        assert(!(meminfo_line(ls[ls.len() - 1]) matches Some((n, _)) && n == name));
        match meminfo_line(ls.last()) {
            Some((n2, x2)) => {
                lemma_entry_index(m, n2);
                let idx = entry_index(m, n2);
                assert(n2 != name);
                if idx >= 0 {
                    assert(idx != k);
                    assert(meminfo_entries(ls)[k] == m[k]);
                } else {
                    assert(meminfo_entries(ls)[k] == m[k]);
                }
            },
            None => {
                assert(meminfo_entries(ls)[k] == m[k]);
            },
        }
    }
}

/// The names of some entries occur once each.
pub open spec fn unique_names(m: Seq<(Seq<char>, u64)>) -> bool {
    forall|i: int, j: int| 0 <= i < j < m.len() ==> (#[trigger] m[i]).0 != (#[trigger] m[j]).0
}

/// The entries read from /proc/meminfo name each value once.
pub proof fn lemma_meminfo_names_unique(ls: Seq<Seq<char>>)
    ensures
        unique_names(meminfo_entries(ls)),
    decreases ls.len(),
{
    if ls.len() > 0 {
        let m = meminfo_entries(ls.drop_last());
        lemma_meminfo_names_unique(ls.drop_last());
        match meminfo_line(ls.last()) {
            Some((name, x)) => {
                lemma_entry_index(m, name);
                let r = ordered_insert(m, name, x as u64);
                assert forall|i: int, j: int| 0 <= i < j < r.len() implies (#[trigger] r[i]).0 != (#[trigger] r[j]).0 by {
                    if entry_index(m, name) < 0 && j == m.len() {
                        assert(m[i].0 != name);
                    }
                }
            },
            None => {},
        }
    }
}

/// The insertion-ordered map of the indexmap crate.
#[verifier::external_type_specification]
#[verifier::external_body]
#[verifier::reject_recursive_types(K)]
#[verifier::reject_recursive_types(V)]
#[verifier::reject_recursive_types(S)]
pub struct ExIndexMap<K, V, S>(IndexMap<K, V, S>);

/// What a map of /proc/meminfo values holds: its names with their values, in the map's
/// order.
pub uninterp spec fn meminfo_map_entries(m: IndexMap<String, u64>) -> Seq<(Seq<char>, u64)>;

/// `IndexMap::new`: a map that holds nothing.
#[verifier::external_body]
fn new_meminfo_map() -> (m: IndexMap<String, u64>)
    ensures
        meminfo_map_entries(m) == Seq::<(Seq<char>, u64)>::empty(),
{
    IndexMap::new()
}

/// `IndexMap::insert`: a name that the map holds keeps its place and takes the new value; a
/// new name comes last with its value.
#[verifier::external_body]
fn meminfo_map_insert(m: &mut IndexMap<String, u64>, k: String, v: u64)
    ensures
        meminfo_map_entries(*final(m)) == ordered_insert(meminfo_map_entries(*old(m)), k@, v),
{
    m.insert(k, v);
}

fn unit_factor_of(unit: &str) -> (r: u64)
    ensures
        r == unit_factor(unit@),
{
    if str_eq(unit, "KiB") || str_eq(unit, "kiB") || str_eq(unit, "kB") || str_eq(unit, "KB") {
        1024
    } else if str_eq(unit, "MiB") || str_eq(unit, "miB") || str_eq(unit, "MB") || str_eq(unit, "mB") {
        1024 * 1024
    } else if str_eq(unit, "GiB") || str_eq(unit, "giB") || str_eq(unit, "GB") || str_eq(unit, "gB") {
        1024 * 1024 * 1024
    } else {
        1
    }
}

/// Reads /proc/meminfo: each name with its value in bytes, in the order the names first
/// appear (a repeated name keeps its place and takes its last value).
pub fn parse_meminfo(raw_data: &str) -> (r: IndexMap<String, u64>)
    requires
        forall|i: int| 0 <= i < lines(raw_data@).len() ==> meminfo_line_ok(#[trigger] lines(raw_data@)[i]),
    ensures
        meminfo_map_entries(r) == meminfo_entries(lines(raw_data@)),
{
    let ls = lines_of(raw_data);
    let ghost lv = lines(raw_data@);
    let mut out = new_meminfo_map();
    let mut i: usize = 0;
    assert(lv.take(0) =~= Seq::<Seq<char>>::empty());
    while i < ls.len()
        invariant
            strs_view(ls@) == lv,
            lv == lines(raw_data@),
            forall|j: int| 0 <= j < lv.len() ==> meminfo_line_ok(#[trigger] lv[j]),
            0 <= i <= ls@.len(),
            meminfo_map_entries(out) == meminfo_entries(lv.take(i as int)),
        decreases ls.len() - i,
    {
        assert(lv.take(i + 1).drop_last() =~= lv.take(i as int));
        assert(lv.take(i + 1).last() == ls@[i as int]@);
        let line = ls[i].as_str();
        assert(line@ == lv[i as int]);
        assert(meminfo_line_ok(lv[i as int]));
        proof {
            reveal_strlit("");
        }
        let w = words_of(line);
        let ghost wv = words(line@);
        if w.len() >= 2 {
            assert(w@[0]@ == wv[0] && w@[1]@ == wv[1]);
            let v1 = chars_of(w[1].as_str());
            assert(v1@.subrange(0, v1@.len() as int) =~= v1@);
            match parse_unsigned_range(&v1, 0, v1.len(), u64::MAX) {
                Some(x) => {
                    let ghost unit = if wv.len() > 2 {
                        wv[2]
                    } else {
                        Seq::<char>::empty()
                    };
                    let factor = if w.len() > 2 {
                        assert(w@[2]@ == wv[2]);
                        unit_factor_of(w[2].as_str())
                    } else {
                        assert(""@ =~= Seq::<char>::empty());
                        unit_factor_of("")
                    };
                    assert(factor == unit_factor(unit));
                    assert(meminfo_line(line@) == Some((wv[0].drop_last(), (x * unit_factor(unit)) as nat)));
                    assert(x * factor <= u64::MAX);
                    let value = x * factor;
                    let v0 = chars_of(w[0].as_str());
                    let name_len = v0.len() - 1;
                    let mut name = String::new();
                    push_range(&mut name, &v0, 0, name_len);
                    assert(v0@.subrange(0, name_len as int) =~= wv[0].drop_last());
                    meminfo_map_insert(&mut out, name, value);
                },
                None => {},
            }
        }
        i = i + 1;
    }
    assert(lv.take(ls@.len() as int) =~= lv);
    out
}

// ------------------------------------------------------------------------------------------
// Unused HugeTLB memory
// ------------------------------------------------------------------------------------------

/// The size in kB of a per-size HugeTLB metric "HugePages_Total_<n>kB", if the name is one.
pub open spec fn hugetlb_total_size(name: Seq<char>) -> Option<nat> {
    if "HugePages_Total_"@.is_prefix_of(name) && "kB"@.is_suffix_of(name.skip(16)) {
        parse_unsigned(name.subrange(16, name.len() - 2), u64::MAX as nat)
    } else {
        None
    }
}

/// The bytes of unused pages of one size: free minus reserved pages, times the size.
pub open spec fn hugetlb_term(size_kb: nat) -> Seq<char> {
    "(HugePages_Free_"@ + decimal(size_kb) + "kB - HugePages_Rsvd_"@ + decimal(size_kb) + "kB) * "@
        + decimal(size_kb * 1024)
}

/// The terms of the sizes of the per-size metrics among the names, in order.
pub open spec fn hugetlb_terms(names: Seq<Seq<char>>) -> Seq<Seq<char>>
    decreases names.len(),
{
    if names.len() == 0 {
        Seq::<Seq<char>>::empty()
    } else {
        let t = hugetlb_terms(names.drop_last());
        match hugetlb_total_size(names.last()) {
            Some(n) => t.push(hugetlb_term(n)),
            None => t,
        }
    }
}

/// The items joined with a separator.
pub open spec fn join(items: Seq<Seq<char>>, sep: Seq<char>) -> Seq<char>
    decreases items.len(),
{
    if items.len() == 0 {
        Seq::<char>::empty()
    } else if items.len() == 1 {
        items[0]
    } else {
        join(items.drop_last(), sep) + sep + items.last()
    }
}

/// The expression of the percentage of memory in unused HugeTLB pages: the per-size terms
/// when the metric names hold per-size totals, else the term of the default size.
pub open spec fn hugetlb_unused_expression(names: Seq<Seq<char>>) -> Seq<char> {
    let terms = hugetlb_terms(names);
    let unused = if terms.len() == 0 {
        "(HugePages_Free - HugePages_Rsvd) * Hugepagesize"@
    } else {
        join(terms, " + "@)
    };
    "("@ + unused + ") / MemTotal * 100"@
}

/// The unused HugeTLB bytes of the pages of each size are added up: the expression is the
/// sum, in parentheses, over a percentage of the total memory; the first per-size total
/// among the names gives the first term, and each further per-size total adds " + " and its
/// term, the free minus the reserved pages of that size times the size in bytes. Without any
/// per-size total the default page size's pages are counted.
pub proof fn lemma_hugetlb_expression_sums_sizes(names: Seq<Seq<char>>, x: Seq<char>)
    ensures
        hugetlb_terms(names).len() == 0 ==> hugetlb_unused_expression(names)
            == "((HugePages_Free - HugePages_Rsvd) * Hugepagesize) / MemTotal * 100"@,
        hugetlb_total_size(x) is None ==> hugetlb_unused_expression(names.push(x))
            == hugetlb_unused_expression(names),
        hugetlb_total_size(x) matches Some(n) ==> {
            let t = "(HugePages_Free_"@ + decimal(n) + "kB - HugePages_Rsvd_"@ + decimal(n)
                + "kB) * "@ + decimal(n * 1024);
            &&& hugetlb_terms(names).len() == 0 ==> hugetlb_unused_expression(names.push(x))
                == "("@ + t + ") / MemTotal * 100"@
            &&& hugetlb_terms(names).len() > 0 ==> exists|sum: Seq<char>|
                hugetlb_unused_expression(names) == "("@ + sum + ") / MemTotal * 100"@
                    && #[trigger] hugetlb_unused_expression(names.push(x)) == "("@ + sum + " + "@ + t
                    + ") / MemTotal * 100"@
        },
{
    reveal_strlit("(");
    reveal_strlit("(HugePages_Free - HugePages_Rsvd) * Hugepagesize");
    reveal_strlit(") / MemTotal * 100");
    reveal_strlit("((HugePages_Free - HugePages_Rsvd) * Hugepagesize) / MemTotal * 100");
    assert(names.push(x).drop_last() =~= names);
    assert(names.push(x).last() == x);
    if hugetlb_terms(names).len() == 0 {
        assert("("@ + "(HugePages_Free - HugePages_Rsvd) * Hugepagesize"@ + ") / MemTotal * 100"@
            =~= "((HugePages_Free - HugePages_Rsvd) * Hugepagesize) / MemTotal * 100"@);
    }
    match hugetlb_total_size(x) {
        Some(n) => {
            let terms = hugetlb_terms(names);
            let all = terms.push(hugetlb_term(n));
            assert(hugetlb_terms(names.push(x)) == all);
            if terms.len() > 0 {
                assert(all.drop_last() =~= terms);
                assert(join(all, " + "@) == join(terms, " + "@) + " + "@ + hugetlb_term(n));
                let sum = join(terms, " + "@);
                assert(hugetlb_unused_expression(names.push(x)) =~= "("@ + sum + " + "@
                    + hugetlb_term(n) + ") / MemTotal * 100"@);
            } else {
                assert(join(all, " + "@) == hugetlb_term(n));
            }
        },
        None => {},
    }
}

/// The sizes whose bytes fit a `u64`.
pub open spec fn hugetlb_sizes_fit(names: Seq<Seq<char>>) -> bool {
    forall|i: int|
        0 <= i < names.len() ==> match hugetlb_total_size(#[trigger] names[i]) {
            Some(n) => n * 1024 <= u64::MAX,
            None => true,
        }
}

fn hugetlb_size_of(name: &str) -> (r: Option<u64>)
    ensures
        match r {
            Some(n) => hugetlb_total_size(name@) == Some(n as nat),
            None => hugetlb_total_size(name@) is None,
        },
{
    let v = chars_of(name);
    let n = v.len();
    assert(v@.subrange(0, n as int) =~= v@);
    proof {
        reveal_strlit("HugePages_Total_");
        reveal_strlit("kB");
    }
    if !range_starts_with(&v, 0, n, &chars_of("HugePages_Total_")) {
        return None;
    }
    assert(v@.subrange(16, n as int) =~= name@.skip(16));
    if !range_ends_with(&v, 16, n, &chars_of("kB")) {
        return None;
    }
    parse_unsigned_range(&v, 16, n - 2, u64::MAX)
}

/// The expression of the derived metric of unused HugeTLB memory, as a percentage of the
/// total memory, from the metric names of /proc/meminfo.
pub fn hugetlb_unused_memory_expression(metric_names: &Vec<String>) -> (r: String)
    requires
        hugetlb_sizes_fit(strs_view(metric_names@)),
    ensures
        r@ == hugetlb_unused_expression(strs_view(metric_names@)),
{
    let ghost nv = strs_view(metric_names@);
    let mut joined = String::new();
    let mut count: usize = 0;
    let mut i: usize = 0;
    assert(nv.take(0) =~= Seq::<Seq<char>>::empty());
    while i < metric_names.len()
        invariant
            nv == strs_view(metric_names@),
            hugetlb_sizes_fit(nv),
            0 <= i <= nv.len(),
            count == hugetlb_terms(nv.take(i as int)).len(),
            count <= i,
            joined@ == join(hugetlb_terms(nv.take(i as int)), " + "@),
        decreases metric_names.len() - i,
    {
        assert(nv.take(i + 1).drop_last() =~= nv.take(i as int));
        assert(nv.take(i + 1).last() == metric_names@[i as int]@);
        assert(nv[i as int] == metric_names@[i as int]@);
        match hugetlb_size_of(metric_names[i].as_str()) {
            Some(size) => {
                let ghost before = hugetlb_terms(nv.take(i as int));
                if count > 0 {
                    push_str(&mut joined, " + ");
                }
                push_str(&mut joined, "(HugePages_Free_");
                push_decimal(&mut joined, size);
                push_str(&mut joined, "kB - HugePages_Rsvd_");
                push_decimal(&mut joined, size);
                push_str(&mut joined, "kB) * ");
                push_decimal(&mut joined, size * 1024);
                let ghost after = before.push(hugetlb_term(size as nat));
                assert(after.drop_last() =~= before);
                if count == 0 {
                    assert(before.len() == 0);
                    assert(join(before, " + "@) =~= Seq::<char>::empty());
                }
                count = count + 1;
            },
            None => {},
        }
        i = i + 1;
    }
    assert(nv.take(nv.len() as int) =~= nv);
    let mut s = String::new();
    push_str(&mut s, "(");
    if count == 0 {
        push_str(&mut s, "(HugePages_Free - HugePages_Rsvd) * Hugepagesize");
    } else {
        push_str(&mut s, joined.as_str());
    }
    push_str(&mut s, ") / MemTotal * 100");
    s
}

} // verus!
